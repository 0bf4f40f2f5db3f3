use erbium_core::addr::{Ip4Addr, Ip6Addr, IpAddr, SocketAddr};
use erbium_core::dns::{
    self, CookieKeys, CookieStatus, DnsMessage, Error, OutReplyError, Protocol, ReplyError,
};
use erbium_core::dnspkt::{self, DNSPkt, EdnsData, EdnsOption, Question, ResourceRecord};
use erbium_core::ratelimit::{self, IpRateLimiter, TokenBucket, CAPACITY};

fn v6(g: [u16; 8]) -> Ip6Addr {
    let mut octets = [0u8; 16];
    for i in 0..8 {
        octets[2 * i] = (g[i] >> 8) as u8;
        octets[2 * i + 1] = (g[i] & 0xff) as u8;
    }
    Ip6Addr { octets }
}

fn local() -> IpAddr {
    IpAddr::V6(v6([0x2001, 0xdb8, 0, 0, 0, 0, 0, 1]))
}

fn remote() -> SocketAddr {
    SocketAddr { ip: IpAddr::V6(v6([0x2001, 0xdb8, 0, 0, 0, 0, 0, 2])), port: 5353, scope_id: 0 }
}

fn key() -> Vec<u8> {
    vec![0x01, 0x23, 0x45, 0x67, 0x89, 0xab, 0xcd, 0xef]
}

fn query(options: Option<Vec<EdnsOption>>) -> DNSPkt {
    let has_edns = options.is_some();
    DNSPkt {
        qid: 0x1234,
        rd: true,
        tc: false,
        aa: false,
        qr: false,
        opcode: 0,
        cd: false,
        ad: false,
        ra: false,
        rcode: 0,
        bufsize: if has_edns { 4096 } else { 512 },
        edns_ver: if has_edns { Some(0) } else { None },
        edns_do: false,
        question: vec![Question { qdomain: vec![b"example".to_vec(), b"com".to_vec()], qtype: 1, qclass: 1 }],
        answer: vec![],
        nameserver: vec![],
        additional: vec![],
        edns: options.map(|options| EdnsData { options }),
    }
}

fn received(q: &DNSPkt, protocol: Protocol) -> DnsMessage {
    let bytes = q.serialise();
    match dns::build_dns_message(&bytes, local(), remote(), protocol) {
        Ok(m) => m,
        Err(_) => panic!("query did not parse"),
    }
}

fn answer(rdata_len: usize) -> DNSPkt {
    let mut a = query(None);
    a.qr = true;
    a.ra = true;
    a.aa = true;
    a.answer = vec![ResourceRecord {
        domain: vec![b"example".to_vec(), b"com".to_vec()],
        rrtype: 16,
        class: 1,
        ttl: 300,
        rdata: vec![7; rdata_len],
    }];
    a
}

fn opt(p: &DNSPkt, code: u16) -> Option<Vec<u8>> {
    p.edns.as_ref()?.options.iter().find(|o| o.code == code).map(|o| o.data.clone())
}

fn cookie_query(server: Option<Vec<u8>>) -> DNSPkt {
    let mut data = vec![1, 2, 3, 4, 5, 6, 7, 8];
    if let Some(s) = server {
        data.extend(s);
    }
    query(Some(vec![EdnsOption { code: dnspkt::EDNS_COOKIE, data }]))
}

fn good_cookie_message(k: &[u8]) -> DnsMessage {
    let probe = received(&cookie_query(None), Protocol::UDP);
    let server = probe.calculate_cookie(&[1, 2, 3, 4, 5, 6, 7, 8], k);
    received(&cookie_query(Some(server)), Protocol::UDP)
}

#[test]
fn query_round_trips_through_parser() {
    let q = query(Some(vec![EdnsOption { code: dnspkt::EDNS_NSID, data: vec![] }]));
    let bytes = q.serialise();
    let back = dnspkt::parse_pkt(&bytes).unwrap();
    assert_eq!(format!("{:?}", back), format!("{:?}", q));
    let m = received(&q, Protocol::UDP);
    assert_eq!(m.in_size, bytes.len());
}

#[test]
fn malformed_query_is_a_parse_error() {
    assert!(matches!(dns::build_dns_message(&[1, 2, 3], local(), remote(), Protocol::UDP), Err(Error::ParseError(_))));
}

#[test]
fn nsid_reply_without_cookie() {
    let m = received(&query(Some(vec![EdnsOption { code: dnspkt::EDNS_NSID, data: vec![] }])), Protocol::UDP);
    let r = dns::create_in_reply(&m, &answer(4), &key());
    assert_eq!(r.rcode, dnspkt::NOERROR);
    assert!(r.qr);
    assert!(!r.rd);
    assert_eq!(r.bufsize, 4096);
    assert_eq!(r.qid, 0x1234);
    assert_eq!(r.edns_ver, Some(0));
    assert_eq!(opt(&r, dnspkt::EDNS_NSID), Some(b"2001:db8::1".to_vec()));
    assert_eq!(opt(&r, dnspkt::EDNS_COOKIE), None);
    assert_eq!(r.answer.len(), 1);
    assert_eq!(r.nameserver.len(), 1);
    assert_eq!(r.nameserver[0].rdata, r.answer[0].rdata);
}

#[test]
fn cookie_value_is_hmac_sha256() {
    let m = received(&cookie_query(None), Protocol::UDP);
    let c = m.calculate_cookie(&[1, 2, 3, 4, 5, 6, 7, 8], &key());
    assert_eq!(
        c,
        vec![
            50, 59, 110, 85, 82, 214, 142, 122, 102, 236, 116, 64, 248, 91, 161, 250, 190, 183, 236, 36, 55,
            192, 44, 105, 215, 214, 111, 130, 142, 119, 39, 252
        ]
    );
    assert_eq!(c, m.calculate_cookie(&[1, 2, 3, 4, 5, 6, 7, 8], &key()));
}

#[test]
fn cookie_depends_on_each_input() {
    let m = received(&cookie_query(None), Protocol::UDP);
    let base = m.calculate_cookie(&[1, 2, 3, 4, 5, 6, 7, 8], &key());
    assert_ne!(base, m.calculate_cookie(&[1, 2, 3, 4, 5, 6, 7, 9], &key()));
    let mut other_local = received(&cookie_query(None), Protocol::UDP);
    other_local.local_ip = IpAddr::V4(Ip4Addr { octets: [192, 0, 2, 1] });
    assert_ne!(base, other_local.calculate_cookie(&[1, 2, 3, 4, 5, 6, 7, 8], &key()));
    let mut other_remote = received(&cookie_query(None), Protocol::UDP);
    other_remote.remote_addr.ip = IpAddr::V6(v6([0x2001, 0xdb8, 0, 0, 0, 0, 0, 3]));
    assert_ne!(base, other_remote.calculate_cookie(&[1, 2, 3, 4, 5, 6, 7, 8], &key()));
}

#[test]
fn reply_echoes_cookie_with_server_half() {
    let m = received(&cookie_query(None), Protocol::UDP);
    let r = dns::create_in_reply(&m, &answer(4), &key());
    let c = opt(&r, dnspkt::EDNS_COOKIE).unwrap();
    assert_eq!(c.len(), 40);
    assert_eq!(&c[..8], &[1, 2, 3, 4, 5, 6, 7, 8]);
    assert_eq!(c[8..].to_vec(), m.calculate_cookie(&[1, 2, 3, 4, 5, 6, 7, 8], &key()));
}

#[test]
fn cookie_statuses() {
    let k = key();
    let old = vec![9u8; 8];
    let none = received(&query(None), Protocol::UDP);
    assert_eq!(none.validate_cookie(&k, &old), CookieStatus::Missing);
    let client_only = received(&cookie_query(None), Protocol::UDP);
    assert_eq!(client_only.validate_cookie(&k, &old), CookieStatus::Bad);
    let wrong = received(&cookie_query(Some(vec![0; 32])), Protocol::UDP);
    assert_eq!(wrong.validate_cookie(&k, &old), CookieStatus::Bad);
    let good = good_cookie_message(&k);
    assert_eq!(good.validate_cookie(&k, &old), CookieStatus::Good);
    let good_old = good_cookie_message(&old);
    assert_eq!(good_old.validate_cookie_key(&k), CookieStatus::Bad);
    assert_eq!(good_old.validate_cookie(&k, &old), CookieStatus::Good);
}

#[test]
fn key_rotation() {
    let mut keys = CookieKeys::new(key());
    let m = good_cookie_message(&key());
    assert_eq!(keys.validate(&m), CookieStatus::Good);
    keys.rotate(vec![5; 8]);
    assert_eq!(keys.previous, key());
    assert_eq!(keys.validate(&m), CookieStatus::Good);
    keys.rotate(vec![6; 8]);
    assert_eq!(keys.validate(&m), CookieStatus::Bad);
}

fn ede(p: &DNSPkt) -> (u16, Vec<u8>) {
    let d = opt(p, dnspkt::EDNS_EDE).unwrap();
    (u16::from_be_bytes([d[0], d[1]]), d[2..].to_vec())
}

#[test]
fn error_replies() {
    let m = received(&query(Some(vec![])), Protocol::UDP);
    let cases = vec![
        (ReplyError::RefusedByAcl("not listed".into()), dnspkt::REFUSED, dnspkt::EDE_PROHIBITED, "not listed"),
        (ReplyError::Denied("policy".into()), dnspkt::REFUSED, dnspkt::EDE_PROHIBITED, "policy"),
        (ReplyError::NotAuthoritative, dnspkt::REFUSED, dnspkt::EDE_NOT_AUTHORITATIVE, "Not Authoritative"),
        (
            ReplyError::OutReply(OutReplyError::Timeout),
            dnspkt::SERVFAIL,
            dnspkt::EDE_NO_REACHABLE_AUTHORITY,
            "Timed out talking to upstream server",
        ),
        (ReplyError::OutReply(OutReplyError::FailedToSend("io".into())), dnspkt::SERVFAIL, dnspkt::EDE_NETWORK_ERROR, "io"),
        (ReplyError::OutReply(OutReplyError::FailedToSendMsg("s".into())), dnspkt::SERVFAIL, dnspkt::EDE_NETWORK_ERROR, "s"),
        (ReplyError::OutReply(OutReplyError::FailedToRecv("r".into())), dnspkt::SERVFAIL, dnspkt::EDE_NETWORK_ERROR, "r"),
        (ReplyError::OutReply(OutReplyError::FailedToRecvMsg("m".into())), dnspkt::SERVFAIL, dnspkt::EDE_NETWORK_ERROR, "m"),
        (ReplyError::OutReply(OutReplyError::TcpConnectionError("t".into())), dnspkt::SERVFAIL, dnspkt::EDE_NETWORK_ERROR, "t"),
        (ReplyError::OutReply(OutReplyError::ParseError("p".into())), dnspkt::SERVFAIL, dnspkt::EDE_NETWORK_ERROR, "p"),
        (ReplyError::OutReply(OutReplyError::InternalError("x".into())), dnspkt::SERVFAIL, dnspkt::EDE_OTHER, "Internal Error"),
    ];
    for (err, rcode, code, text) in cases {
        let r = dns::create_in_error(&m, &err);
        assert_eq!(r.rcode, rcode);
        assert_eq!(ede(&r), (code, text.as_bytes().to_vec()));
        assert!(r.qr && r.ra && !r.rd && !r.tc);
        assert_eq!(r.question.len(), 1);
        assert!(r.answer.is_empty() && r.nameserver.is_empty() && r.additional.is_empty());
        assert_eq!(r.bufsize, 4096);
    }
}

#[test]
fn outcome_chooses_reply_kind() {
    let m = received(&query(None), Protocol::UDP);
    let ok = dns::recv_in_query(&m, &Ok(answer(4)), &key());
    assert_eq!(ok.rcode, dnspkt::NOERROR);
    assert_eq!(ok.edns_ver, None);
    let err = dns::recv_in_query(&m, &Err(ReplyError::NotAuthoritative), &key());
    assert_eq!(err.rcode, dnspkt::REFUSED);
}

#[test]
fn refused_with_good_cookie_is_never_limited() {
    let keys = CookieKeys::new(key());
    let m = good_cookie_message(&key());
    assert_eq!(keys.validate(&m), CookieStatus::Good);
    let reply = dns::create_in_error(&m, &ReplyError::Denied("denied by policy".into()));
    assert_eq!(reply.rcode, dnspkt::REFUSED);
    assert_eq!(ede(&reply), (dnspkt::EDE_PROHIBITED, b"denied by policy".to_vec()));
    let reply_len = reply.serialise().len();
    let mut limiter = IpRateLimiter::new(0);
    assert!(!dns::should_ratelimit(&m, reply.rcode, reply_len, &keys, &mut limiter, 0));
    for _ in 0..2000 {
        assert!(!dns::should_ratelimit(&m, dnspkt::REFUSED, 200, &keys, &mut limiter, 0));
    }
}

#[test]
fn refused_without_cookie_is_limited() {
    let keys = CookieKeys::new(key());
    let mut m = received(&query(None), Protocol::UDP);
    m.in_size = 50;
    let mut limiter = IpRateLimiter::new(0);
    let mut sent = 0u64;
    while !dns::should_ratelimit(&m, dnspkt::REFUSED, 200, &keys, &mut limiter, 0) {
        sent += 1;
        assert!(sent <= 2 * CAPACITY / 350 + 1);
    }
    assert_eq!(sent, 2 * (CAPACITY / 350));
    assert!(dns::should_ratelimit(&m, dnspkt::REFUSED, 200, &keys, &mut limiter, 0));
    assert!(!dns::should_ratelimit(&m, dnspkt::NOERROR, 200, &keys, &mut limiter, 0));
    let good = good_cookie_message(&key());
    assert!(!dns::should_ratelimit(&good, dnspkt::REFUSED, 200, &keys, &mut limiter, 0));
}

#[test]
fn large_tcp_reply_is_not_truncated() {
    let mut q = query(Some(vec![]));
    q.question[0].qdomain = vec![vec![b'a'; 60]; 20];
    let m = received(&q, Protocol::TCP);
    assert!(m.in_size > 1200);
    let r = dns::create_in_reply(&m, &answer(900), &key());
    let full = r.serialise();
    let bytes = dns::prepare_to_send(&r, m.in_query.bufsize as usize);
    assert_eq!(bytes, full);
    assert!(bytes.len() > 2000);
    assert_eq!(bytes[2] & 2, 0);
    let framed = dns::frame_tcp(&bytes).unwrap();
    assert_eq!(dns::tcp_message_length([framed[0], framed[1]]), bytes.len());
    assert_eq!(&framed[2..], &bytes[..]);
}

#[test]
fn oversized_udp_reply_is_truncated() {
    let m = received(&query(None), Protocol::UDP);
    let r = dns::create_in_reply(&m, &answer(600), &key());
    let bytes = dns::prepare_to_send(&r, 0);
    assert!(bytes.len() <= 512);
    assert_eq!(bytes[2] & 2, 2);
    assert_eq!(&bytes[6..8], &[0, 0]);
    assert_eq!(&bytes[4..6], &[0, 1]);
}

#[test]
fn tcp_framing_limits() {
    assert_eq!(dns::tcp_message_length([0x07, 0xd0]), 2000);
    assert!(dns::frame_tcp(&vec![0; 70000]).is_none());
    assert_eq!(dns::frame_tcp(&vec![9; 3]).unwrap(), vec![0, 3, 9, 9, 9]);
}

#[test]
fn amplification_cost() {
    assert_eq!(ratelimit::cost_of(50, 200), 350);
    assert_eq!(ratelimit::cost_of(100, 40), 0);
    assert_eq!(ratelimit::cost_of(100, 50), 0);
    assert_eq!(ratelimit::cost_of(100, 51), 2);
}

#[test]
fn probed_buckets_are_distinct() {
    for h1 in 0..600usize {
        for h2 in [0usize, 1, 254, 255, 256, 510, h1, h1 + 255, usize::MAX] {
            let (a, b) = ratelimit::probe_buckets(h1, h2);
            assert_ne!(a, b);
            assert!(a < 256 && b < 256);
            assert_eq!(ratelimit::probe_buckets(h1, h2), (a, b));
        }
    }
    assert_eq!(ratelimit::probe_buckets(3, 3), (3, 255));
    assert_eq!(ratelimit::probe_buckets(3, 258), (3, 255));
    assert_eq!(ratelimit::probe_buckets(300, 10), (44, 10));
}

#[test]
fn limiter_pays_from_either_bucket_then_refills() {
    let mut l = IpRateLimiter::new(1000);
    assert!(l.check_hashed(1, 2, CAPACITY, 1000));
    assert!(l.check_hashed(1, 2, CAPACITY, 1000));
    assert!(!l.check_hashed(1, 2, 1, 1000));
    assert!(l.check_hashed(1, 2, 4000, 2000));
    assert!(!l.check_hashed(1, 2, 4001, 2000));
    assert!(l.check_hashed(7, 8, CAPACITY, 2000));
}

#[test]
fn bucket_refill() {
    let mut b = TokenBucket::full(0);
    assert!(b.check(CAPACITY, 0));
    b.deplete(CAPACITY, 0);
    assert_eq!(b.available_at(0), 0);
    assert_eq!(b.available_at(10), 40);
    assert_eq!(b.available_at(1_000_000), CAPACITY);
    b.deplete(40, 10);
    assert_eq!((b.tokens, b.last), (0, 10));
    assert_eq!(b.available_at(5), 0);
}

#[test]
fn protocol_names() {
    assert_eq!(Protocol::UDP.name(), "UDP");
    assert_eq!(Protocol::TCP.name(), "TCP");
}
