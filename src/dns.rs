//! DNS ingress: the message a query arrives as, cookie derivation and
//! checking, reply synthesis, the rate-limit decision and TCP framing.
use vstd::prelude::*;
use vstd::utf8::encode_utf8;
use crypto::mac::Mac;
use crate::addr::{IpAddr, SocketAddr, ip_text, ip_to_text};
use crate::dnspkt::{
    DNSPkt, EDE_NETWORK_ERROR, EDE_NOT_AUTHORITATIVE, EDE_NO_REACHABLE_AUTHORITY, EDE_OTHER,
    EDE_PROHIBITED, EDNS_COOKIE, EDNS_EDE, EDNS_NSID, EdnsData, EdnsOption, OPCODE_QUERY, PktView,
    Question, REFUSED, ResourceRecord, SERVFAIL, dec_pkt, edns_opts_view, edns_view, enc_pkt,
    parse_pkt, pkt_view, questions_view, rrs_view,
};
use crate::icmppkt::{be16, bytes_list_view, push_be16, push_bytes};
use crate::ratelimit::{IpRateLimiter, limiter_step, reply_cost, cost_of};

verus! {

/// Transport a query came in on.
#[derive(Clone, Copy, Debug, PartialEq, Eq, Structural)]
pub enum Protocol {
    UDP,
    TCP,
}

impl Protocol {
    /// The protocol's name, as metrics label it.
    pub fn name(&self) -> (r: &'static str)
        ensures
            *self == Protocol::UDP ==> r@ == "UDP"@,
            *self == Protocol::TCP ==> r@ == "TCP"@,
    {
        match self {
            Protocol::UDP => "UDP",
            Protocol::TCP => "TCP",
        }
    }
}

/// Why an upstream exchange failed.
#[derive(Debug)]
pub enum OutReplyError {
    Timeout,
    FailedToSend(String),
    FailedToSendMsg(String),
    FailedToRecv(String),
    FailedToRecvMsg(String),
    TcpConnectionError(String),
    ParseError(String),
    InternalError(String),
}

/// Failures of the DNS service. Listening, receiving and parsing failures
/// leave nobody to answer; the others are answered (see `ReplyError`).
#[derive(Debug)]
pub enum Error {
    ListenError(String),
    RecvError(String),
    ParseError(String),
    RefusedByAcl(String),
    Denied(String),
    NotAuthoritative,
    OutReply(OutReplyError),
}

/// The failures of a query that are answered with an error reply.
#[derive(Debug)]
pub enum ReplyError {
    /// Refused by the access list, with its reason.
    RefusedByAcl(String),
    /// Refused by policy, with the caller's reason.
    Denied(String),
    NotAuthoritative,
    OutReply(OutReplyError),
}

/// Outcome of checking a query's DNS cookie.
#[derive(Clone, Copy, Debug, PartialEq, Eq, Structural)]
pub enum CookieStatus {
    Missing,
    Bad,
    Good,
}

/// A query as received, with where it came from and went to.
#[derive(Debug)]
pub struct DnsMessage {
    pub in_query: DNSPkt,
    /// Length of the query on the wire, the baseline for amplification.
    pub in_size: usize,
    /// Address the query was sent to.
    pub local_ip: IpAddr,
    pub remote_addr: SocketAddr,
    pub protocol: Protocol,
}

/// The HMAC-SHA256 of `msg` under `key`.
pub uninterp spec fn hmac_sha256(key: Seq<u8>, msg: Seq<u8>) -> Seq<u8>;

/// Relies on rust-crypto's `Hmac<Sha256>` (`Hmac::new`, `Mac::input`,
/// `Mac::result`): the 32-octet HMAC-SHA256 of `msg` under `key`.
#[verifier::external_body]
fn hmac_sha256_code(key: &[u8], msg: &[u8]) -> (r: Vec<u8>)
    ensures
        r@ == hmac_sha256(key@, msg@),
        r@.len() == 32,
{
    let mut mac = crypto::hmac::Hmac::new(crypto::sha2::Sha256::new(), key);
    mac.input(msg);
    mac.result().code().to_vec()
}

/// Relies on rust-crypto's `MacResult` equality (`util::fixed_time_eq`):
/// equal lengths and equal octets, compared in fixed time. That function
/// reads the first octet of both sides when the lengths agree, so the first
/// side must not be empty.
#[verifier::external_body]
fn mac_equal(a: &[u8], b: &[u8]) -> (r: bool)
    requires
        a@.len() > 0,
    ensures
        r == (a@ == b@),
{
    crypto::mac::MacResult::new(a) == crypto::mac::MacResult::new(b)
}

/// Octets of an address: four for IPv4, sixteen for IPv6.
pub open spec fn ip_octets(ip: IpAddr) -> Seq<u8> {
    match ip {
        IpAddr::V4(a) => a@,
        IpAddr::V6(a) => a@,
    }
}

fn ip_octets_of(ip: &IpAddr) -> (r: Vec<u8>)
    ensures
        r@ == ip_octets(*ip),
{
    match ip {
        IpAddr::V4(a) => vstd::slice::slice_to_vec(a.octets.as_slice()),
        IpAddr::V6(a) => vstd::slice::slice_to_vec(a.octets.as_slice()),
    }
}

/// What the server cookie is the MAC of: client cookie, then the local and
/// remote addresses.
pub open spec fn cookie_input(client: Seq<u8>, local: IpAddr, remote: IpAddr) -> Seq<u8> {
    client + ip_octets(local) + ip_octets(remote)
}

/// The first EDNS option with code `code`, from index `i` on.
pub open spec fn find_opt(os: Seq<(u16, Seq<u8>)>, code: u16, i: int) -> Option<Seq<u8>>
    decreases os.len() - i,
{
    if i < 0 || i >= os.len() {
        None
    } else if os[i].0 == code {
        Some(os[i].1)
    } else {
        find_opt(os, code, i + 1)
    }
}

/// The first EDNS option of a message with code `code`.
pub open spec fn edns_opt(edns: Option<Seq<(u16, Seq<u8>)>>, code: u16) -> Option<Seq<u8>> {
    match edns {
        Some(os) => find_opt(os, code, 0),
        None => None,
    }
}

/// The cookie a query carries: the eight-octet client cookie, and the
/// server cookie (8 to 32 octets) when present. A cookie option of another
/// length is malformed and counts as none.
pub open spec fn cookie_of(edns: Option<Seq<(u16, Seq<u8>)>>) -> Option<(Seq<u8>, Option<Seq<u8>>)> {
    match edns_opt(edns, EDNS_COOKIE) {
        Some(d) => if d.len() == 8 {
            Some((d, None))
        } else if 16 <= d.len() <= 40 {
            Some((d.subrange(0, 8), Some(d.subrange(8, d.len() as int))))
        } else {
            None
        },
        None => None,
    }
}

/// The server cookie this server gives for `client` under `key`.
pub open spec fn server_cookie(msg: &DnsMessage, client: Seq<u8>, key: Seq<u8>) -> Seq<u8> {
    hmac_sha256(key, cookie_input(client, msg.local_ip, msg.remote_addr.ip))
}

/// Status of a query's cookie under one key.
pub open spec fn key_status(msg: &DnsMessage, key: Seq<u8>) -> CookieStatus {
    match cookie_of(edns_view(msg.in_query.edns)) {
        None => CookieStatus::Missing,
        Some((client, Some(server))) => if server == server_cookie(msg, client, key) {
            CookieStatus::Good
        } else {
            CookieStatus::Bad
        },
        Some((_, None)) => CookieStatus::Bad,
    }
}

/// Status under a current and a previous key: the current one decides
/// unless it finds the cookie bad, then the previous one does.
pub open spec fn cookie_status(msg: &DnsMessage, key: Seq<u8>, oldkey: Seq<u8>) -> CookieStatus {
    match key_status(msg, key) {
        CookieStatus::Bad => key_status(msg, oldkey),
        s => s,
    }
}

fn find_edns_opt(e: &EdnsData, code: u16) -> (r: Option<usize>)
    ensures
        r is None ==> find_opt(e@, code, 0) is None,
        r matches Some(i) ==> i < e.options@.len() && e.options@[i as int].code == code && find_opt(
            e@,
            code,
            0,
        ) == Some(e.options@[i as int].data@),
{
    let mut i: usize = 0;
    while i < e.options.len()
        invariant
            i <= e.options@.len(),
            find_opt(e@, code, 0) == find_opt(e@, code, i as int),
        decreases e.options@.len() - i,
    {
        if e.options[i].code == code {
            return Some(i);
        }
        i = i + 1;
    }
    None
}

/// The cookie option of a query: the client cookie and, when there is one,
/// the server cookie (see `cookie_of`).
pub fn get_cookie(edns: &Option<EdnsData>) -> (r: Option<(Vec<u8>, Option<Vec<u8>>)>)
    ensures
        match (r, cookie_of(edns_view(*edns))) {
            (None, None) => true,
            (Some((c, None)), Some((c2, None))) => c@ == c2,
            (Some((c, Some(s))), Some((c2, Some(s2)))) => c@ == c2 && s@ == s2,
            _ => false,
        },
{
    match edns {
        None => None,
        Some(e) => match find_edns_opt(e, EDNS_COOKIE) {
            None => None,
            Some(i) => {
                let d = &e.options[i].data;
                if d.len() == 8 {
                    Some((vstd::slice::slice_to_vec(d.as_slice()), None))
                } else if 16 <= d.len() && d.len() <= 40 {
                    let mut c: Vec<u8> = Vec::new();
                    push_bytes(&mut c, d.as_slice(), 0, 8);
                    let mut s: Vec<u8> = Vec::new();
                    push_bytes(&mut s, d.as_slice(), 8, d.len());
                    assert(c@ =~= d@.subrange(0, 8));
                    assert(s@ =~= d@.subrange(8, d@.len() as int));
                    Some((c, Some(s)))
                } else {
                    None
                }
            },
        },
    }
}

impl DnsMessage {
    /// The server cookie for `client` under `key`: the HMAC-SHA256 of the
    /// client cookie, the local address octets and the remote address octets.
    pub fn calculate_cookie(&self, client: &[u8], key: &[u8]) -> (r: Vec<u8>)
        ensures
            r@ == server_cookie(self, client@, key@),
            r@.len() == 32,
    {
        let mut input: Vec<u8> = Vec::new();
        push_bytes(&mut input, client, 0, client.len());
        let l = ip_octets_of(&self.local_ip);
        push_bytes(&mut input, l.as_slice(), 0, l.len());
        let r = ip_octets_of(&self.remote_addr.ip);
        push_bytes(&mut input, r.as_slice(), 0, r.len());
        assert(input@ =~= cookie_input(client@, self.local_ip, self.remote_addr.ip));
        hmac_sha256_code(key, input.as_slice())
    }

    /// Checks the query's cookie against one key.
    pub fn validate_cookie_key(&self, key: &[u8]) -> (r: CookieStatus)
        ensures
            r == key_status(self, key@),
    {
        match get_cookie(&self.in_query.edns) {
            None => CookieStatus::Missing,
            Some((_, None)) => CookieStatus::Bad,
            Some((client, Some(server))) => {
                let mine = self.calculate_cookie(client.as_slice(), key);
                if mac_equal(mine.as_slice(), server.as_slice()) {
                    CookieStatus::Good
                } else {
                    CookieStatus::Bad
                }
            },
        }
    }

    /// Checks the query's cookie against the current key, and against the
    /// previous one when the current one finds it bad.
    pub fn validate_cookie(&self, key: &[u8], oldkey: &[u8]) -> (r: CookieStatus)
        ensures
            r == cookie_status(self, key@, oldkey@),
    {
        match self.validate_cookie_key(key) {
            CookieStatus::Bad => self.validate_cookie_key(oldkey),
            status => status,
        }
    }
}

/// The two-key cookie check: `Good` exactly when one of the keys accepts
/// the server cookie, `Missing` exactly when the query has no client cookie,
/// `Bad` exactly when it has one and neither key accepts it.
pub proof fn lemma_validate_cookie(msg: &DnsMessage, key: Seq<u8>, oldkey: Seq<u8>)
    ensures
        cookie_status(msg, key, oldkey) == CookieStatus::Good <==> (key_status(msg, key)
            == CookieStatus::Good || key_status(msg, oldkey) == CookieStatus::Good),
        cookie_status(msg, key, oldkey) == CookieStatus::Missing <==> cookie_of(
            edns_view(msg.in_query.edns),
        ) is None,
        cookie_status(msg, key, oldkey) == CookieStatus::Bad <==> (cookie_of(
            edns_view(msg.in_query.edns),
        ) is Some && key_status(msg, key) != CookieStatus::Good && key_status(msg, oldkey)
            != CookieStatus::Good),
{
}

/// The MAC input binds its parts: with client cookies of one length and
/// addresses of the same families, equal inputs mean equal client cookies,
/// local addresses and remote addresses.
pub proof fn lemma_cookie_input_binds(
    c1: Seq<u8>,
    l1: IpAddr,
    r1: IpAddr,
    c2: Seq<u8>,
    l2: IpAddr,
    r2: IpAddr,
)
    requires
        c1.len() == c2.len(),
        l1 is V4 <==> l2 is V4,
        r1 is V4 <==> r2 is V4,
        cookie_input(c1, l1, r1) == cookie_input(c2, l2, r2),
    ensures
        c1 == c2,
        ip_octets(l1) == ip_octets(l2),
        ip_octets(r1) == ip_octets(r2),
{
    let a = cookie_input(c1, l1, r1);
    let n = c1.len() as int;
    let m = ip_octets(l1).len() as int;
    assert(ip_octets(l1).len() == ip_octets(l2).len());
    assert(c1 =~= a.subrange(0, n));
    assert(c2 =~= a.subrange(0, n));
    assert(ip_octets(l1) =~= a.subrange(n, n + m));
    assert(ip_octets(l2) =~= a.subrange(n, n + m));
    assert(ip_octets(r1) =~= a.subrange(n + m, a.len() as int));
    assert(ip_octets(r2) =~= a.subrange(n + m, a.len() as int));
}

/// The fixed cookie key; rotation goes through `CookieKeys`.
pub fn cookie_key() -> (r: Vec<u8>)
    ensures
        r@ == seq![0x01u8, 0x23u8, 0x45u8, 0x67u8, 0x89u8, 0xabu8, 0xcdu8, 0xefu8],
{
    let r = vec![0x01u8, 0x23, 0x45, 0x67, 0x89, 0xab, 0xcd, 0xef];
    assert(r@ =~= seq![0x01u8, 0x23u8, 0x45u8, 0x67u8, 0x89u8, 0xabu8, 0xcdu8, 0xefu8]);
    r
}

/// The current cookie key and the one it replaced.
#[derive(Debug)]
pub struct CookieKeys {
    pub current: Vec<u8>,
    pub previous: Vec<u8>,
}

impl CookieKeys {
    /// Both slots hold `key`.
    pub fn new(key: Vec<u8>) -> (r: CookieKeys)
        ensures
            r.current@ == key@,
            r.previous@ == key@,
    {
        let previous = vstd::slice::slice_to_vec(key.as_slice());
        CookieKeys { current: key, previous }
    }

    /// Rotation: the current key becomes the previous one and `fresh` the
    /// current one.
    pub fn rotate(&mut self, fresh: Vec<u8>)
        ensures
            final(self).previous@ == old(self).current@,
            final(self).current@ == fresh@,
    {
        self.previous = vstd::slice::slice_to_vec(self.current.as_slice());
        self.current = fresh;
    }

    /// Checks a query's cookie against both keys.
    pub fn validate(&self, msg: &DnsMessage) -> (r: CookieStatus)
        ensures
            r == cookie_status(msg, self.current@, self.previous@),
    {
        msg.validate_cookie(self.current.as_slice(), self.previous.as_slice())
    }
}

fn copy_bytes(v: &Vec<u8>) -> (r: Vec<u8>)
    ensures
        r@ == v@,
{
    vstd::slice::slice_to_vec(v.as_slice())
}

fn copy_labels(v: &Vec<Vec<u8>>) -> (r: Vec<Vec<u8>>)
    ensures
        bytes_list_view(r@) == bytes_list_view(v@),
{
    let mut out: Vec<Vec<u8>> = Vec::new();
    let mut i: usize = 0;
    while i < v.len()
        invariant
            i <= v@.len(),
            bytes_list_view(out@) =~= bytes_list_view(v@.take(i as int)),
        decreases v@.len() - i,
    {
        let ghost before = out@;
        out.push(copy_bytes(&v[i]));
        assert(bytes_list_view(out@) =~= bytes_list_view(before).push(v@[i as int]@));
        assert(v@.take(i + 1) =~= v@.take(i as int).push(v@[i as int]));
        i = i + 1;
    }
    assert(v@.take(v@.len() as int) =~= v@);
    out
}

fn copy_questions(v: &Vec<Question>) -> (r: Vec<Question>)
    ensures
        questions_view(r@) == questions_view(v@),
{
    let mut out: Vec<Question> = Vec::new();
    let mut i: usize = 0;
    while i < v.len()
        invariant
            i <= v@.len(),
            questions_view(out@) =~= questions_view(v@.take(i as int)),
        decreases v@.len() - i,
    {
        let q = &v[i];
        let ghost before = out@;
        out.push(Question { qdomain: copy_labels(&q.qdomain), qtype: q.qtype, qclass: q.qclass });
        assert(questions_view(out@) =~= questions_view(before).push(
            crate::dnspkt::question_view(v@[i as int]),
        ));
        assert(v@.take(i + 1) =~= v@.take(i as int).push(v@[i as int]));
        i = i + 1;
    }
    assert(v@.take(v@.len() as int) =~= v@);
    out
}

fn copy_rrs(v: &Vec<ResourceRecord>) -> (r: Vec<ResourceRecord>)
    ensures
        rrs_view(r@) == rrs_view(v@),
{
    let mut out: Vec<ResourceRecord> = Vec::new();
    let mut i: usize = 0;
    while i < v.len()
        invariant
            i <= v@.len(),
            rrs_view(out@) =~= rrs_view(v@.take(i as int)),
        decreases v@.len() - i,
    {
        let x = &v[i];
        let ghost before = out@;
        out.push(
            ResourceRecord {
                domain: copy_labels(&x.domain),
                rrtype: x.rrtype,
                class: x.class,
                ttl: x.ttl,
                rdata: copy_bytes(&x.rdata),
            },
        );
        assert(rrs_view(out@) =~= rrs_view(before).push(crate::dnspkt::rr_view(v@[i as int])));
        assert(v@.take(i + 1) =~= v@.take(i as int).push(v@[i as int]));
        i = i + 1;
    }
    assert(v@.take(v@.len() as int) =~= v@);
    out
}

/// Buffer size every reply advertises.
pub const REPLY_BUFSIZE: u16 = 4096;

/// EDNS options of a successful reply: the local address as name server
/// identifier when the query asked for one, then, when the query carries a
/// client cookie, that cookie followed by the server cookie under `key`.
pub open spec fn reply_edns(msg: &DnsMessage, key: Seq<u8>) -> Seq<(u16, Seq<u8>)> {
    let q = edns_view(msg.in_query.edns);
    (if edns_opt(q, EDNS_NSID) is Some {
        seq![(EDNS_NSID, ip_text(msg.local_ip))]
    } else {
        Seq::empty()
    }) + match cookie_of(q) {
        Some((client, _)) => seq![(EDNS_COOKIE, client + server_cookie(msg, client, key))],
        None => Seq::empty(),
    }
}

/// EDNS version of a reply: zero when the query had EDNS.
pub open spec fn reply_edns_ver(v: Option<u8>) -> Option<u8> {
    match v {
        Some(_) => Some(0u8),
        None => None,
    }
}

/// A successful reply to `msg` carrying the upstream answer `outr`.
pub open spec fn in_reply(msg: &DnsMessage, outr: &DNSPkt, key: Seq<u8>) -> PktView {
    PktView {
        qid: msg.in_query.qid,
        rd: false,
        tc: outr.tc,
        aa: outr.aa,
        qr: true,
        opcode: OPCODE_QUERY,
        cd: outr.cd,
        ad: outr.ad,
        ra: outr.ra,
        rcode: outr.rcode,
        bufsize: REPLY_BUFSIZE,
        edns_ver: reply_edns_ver(msg.in_query.edns_ver),
        edns_do: false,
        question: questions_view(msg.in_query.question@),
        answer: rrs_view(outr.answer@),
        nameserver: rrs_view(outr.answer@),
        additional: rrs_view(outr.additional@),
        edns: Some(reply_edns(msg, key)),
    }
}

/// Builds the reply to `msg` from the upstream answer `outr`. The question,
/// identifier and EDNS version come from the query; the flags, response
/// code and sections from the answer, with its answer section also standing
/// as the authority section; EDNS options as `reply_edns` says.
pub fn create_in_reply(msg: &DnsMessage, outr: &DNSPkt, key: &[u8]) -> (r: DNSPkt)
    ensures
        pkt_view(&r) == in_reply(msg, outr, key@),
{
    let mut opts: Vec<EdnsOption> = Vec::new();
    let wants_nsid = match &msg.in_query.edns {
        Some(e) => find_edns_opt(e, EDNS_NSID).is_some(),
        None => false,
    };
    if wants_nsid {
        opts.push(EdnsOption { code: EDNS_NSID, data: ip_to_text(&msg.local_ip) });
    }
    assert(edns_opts_view(opts@) =~= (if edns_opt(edns_view(msg.in_query.edns), EDNS_NSID) is Some {
        seq![(EDNS_NSID, ip_text(msg.local_ip))]
    } else {
        Seq::empty()
    }));
    match get_cookie(&msg.in_query.edns) {
        Some((client, _)) => {
            let server = msg.calculate_cookie(client.as_slice(), key);
            let mut data = client;
            push_bytes(&mut data, server.as_slice(), 0, 32);
            assert(server@.subrange(0, 32) =~= server@);
            let ghost before = opts@;
            opts.push(EdnsOption { code: EDNS_COOKIE, data });
            assert(edns_opts_view(opts@) =~= edns_opts_view(before).push((EDNS_COOKIE, data@)));
        },
        None => {},
    }
    assert(edns_opts_view(opts@) =~= reply_edns(msg, key@));
    let edns_ver = match msg.in_query.edns_ver {
        Some(_) => Some(0u8),
        None => None,
    };
    DNSPkt {
        qid: msg.in_query.qid,
        rd: false,
        tc: outr.tc,
        aa: outr.aa,
        qr: true,
        opcode: OPCODE_QUERY,
        cd: outr.cd,
        ad: outr.ad,
        ra: outr.ra,
        rcode: outr.rcode,
        bufsize: REPLY_BUFSIZE,
        edns_ver,
        edns_do: false,
        question: copy_questions(&msg.in_query.question),
        answer: copy_rrs(&outr.answer),
        nameserver: copy_rrs(&outr.answer),
        additional: copy_rrs(&outr.additional),
        edns: Some(EdnsData { options: opts }),
    }
}

/// Response code, extended error code and extended error text of an error
/// reply.
pub open spec fn error_reply(err: &ReplyError) -> (u16, u16, Seq<u8>) {
    match err {
        ReplyError::RefusedByAcl(why) => (REFUSED, EDE_PROHIBITED, encode_utf8(why@)),
        ReplyError::Denied(why) => (REFUSED, EDE_PROHIBITED, encode_utf8(why@)),
        ReplyError::NotAuthoritative => (
            REFUSED,
            EDE_NOT_AUTHORITATIVE,
            encode_utf8("Not Authoritative"@),
        ),
        ReplyError::OutReply(e) => match e {
            OutReplyError::Timeout => (
                SERVFAIL,
                EDE_NO_REACHABLE_AUTHORITY,
                encode_utf8("Timed out talking to upstream server"@),
            ),
            OutReplyError::FailedToSend(m) => (SERVFAIL, EDE_NETWORK_ERROR, encode_utf8(m@)),
            OutReplyError::FailedToSendMsg(m) => (SERVFAIL, EDE_NETWORK_ERROR, encode_utf8(m@)),
            OutReplyError::FailedToRecv(m) => (SERVFAIL, EDE_NETWORK_ERROR, encode_utf8(m@)),
            OutReplyError::FailedToRecvMsg(m) => (SERVFAIL, EDE_NETWORK_ERROR, encode_utf8(m@)),
            OutReplyError::TcpConnectionError(m) => (SERVFAIL, EDE_NETWORK_ERROR, encode_utf8(m@)),
            OutReplyError::ParseError(m) => (SERVFAIL, EDE_NETWORK_ERROR, encode_utf8(m@)),
            OutReplyError::InternalError(_) => (
                SERVFAIL,
                EDE_OTHER,
                encode_utf8("Internal Error"@),
            ),
        },
    }
}

/// An error reply to `msg`.
pub open spec fn in_error(msg: &DnsMessage, err: &ReplyError) -> PktView {
    let (rcode, code, text) = error_reply(err);
    PktView {
        qid: msg.in_query.qid,
        rd: false,
        tc: false,
        aa: false,
        qr: true,
        opcode: OPCODE_QUERY,
        cd: false,
        ad: false,
        ra: true,
        rcode,
        bufsize: REPLY_BUFSIZE,
        edns_ver: reply_edns_ver(msg.in_query.edns_ver),
        edns_do: false,
        question: questions_view(msg.in_query.question@),
        answer: Seq::empty(),
        nameserver: Seq::empty(),
        additional: Seq::empty(),
        edns: Some(seq![(EDNS_EDE, be16(code) + text)]),
    }
}

fn error_parts(err: &ReplyError) -> (r: (u16, u16, Vec<u8>))
    ensures
        r.0 == error_reply(err).0,
        r.1 == error_reply(err).1,
        r.2@ == error_reply(err).2,
{
    match err {
        ReplyError::RefusedByAcl(why) => (REFUSED, EDE_PROHIBITED, why.as_str().as_bytes_vec()),
        ReplyError::Denied(why) => (REFUSED, EDE_PROHIBITED, why.as_str().as_bytes_vec()),
        ReplyError::NotAuthoritative => (
            REFUSED,
            EDE_NOT_AUTHORITATIVE,
            "Not Authoritative".as_bytes_vec(),
        ),
        ReplyError::OutReply(e) => match e {
            OutReplyError::Timeout => (
                SERVFAIL,
                EDE_NO_REACHABLE_AUTHORITY,
                "Timed out talking to upstream server".as_bytes_vec(),
            ),
            OutReplyError::FailedToSend(m) => (SERVFAIL, EDE_NETWORK_ERROR, m.as_str().as_bytes_vec()),
            OutReplyError::FailedToSendMsg(m) => (
                SERVFAIL,
                EDE_NETWORK_ERROR,
                m.as_str().as_bytes_vec(),
            ),
            OutReplyError::FailedToRecv(m) => (SERVFAIL, EDE_NETWORK_ERROR, m.as_str().as_bytes_vec()),
            OutReplyError::FailedToRecvMsg(m) => (
                SERVFAIL,
                EDE_NETWORK_ERROR,
                m.as_str().as_bytes_vec(),
            ),
            OutReplyError::TcpConnectionError(m) => (
                SERVFAIL,
                EDE_NETWORK_ERROR,
                m.as_str().as_bytes_vec(),
            ),
            OutReplyError::ParseError(m) => (SERVFAIL, EDE_NETWORK_ERROR, m.as_str().as_bytes_vec()),
            OutReplyError::InternalError(_) => (SERVFAIL, EDE_OTHER, "Internal Error".as_bytes_vec()),
        },
    }
}

/// Builds the error reply to `msg`: REFUSED or SERVFAIL with an extended
/// DNS error, as `error_reply` lays out, the question echoed and no records.
pub fn create_in_error(msg: &DnsMessage, err: &ReplyError) -> (r: DNSPkt)
    ensures
        pkt_view(&r) == in_error(msg, err),
{
    let (rcode, code, text) = error_parts(err);
    let mut data: Vec<u8> = Vec::new();
    push_be16(&mut data, code);
    push_bytes(&mut data, text.as_slice(), 0, text.len());
    assert(text@.subrange(0, text@.len() as int) =~= text@);
    let mut opts: Vec<EdnsOption> = Vec::new();
    opts.push(EdnsOption { code: EDNS_EDE, data });
    assert(edns_opts_view(opts@) =~= seq![(EDNS_EDE, be16(code) + text@)]);
    let edns_ver = match msg.in_query.edns_ver {
        Some(_) => Some(0u8),
        None => None,
    };
    let r = DNSPkt {
        qid: msg.in_query.qid,
        rd: false,
        tc: false,
        aa: false,
        qr: true,
        opcode: OPCODE_QUERY,
        cd: false,
        ad: false,
        ra: true,
        rcode,
        bufsize: REPLY_BUFSIZE,
        edns_ver,
        edns_do: false,
        question: copy_questions(&msg.in_query.question),
        answer: Vec::new(),
        nameserver: Vec::new(),
        additional: Vec::new(),
        edns: Some(EdnsData { options: opts }),
    };
    assert(rrs_view(r.answer@) =~= Seq::<(Seq<Seq<u8>>, u16, u16, u32, Seq<u8>)>::empty());
    r
}

/// The reply owed to `msg`: built from the upstream answer, or an error
/// reply when the query failed.
pub fn recv_in_query(msg: &DnsMessage, outcome: &Result<DNSPkt, ReplyError>, key: &[u8]) -> (r: DNSPkt)
    ensures
        outcome matches Ok(outr) ==> pkt_view(&r) == in_reply(msg, &outr, key@),
        outcome matches Err(e) ==> pkt_view(&r) == in_error(msg, &e),
{
    match outcome {
        Ok(outr) => create_in_reply(msg, outr, key),
        Err(e) => create_in_error(msg, e),
    }
}

/// Parses a received query into a message; `ParseError` when it does not
/// decode.
pub fn build_dns_message(
    pkt: &[u8],
    local_ip: IpAddr,
    remote_addr: SocketAddr,
    protocol: Protocol,
) -> (r: Result<DnsMessage, Error>)
    ensures
        r is Ok <==> dec_pkt(pkt@) is Some,
        r matches Ok(m) ==> {
            &&& dec_pkt(pkt@) == Some(pkt_view(&m.in_query))
            &&& m.in_size == pkt@.len()
            &&& m.local_ip == local_ip
            &&& m.remote_addr == remote_addr
            &&& m.protocol == protocol
        },
        r matches Err(e) ==> e is ParseError,
{
    match parse_pkt(pkt) {
        Some(in_query) => Ok(DnsMessage { in_query, in_size: pkt.len(), local_ip, remote_addr, protocol }),
        None => Err(Error::ParseError(String::from_str("malformed DNS message"))),
    }
}

/// Whether an answer to `msg` must be held back: only REFUSED replies are
/// limited, never when the query's cookie is good under either key; the
/// others are charged `reply_cost` to the client's address.
pub fn should_ratelimit(
    msg: &DnsMessage,
    reply_rcode: u16,
    reply_len: usize,
    keys: &CookieKeys,
    limiter: &mut IpRateLimiter,
    now: u64,
) -> (r: bool)
    requires
        old(limiter).wf(),
        reply_len <= 0x7fff_ffff,
    ensures
        final(limiter).wf(),
        reply_rcode != REFUSED || cookie_status(msg, keys.current@, keys.previous@)
            == CookieStatus::Good ==> !r && final(limiter).view_buckets() == old(
            limiter,
        ).view_buckets(),
        reply_rcode == REFUSED && cookie_status(msg, keys.current@, keys.previous@)
            != CookieStatus::Good ==> exists|h1: usize, h2: usize|
            (final(limiter).view_buckets(), !r) == #[trigger] limiter_step(
                old(limiter).view_buckets(),
                h1,
                h2,
                reply_cost(msg.in_size as int, reply_len as int) as u64,
                now,
            ),
{
    if reply_rcode != REFUSED {
        return false;
    }
    if keys.validate(msg) == CookieStatus::Good {
        return false;
    }
    let cost = cost_of(msg.in_size, reply_len);
    let ghost before = limiter.view_buckets();
    let granted = limiter.check(&msg.remote_addr.ip, cost, now);
    proof {
        let (h1, h2) = choose|h1: usize, h2: usize|
            (limiter.view_buckets(), granted) == limiter_step(before, h1, h2, cost, now);
        assert(reply_cost(msg.in_size as int, reply_len as int) as u64 == cost);
        assert((limiter.view_buckets(), !!granted) == limiter_step(before, h1, h2, cost, now));
    }
    !granted
}

fn copy_edns(e: &Option<EdnsData>) -> (r: Option<EdnsData>)
    ensures
        edns_view(r) == edns_view(*e),
{
    match e {
        None => None,
        Some(d) => {
            let mut out: Vec<EdnsOption> = Vec::new();
            let mut i: usize = 0;
            while i < d.options.len()
                invariant
                    i <= d.options@.len(),
                    edns_opts_view(out@) =~= edns_opts_view(d.options@.take(i as int)),
                decreases d.options@.len() - i,
            {
                let o = &d.options[i];
                let ghost before = out@;
                out.push(EdnsOption { code: o.code, data: copy_bytes(&o.data) });
                assert(edns_opts_view(out@) =~= edns_opts_view(before).push((o.code, o.data@)));
                assert(d.options@.take(i + 1) =~= d.options@.take(i as int).push(*o));
                i = i + 1;
            }
            assert(d.options@.take(d.options@.len() as int) =~= d.options@);
            Some(EdnsData { options: out })
        },
    }
}

/// Smallest size a reply may always be sent in.
pub const MIN_REPLY_SIZE: usize = 512;

/// The message with TC set and its answer, authority and additional
/// sections dropped.
pub open spec fn truncated(v: PktView) -> PktView {
    PktView { tc: true, answer: Seq::empty(), nameserver: Seq::empty(), additional: Seq::empty(), ..v }
}

/// Encodes a reply for a client that takes `size` octets (at least 512): the
/// whole message when it fits, else the truncated message.
pub fn prepare_to_send(pkt: &DNSPkt, size: usize) -> (r: Vec<u8>)
    ensures
        enc_pkt(pkt).len() <= (if size > MIN_REPLY_SIZE { size } else { MIN_REPLY_SIZE }) ==> r@
            == enc_pkt(pkt),
        enc_pkt(pkt).len() > (if size > MIN_REPLY_SIZE { size } else { MIN_REPLY_SIZE })
            ==> exists|t: DNSPkt| pkt_view(&t) == truncated(pkt_view(pkt)) && r@ == enc_pkt(&t),
{
    let size = if size > MIN_REPLY_SIZE {
        size
    } else {
        MIN_REPLY_SIZE
    };
    let full = pkt.serialise();
    if full.len() <= size {
        return full;
    }
    let t = DNSPkt {
        qid: pkt.qid,
        rd: pkt.rd,
        tc: true,
        aa: pkt.aa,
        qr: pkt.qr,
        opcode: pkt.opcode,
        cd: pkt.cd,
        ad: pkt.ad,
        ra: pkt.ra,
        rcode: pkt.rcode,
        bufsize: pkt.bufsize,
        edns_ver: pkt.edns_ver,
        edns_do: pkt.edns_do,
        question: copy_questions(&pkt.question),
        answer: Vec::new(),
        nameserver: Vec::new(),
        additional: Vec::new(),
        edns: copy_edns(&pkt.edns),
    };
    assert(rrs_view(t.answer@) =~= Seq::<(Seq<Seq<u8>>, u16, u16, u32, Seq<u8>)>::empty());
    assert(pkt_view(&t) == truncated(pkt_view(pkt)));
    t.serialise()
}

/// Largest message a TCP length prefix can announce.
pub const MAX_TCP_MESSAGE: usize = 65535;

/// A message framed for TCP: its length in two octets, then the message;
/// `None` when it is longer than the prefix can say.
pub fn frame_tcp(msg: &Vec<u8>) -> (r: Option<Vec<u8>>)
    ensures
        r is None <==> msg@.len() > MAX_TCP_MESSAGE,
        r matches Some(f) ==> f@ == be16(msg@.len() as u16) + msg@,
{
    if msg.len() > MAX_TCP_MESSAGE {
        return None;
    }
    let mut out: Vec<u8> = Vec::new();
    push_be16(&mut out, msg.len() as u16);
    push_bytes(&mut out, msg.as_slice(), 0, msg.len());
    assert(msg@.subrange(0, msg@.len() as int) =~= msg@);
    Some(out)
}

/// The length a TCP query announces in its two-octet prefix.
pub fn tcp_message_length(prefix: [u8; 2]) -> (r: usize)
    ensures
        r == prefix@[0] as int * 256 + prefix@[1] as int,
{
    prefix[0] as usize * 256 + prefix[1] as usize
}

} // verus!
