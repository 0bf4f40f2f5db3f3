use erbium_core::addr::Ip6Addr;
use erbium_core::icmppkt::{
    self, AdvPrefix, Icmp6, NDOptionValue, NDOptions, ParseError, ParsedOption, RtrAdvertisement,
};

fn v6(g: [u16; 8]) -> Ip6Addr {
    let mut octets = [0u8; 16];
    for i in 0..8 {
        octets[2 * i] = (g[i] >> 8) as u8;
        octets[2 * i + 1] = (g[i] & 0xff) as u8;
    }
    Ip6Addr { octets }
}

fn encode(o: &NDOptionValue) -> Vec<u8> {
    let mut out = Vec::new();
    assert!(icmppkt::write_option(&mut out, o));
    out
}

fn decode(b: &[u8]) -> NDOptionValue {
    match icmppkt::parse_option(b, 0, b.len()) {
        ParsedOption::Known(o) => o,
        _ => panic!("expected a known option"),
    }
}

fn same(a: &NDOptionValue, b: &NDOptionValue) -> bool {
    format!("{:?}", a) == format!("{:?}", b)
}

fn all_options() -> Vec<NDOptionValue> {
    vec![
        NDOptionValue::SourceLLAddr(vec![1, 2, 3, 4, 5, 6]),
        NDOptionValue::Mtu(1480),
        NDOptionValue::Prefix(AdvPrefix {
            prefixlen: 64,
            onlink: true,
            autonomous: false,
            valid: 2592000,
            preferred: 604800,
            prefix: v6([0x2001, 0xdb8, 0, 0, 0, 0, 0, 0]),
        }),
        NDOptionValue::RecursiveDnsServers(
            3600,
            vec![v6([0x2001, 0xdb8, 0, 0, 0, 0, 0, 0x53]), v6([0xfd00, 0, 0, 0, 0, 0, 0, 1])],
        ),
        NDOptionValue::DnsSearchList(1800, vec![b"example.com".to_vec(), b"a.b.example".to_vec()]),
        NDOptionValue::Pref64(600, 96, v6([0x64, 0xff9b, 0, 0, 0, 0, 0, 0])),
        NDOptionValue::Pref64(1200, 48, v6([0x2001, 0xdb8, 0x100, 0, 0, 0, 0, 0])),
        NDOptionValue::CaptivePortal(b"http://example.com/".to_vec()),
    ]
}

#[test]
fn every_option_round_trips() {
    for o in all_options() {
        let b = encode(&o);
        assert_eq!(b.len() % 8, 0);
        assert_eq!(b[1] as usize * 8, b.len());
        assert!(same(&decode(&b), &o), "{:?}", o);
    }
}

#[test]
fn mtu_option_bytes() {
    assert_eq!(encode(&NDOptionValue::Mtu(1480)), vec![5, 1, 0, 0, 0, 0, 0x05, 0xc8]);
}

#[test]
fn pref64_plc_codes() {
    let b = encode(&NDOptionValue::Pref64(600, 96, v6([0x64, 0xff9b, 0, 0, 0, 0, 0, 0])));
    assert_eq!(&b[..4], &[38, 2, 0x02, 0x58]);
    let b = encode(&NDOptionValue::Pref64(600, 32, v6([0x64, 0xff9b, 0, 0, 0, 0, 0, 0])));
    assert_eq!(&b[2..4], &[0x02, 0x5d]);
}

#[test]
fn search_list_wire_form() {
    let b = encode(&NDOptionValue::DnsSearchList(3600, vec![b"example.com".to_vec()]));
    let mut want = vec![31, 3, 0, 0, 0, 0, 0x0e, 0x10, 7];
    want.extend_from_slice(b"example");
    want.push(3);
    want.extend_from_slice(b"com");
    want.push(0);
    want.extend_from_slice(&[0, 0, 0]);
    assert_eq!(b, want);
}

#[test]
fn captive_portal_padding() {
    let b = encode(&NDOptionValue::CaptivePortal(b"http://example.com/".to_vec()));
    assert_eq!(b.len(), 24);
    assert_eq!(b[1], 3);
    assert_eq!(&b[21..], &[0, 0, 0]);
}

#[test]
fn too_long_option_is_refused() {
    let mut out = vec![9u8];
    assert!(!icmppkt::write_option(&mut out, &NDOptionValue::SourceLLAddr(vec![0; 3000])));
    assert_eq!(out, vec![9u8]);
}

#[test]
fn advertisement_round_trips() {
    let mut options = NDOptions::new();
    for o in all_options() {
        options.add_option(o);
    }
    let ra = RtrAdvertisement {
        hop_limit: 64,
        flag_managed: true,
        flag_other: false,
        lifetime: 1800,
        reachable: 30000,
        retrans: 1000,
        options,
    };
    let msg = Icmp6::RtrAdvert(ra);
    let b = icmppkt::serialise(&msg).unwrap();
    let back = icmppkt::parse(&b).unwrap();
    assert_eq!(format!("{:?}", back), format!("{:?}", msg));
}

#[test]
fn solicitation_with_unknown_option() {
    let b = vec![133, 0, 0, 0, 0, 0, 0, 0, 99, 1, 0, 0, 0, 0, 0, 0, 1, 1, 2, 0, 0, 0, 0, 1];
    match icmppkt::parse(&b) {
        Ok(Icmp6::RtrSolicit(opts)) => {
            assert_eq!(opts.options.len(), 1);
            assert!(same(&opts.options[0], &NDOptionValue::SourceLLAddr(vec![2, 0, 0, 0, 0, 1])));
        }
        _ => panic!("expected a solicitation"),
    }
}

#[test]
fn zero_length_option_is_an_error() {
    let b = vec![133, 0, 0, 0, 0, 0, 0, 0, 1, 0, 0, 0, 0, 0, 0, 0];
    assert!(matches!(icmppkt::parse(&b), Err(ParseError::BadOption)));
}

#[test]
fn short_and_unknown_messages() {
    assert!(matches!(icmppkt::parse(&[134, 0]), Err(ParseError::Truncated)));
    assert!(matches!(icmppkt::parse(&[134, 0, 0, 0, 0, 0, 0, 0]), Err(ParseError::Truncated)));
    assert!(matches!(icmppkt::parse(&[128, 0, 0, 0, 1, 2]), Ok(Icmp6::Unknown)));
    assert!(icmppkt::serialise(&Icmp6::Unknown).is_none());
}

#[test]
fn find_option_keeps_order() {
    let mut options = NDOptions::new();
    options.add_option(NDOptionValue::Mtu(1));
    options.add_option(NDOptionValue::CaptivePortal(b"x".to_vec()));
    options.add_option(NDOptionValue::Mtu(2));
    let mtus = options.find_option(icmppkt::MTU);
    assert_eq!(mtus.len(), 2);
    assert!(same(&mtus[0], &NDOptionValue::Mtu(1)));
    assert!(same(&mtus[1], &NDOptionValue::Mtu(2)));
}
