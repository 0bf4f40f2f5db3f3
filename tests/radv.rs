use erbium_core::addr::{Ip4Addr, Ip6Addr, IpAddr};
use erbium_core::config::{Config, ConfigValue, Interface, Pref64, Prefix};
use erbium_core::icmppkt::{self, Icmp6, NDOptionValue};
use erbium_core::radv::{
    self, Error, HostInterface, LinkLayer, ADV_DEFAULT_LIFETIME, DEFAULT_MAX_RTR_ADV_INTERVAL,
    DEFAULT_MIN_RTR_ADV_INTERVAL,
};

fn v6(g: [u16; 8]) -> Ip6Addr {
    let mut octets = [0u8; 16];
    for i in 0..8 {
        octets[2 * i] = (g[i] >> 8) as u8;
        octets[2 * i + 1] = (g[i] & 0xff) as u8;
    }
    Ip6Addr { octets }
}

fn v4(a: u8, b: u8, c: u8, d: u8) -> IpAddr {
    IpAddr::V4(Ip4Addr { octets: [a, b, c, d] })
}

fn unspecified() -> Ip6Addr {
    v6([0; 8])
}

fn servers_of(o: &NDOptionValue) -> Vec<[u8; 16]> {
    if let NDOptionValue::RecursiveDnsServers(_, servers) = o {
        servers.iter().map(|a| a.octets).collect()
    } else {
        panic!("bad")
    }
}

fn domains_of(o: &NDOptionValue) -> Vec<Vec<u8>> {
    if let NDOptionValue::DnsSearchList(_, domains) = o {
        domains.clone()
    } else {
        panic!("bad")
    }
}

fn portal_of(o: &NDOptionValue) -> Vec<u8> {
    if let NDOptionValue::CaptivePortal(url) = o {
        url.clone()
    } else {
        panic!("bad")
    }
}

fn globals() -> Config {
    Config {
        dns_servers: vec![v4(192, 0, 2, 53), IpAddr::V6(v6([0x2001, 0xdb8, 0, 0, 0, 0, 0, 0x53]))],
        dns_search: vec!["example.com".into()],
        captive_portal: Some("example.com".into()),
        ..Default::default()
    }
}

#[test]
fn test_build_announcement() {
    let conf = Config::default();
    let msg = radv::build_announcement_pure(
        &conf,
        &Interface {
            name: "eth0".into(),
            hoplimit: 64,
            managed: false,
            other: false,
            lifetime: ConfigValue::Value(3600),
            reachable: 1_800_000,
            retrans: 10_000,
            mtu: ConfigValue::NotSpecified,
            min_rtr_adv_interval: ConfigValue::Value(200),
            max_rtr_adv_interval: ConfigValue::Value(600),
            prefixes: vec![Prefix {
                addr: v6([0x2001, 0xdb8, 0, 0, 0, 0, 0, 0]),
                prefixlen: 64,
                onlink: true,
                autonomous: true,
                valid: 3600,
                preferred: 1800,
            }],
            rdnss_lifetime: ConfigValue::Value(3600),
            rdnss: ConfigValue::Value(vec![v6([0x2001, 0xdb8, 0, 0, 0, 0, 0, 0x53])]),
            dnssl_lifetime: ConfigValue::Value(3600),
            dnssl: ConfigValue::Value(vec![]),
            captive_portal: ConfigValue::Value("http://example.com/".into()),
            pref64: Some(Pref64 {
                lifetime: 600,
                prefix: v6([0x64, 0xff9b, 0, 0, 0, 0, 0, 0]),
                prefixlen: 96,
            }),
        },
        Some([1, 2, 3, 4, 5, 6]),
        Some(1480),
        unspecified(),
        ADV_DEFAULT_LIFETIME,
    );
    assert_eq!(msg.lifetime, 3600);
    assert_eq!(msg.options.options.len(), 7);
    let bytes = icmppkt::serialise(&Icmp6::RtrAdvert(msg)).unwrap();
    assert_eq!(bytes[0], 134);
    assert_eq!(&bytes[4..8], &[64, 0, 0x0e, 0x10]);
}

#[test]
fn test_default_values() {
    let conf = globals();
    let msg = radv::build_announcement_pure(
        &conf,
        &Interface {
            dnssl: ConfigValue::NotSpecified,
            rdnss: ConfigValue::NotSpecified,
            captive_portal: ConfigValue::NotSpecified,
            ..Default::default()
        },
        Some([1, 2, 3, 4, 5, 6]),
        Some(1480),
        unspecified(),
        ADV_DEFAULT_LIFETIME,
    );
    assert_eq!(
        msg.options.find_option(icmppkt::RDNSS).iter().map(servers_of).collect::<Vec<_>>(),
        vec![vec![v6([0x2001, 0xdb8, 0, 0, 0, 0, 0, 0x53]).octets]]
    );
    assert_eq!(
        msg.options.find_option(icmppkt::DNSSL).iter().map(domains_of).collect::<Vec<_>>(),
        vec![vec![b"example.com".to_vec()]]
    );
    assert_eq!(
        msg.options.find_option(icmppkt::CAPTIVE_PORTAL).iter().map(portal_of).collect::<Vec<_>>(),
        vec![b"example.com".to_vec()]
    );
}

#[test]
fn test_dontset_values() {
    let conf = globals();
    let msg = radv::build_announcement_pure(
        &conf,
        &Interface {
            dnssl: ConfigValue::DontSet,
            rdnss: ConfigValue::DontSet,
            captive_portal: ConfigValue::DontSet,
            ..Default::default()
        },
        Some([1, 2, 3, 4, 5, 6]),
        Some(1480),
        unspecified(),
        ADV_DEFAULT_LIFETIME,
    );
    assert!(msg.options.find_option(icmppkt::RDNSS).is_empty());
    assert!(msg.options.find_option(icmppkt::DNSSL).is_empty());
    assert!(msg.options.find_option(icmppkt::CAPTIVE_PORTAL).is_empty());
}

#[test]
fn unsolicited_one_prefix_interface() {
    let conf = Config::default();
    let intf = Interface {
        name: "eth0".into(),
        lifetime: ConfigValue::Value(3600),
        prefixes: vec![Prefix {
            addr: v6([0x2001, 0xdb8, 0, 0, 0, 0, 0, 0]),
            prefixlen: 64,
            onlink: true,
            autonomous: true,
            valid: 2592000,
            preferred: 604800,
        }],
        rdnss_lifetime: ConfigValue::Value(3600),
        rdnss: ConfigValue::Value(vec![v6([0x2001, 0xdb8, 0, 0, 0, 0, 0, 0x53])]),
        dnssl_lifetime: ConfigValue::Value(3600),
        dnssl: ConfigValue::Value(vec!["example.com".into()]),
        ..Default::default()
    };
    let msg = radv::build_announcement_pure(
        &conf,
        &intf,
        Some([2, 0, 0, 0, 0, 1]),
        Some(1500),
        v6([0xfe80, 0, 0, 0, 0, 0, 0, 1]),
        0,
    );
    let types: Vec<u8> = msg
        .options
        .options
        .iter()
        .map(|o| match o {
            NDOptionValue::SourceLLAddr(_) => icmppkt::SOURCE_LL_ADDR,
            NDOptionValue::Mtu(_) => icmppkt::MTU,
            NDOptionValue::Prefix(_) => icmppkt::PREFIX_INFO,
            NDOptionValue::RecursiveDnsServers(..) => icmppkt::RDNSS,
            NDOptionValue::DnsSearchList(..) => icmppkt::DNSSL,
            NDOptionValue::Pref64(..) => icmppkt::PREF64,
            NDOptionValue::CaptivePortal(_) => icmppkt::CAPTIVE_PORTAL,
        })
        .collect();
    assert_eq!(types, vec![1, 5, 3, 25, 31]);
    match &msg.options.options[3] {
        NDOptionValue::RecursiveDnsServers(lt, s) => {
            assert_eq!(*lt, 3600);
            assert_eq!(s[0].octets, v6([0x2001, 0xdb8, 0, 0, 0, 0, 0, 0x53]).octets);
        }
        _ => panic!("expected servers"),
    }
    match &msg.options.options[4] {
        NDOptionValue::DnsSearchList(lt, d) => {
            assert_eq!(*lt, 3600);
            assert_eq!(d, &vec![b"example.com".to_vec()]);
        }
        _ => panic!("expected search list"),
    }
    assert_eq!(msg.lifetime, 3600);
}

#[test]
fn unspecified_server_stands_for_advertising_address() {
    let conf = Config {
        dns_servers: vec![IpAddr::V6(unspecified()), v4(10, 0, 0, 1)],
        ..Default::default()
    };
    let self6 = v6([0xfd00, 0, 0, 0, 0, 0, 0, 1]);
    let got = radv::fallback_dns_servers(&conf.dns_servers, &self6);
    assert_eq!(got.len(), 1);
    assert_eq!(got[0].octets, self6.octets);
}

#[test]
fn not_specified_without_globals_emits_nothing() {
    let conf = Config::default();
    let msg = radv::build_announcement_pure(
        &conf,
        &Interface::default(),
        None,
        None,
        unspecified(),
        0,
    );
    assert!(msg.options.options.is_empty());
}

#[test]
fn router_lifetime_choices() {
    assert_eq!(radv::router_lifetime(&ConfigValue::NotSpecified, Some(Some(2)), 1), 1800);
    assert_eq!(radv::router_lifetime(&ConfigValue::NotSpecified, Some(Some(1)), 1), 0);
    assert_eq!(radv::router_lifetime(&ConfigValue::NotSpecified, Some(None), 1), 1800);
    assert_eq!(radv::router_lifetime(&ConfigValue::NotSpecified, None, 1), 0);
    assert_eq!(radv::router_lifetime(&ConfigValue::Value(42), None, 1), 42);
    assert_eq!(radv::router_lifetime(&ConfigValue::DontSet, Some(Some(2)), 1), 0);
}

#[test]
fn mtu_choices() {
    assert_eq!(radv::advertised_mtu(&ConfigValue::NotSpecified, Some(1500)), Some(1500));
    assert_eq!(radv::advertised_mtu(&ConfigValue::Value(1280), Some(1500)), Some(1280));
    assert_eq!(radv::advertised_mtu(&ConfigValue::DontSet, Some(1500)), None);
}

#[test]
fn ethernet_only_link_address() {
    assert_eq!(radv::ethernet_address(&Some(LinkLayer::Ethernet([1, 2, 3, 4, 5, 6]))), Some([1, 2, 3, 4, 5, 6]));
    assert_eq!(radv::ethernet_address(&Some(LinkLayer::Unknown)), None);
    assert_eq!(radv::ethernet_address(&None), None);
}

fn host(name: &str, prefixes: Vec<(IpAddr, u8)>) -> HostInterface {
    HostInterface {
        ifidx: 3,
        name: name.into(),
        multicast: true,
        mtu: Some(1500),
        linkaddr: Some(LinkLayer::Ethernet([2, 0, 0, 0, 0, 3])),
        prefixes,
    }
}

#[test]
fn unconfigured_interface_is_reported() {
    let conf = Config::default();
    let h = host("eth9", vec![(IpAddr::V6(v6([0xfe80, 0, 0, 0, 0, 0, 0, 1])), 64)]);
    match radv::build_announcement_by_ifidx(&conf, &h, None) {
        Err(Error::UnconfiguredInterface(n)) => assert_eq!(n, "eth9"),
        _ => panic!("expected an unconfigured interface"),
    }
}

#[test]
fn host_prefixes_in_global_list_are_advertised() {
    let global = IpAddr::V6(v6([0x2001, 0xdb8, 1, 0, 0, 0, 0, 0]));
    let conf = Config { addresses: vec![(global, 64)], ..Default::default() };
    let h = host(
        "eth1",
        vec![
            (IpAddr::V6(v6([0xfe80, 0, 0, 0, 0, 0, 0, 1])), 64),
            (global, 64),
            (v4(192, 0, 2, 1), 24),
        ],
    );
    let ra = match radv::build_announcement_by_ifidx(&conf, &h, Some(Some(1))) {
        Ok(ra) => ra,
        Err(_) => panic!("expected an advertisement"),
    };
    assert_eq!(ra.lifetime, 1800);
    let prefixes = ra.options.find_option(icmppkt::PREFIX_INFO);
    assert_eq!(prefixes.len(), 1);
    match &prefixes[0] {
        NDOptionValue::Prefix(p) => {
            assert_eq!(p.prefix.octets, v6([0x2001, 0xdb8, 1, 0, 0, 0, 0, 0]).octets);
            assert!(p.onlink && p.autonomous);
            assert_eq!((p.valid, p.preferred), (2592000, 604800));
        }
        _ => panic!("expected a prefix"),
    }
}

#[test]
fn configured_interface_without_address() {
    let conf = Config {
        ra: erbium_core::config::RaConfig {
            interfaces: vec![Interface { name: "eth2".into(), ..Default::default() }],
        },
        ..Default::default()
    };
    let h = host("eth2", vec![(v4(192, 0, 2, 1), 24)]);
    match radv::build_announcement_by_ifidx(&conf, &h, None) {
        Err(Error::NoIpv6Address(n)) => assert_eq!(n, "eth2"),
        _ => panic!("expected no IPv6 address"),
    }
}

#[test]
fn configured_interface_uses_its_block() {
    let conf = Config {
        ra: erbium_core::config::RaConfig {
            interfaces: vec![Interface { name: "eth2".into(), hoplimit: 17, ..Default::default() }],
        },
        ..Default::default()
    };
    let h = host("eth2", vec![(IpAddr::V6(v6([0xfe80, 0, 0, 0, 0, 0, 0, 9])), 64)]);
    let ra = match radv::build_announcement_by_ifidx(&conf, &h, None) {
        Ok(ra) => ra,
        Err(_) => panic!("expected an advertisement"),
    };
    assert_eq!(ra.hop_limit, 17);
    assert_eq!(ra.lifetime, 0);
}

#[test]
fn unsolicited_goes_to_multicast_interfaces() {
    let mut a = host("a", vec![]);
    a.ifidx = 1;
    let mut b = host("b", vec![]);
    b.ifidx = 2;
    b.multicast = false;
    let mut c = host("c", vec![]);
    c.ifidx = 3;
    assert_eq!(radv::unsolicited_interfaces(&vec![a, b, c]), vec![1, 3]);
    let d = radv::unsolicited_destination(7);
    assert_eq!(d.scope_id, 7);
    assert_eq!(d.port, 58);
    match d.ip {
        IpAddr::V6(x) => assert_eq!(x.octets, v6([0xff02, 0, 0, 0, 0, 0, 0, 1]).octets),
        _ => panic!("expected IPv6"),
    }
}

#[test]
fn solicitation_reply_destination() {
    assert!(matches!(radv::solicit_reply_destination(None, None), Err(Error::MissingInterface)));
    match radv::solicit_reply_destination(Some(4), None) {
        Ok((i, d)) => {
            assert_eq!(i, 4);
            assert_eq!((d.port, d.scope_id), (58, 4));
            match d.ip {
                IpAddr::V6(x) => assert_eq!(x.octets, v6([0xff02, 0, 0, 0, 0, 0, 0, 1]).octets),
                _ => panic!("expected IPv6"),
            }
        }
        Err(_) => panic!("expected the all-nodes fallback"),
    }
    let src = erbium_core::addr::SocketAddr { ip: IpAddr::V6(v6([0xfe80, 0, 0, 0, 0, 0, 0, 5])), port: 0, scope_id: 4 };
    match radv::solicit_reply_destination(Some(4), Some(src)) {
        Ok((i, d)) => {
            assert_eq!(i, 4);
            assert_eq!(d.scope_id, 4);
        }
        Err(_) => panic!("expected a destination"),
    }
}

#[test]
fn unsolicited_delay_in_range() {
    for _ in 0..100 {
        let d = radv::next_unsolicited_delay();
        assert!(d >= DEFAULT_MIN_RTR_ADV_INTERVAL && d < DEFAULT_MAX_RTR_ADV_INTERVAL);
    }
}
