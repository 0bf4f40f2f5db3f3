use erbium_core::addr::{self, Ip4Addr, Ip6Addr, IpAddr, Scope};
use std::cmp::Ordering;

fn v6(g: [u16; 8]) -> Ip6Addr {
    let mut octets = [0u8; 16];
    for i in 0..8 {
        octets[2 * i] = (g[i] >> 8) as u8;
        octets[2 * i + 1] = (g[i] & 0xff) as u8;
    }
    Ip6Addr { octets }
}

fn text(ip: IpAddr) -> String {
    String::from_utf8(addr::ip_to_text(&ip)).unwrap()
}

#[test]
fn scope_classes() {
    assert_eq!(addr::v6_scope(&v6([0xfd00, 0, 0, 0, 0, 0, 0, 1])), Scope::UniqueLocalAddress);
    assert_eq!(addr::v6_scope(&v6([0, 0, 0, 0, 0, 0, 0, 1])), Scope::Loopback);
    assert_eq!(addr::v6_scope(&v6([0; 8])), Scope::Unspecified);
    assert_eq!(addr::v6_scope(&v6([0xfe80, 0, 0, 0, 0, 0, 0, 1])), Scope::Link);
    assert_eq!(addr::v6_scope(&v6([0xfe80, 1, 0, 0, 0, 0, 0, 1])), Scope::Global);
    assert_eq!(addr::v6_scope(&v6([0xff02, 0, 0, 0, 0, 0, 0, 1])), Scope::Multicast);
    assert_eq!(addr::v6_scope(&v6([0x2001, 0xdb8, 0, 0, 0, 0, 0, 1])), Scope::Global);
}

#[test]
fn scope_order() {
    let ula = v6([0xfd00, 0, 0, 0, 0, 0, 0, 1]);
    let global = v6([0x2001, 0xdb8, 0, 0, 0, 0, 0, 1]);
    let link = v6([0xfe80, 0, 0, 0, 0, 0, 0, 1]);
    let multicast = v6([0xff02, 0, 0, 0, 0, 0, 0, 1]);
    assert_eq!(addr::scope_cmp(&ula, &global), Ordering::Greater);
    assert_eq!(addr::scope_cmp(&global, &link), Ordering::Greater);
    assert_eq!(addr::scope_cmp(&link, &multicast), Ordering::Greater);
    let global2 = v6([0x2001, 0xdb8, 0, 0, 0, 0, 0, 2]);
    assert_eq!(addr::scope_cmp(&global, &global2), Ordering::Less);
    assert_eq!(addr::scope_cmp(&global2, &global2), Ordering::Equal);
}

#[test]
fn best_source_ignores_order() {
    let list = vec![
        (IpAddr::V6(v6([0xfe80, 0, 0, 0, 0, 0, 0, 1])), 64u8),
        (IpAddr::V6(v6([0x2001, 0xdb8, 0, 0, 0, 0, 0, 2])), 64),
        (IpAddr::V4(Ip4Addr { octets: [10, 0, 0, 1] }), 8),
        (IpAddr::V6(v6([0x2001, 0xdb8, 0, 0, 0, 0, 0, 1])), 64),
        (IpAddr::V6(v6([0xfd00, 0, 0, 0, 0, 0, 0, 7])), 64),
    ];
    let mut reversed = list.clone();
    reversed.reverse();
    let a = addr::best_source_address(&list).unwrap();
    let b = addr::best_source_address(&reversed).unwrap();
    assert_eq!(a.octets, v6([0xfd00, 0, 0, 0, 0, 0, 0, 7]).octets);
    assert_eq!(a.octets, b.octets);
    let no_ula = vec![list[0], list[1], list[3]];
    assert_eq!(addr::best_source_address(&no_ula).unwrap().octets, v6([0x2001, 0xdb8, 0, 0, 0, 0, 0, 2]).octets);
    assert!(addr::best_source_address(&vec![list[2]]).is_none());
}

#[test]
fn address_text() {
    assert_eq!(text(IpAddr::V6(v6([0x2001, 0xdb8, 0, 0, 0, 0, 0, 1]))), "2001:db8::1");
    assert_eq!(text(IpAddr::V6(v6([0; 8]))), "::");
    assert_eq!(text(IpAddr::V6(v6([0, 0, 0, 0, 0, 0, 0, 1]))), "::1");
    assert_eq!(text(IpAddr::V6(v6([0, 0, 0, 0, 0, 0xffff, 0x0102, 0x0304]))), "::ffff:1.2.3.4");
    assert_eq!(text(IpAddr::V6(v6([1, 0, 0, 2, 0, 0, 0, 3]))), "1:0:0:2::3");
    assert_eq!(text(IpAddr::V6(v6([1, 0, 2, 0, 3, 0, 4, 0]))), "1:0:2:0:3:0:4:0");
    assert_eq!(text(IpAddr::V6(v6([0xfe80, 0, 0, 0, 0xabcd, 0, 0, 0]))), "fe80::abcd:0:0:0");
    assert_eq!(text(IpAddr::V4(Ip4Addr { octets: [192, 0, 2, 53] })), "192.0.2.53");
}

#[test]
fn address_equality() {
    let a = IpAddr::V4(Ip4Addr { octets: [10, 0, 0, 1] });
    let b = IpAddr::V6(v6([0, 0, 0, 0, 0, 0xffff, 0x0a00, 1]));
    assert!(a.same_as(&a));
    assert!(!a.same_as(&b));
    assert!(v6([0; 8]).is_unspecified());
    assert!(!v6([0, 0, 0, 0, 0, 0, 0, 1]).is_unspecified());
}
