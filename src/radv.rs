//! Router advertisement engine: which options an interface advertises, with
//! what lifetimes, from which source address, and to whom.
use vstd::prelude::*;
use rand::Rng;
use vstd::utf8::encode_utf8;
use crate::addr::{
    all_nodes, all_nodes_octets, IpAddr, Ip6Addr, SocketAddr, best_source_address, holds_v6, ip_same, is_best_source,
    zero_range,
};
use crate::config::{Config, ConfigValue, DEFAULT_HOP_LIMIT, Interface, Prefix};
use crate::icmppkt::{
    CAPTIVE_PORTAL, DNSSL, MTU, PREFIX_INFO, RDNSS, of_type, opt_type,
    AdvPrefix, NDOptionValue, NDOptions, NdOpt, RtrAdvertisement, addrs_view, bytes_list_view,
};

verus! {

/// Longest interval between unsolicited advertisements, in seconds.
pub const DEFAULT_MAX_RTR_ADV_INTERVAL: u32 = 600;

/// Shortest interval between unsolicited advertisements, in seconds: a third
/// of the longest.
pub const DEFAULT_MIN_RTR_ADV_INTERVAL: u32 = 200;

/// Router lifetime of a default router, in seconds: three times the longest
/// interval.
pub const ADV_DEFAULT_LIFETIME: u16 = 1800;

/// Lifetime of the DNS options when none is configured, in seconds.
pub const DEFAULT_DNS_LIFETIME: u32 = 1800;

/// The explicit value of a setting, else `d`.
pub open spec fn value_or<T>(c: ConfigValue<T>, d: T) -> T {
    match c {
        ConfigValue::Value(v) => v,
        _ => d,
    }
}

/// The UTF-8 bytes of each string.
pub open spec fn strings_bytes(v: Seq<String>) -> Seq<Seq<u8>> {
    v.map_values(|s: String| encode_utf8(s@))
}

/// The IPv6 entries of the global DNS servers, in order, with `::` standing
/// for the advertising address `self6`.
pub open spec fn fallback_servers(servers: Seq<IpAddr>, self6: Seq<u8>) -> Seq<Seq<u8>>
    decreases servers.len(),
{
    if servers.len() == 0 {
        Seq::empty()
    } else {
        let rest = fallback_servers(servers.drop_last(), self6);
        match servers.last() {
            IpAddr::V6(a) => rest.push(
                if zero_range(a@, 0, 16) {
                    self6
                } else {
                    a@
                },
            ),
            IpAddr::V4(_) => rest,
        }
    }
}

pub open spec fn ll_part(ll: Option<[u8; 6]>) -> Seq<NdOpt> {
    match ll {
        Some(a) => seq![NdOpt::SourceLLAddr(a@)],
        None => Seq::empty(),
    }
}

pub open spec fn mtu_part(mtu: Option<u32>) -> Seq<NdOpt> {
    match mtu {
        Some(m) => seq![NdOpt::Mtu(m)],
        None => Seq::empty(),
    }
}

pub open spec fn prefix_opt(p: Prefix) -> NdOpt {
    NdOpt::Prefix(p.prefixlen, p.onlink, p.autonomous, p.valid, p.preferred, p.addr@)
}

pub open spec fn prefix_part(ps: Seq<Prefix>) -> Seq<NdOpt> {
    ps.map_values(|p: Prefix| prefix_opt(p))
}

/// The recursive DNS server option: none when suppressed, the configured
/// servers when set, else the global IPv6 servers when there are any.
pub open spec fn rdnss_part(config: &Config, intf: &Interface, self6: Seq<u8>) -> Seq<NdOpt> {
    let lt = value_or(intf.rdnss_lifetime, DEFAULT_DNS_LIFETIME);
    match &intf.rdnss {
        ConfigValue::DontSet => Seq::empty(),
        ConfigValue::Value(v) => seq![NdOpt::Rdnss(lt, addrs_view(v@))],
        ConfigValue::NotSpecified => {
            let f = fallback_servers(config.dns_servers@, self6);
            if f.len() > 0 {
                seq![NdOpt::Rdnss(lt, f)]
            } else {
                Seq::empty()
            }
        },
    }
}

/// The DNS search list option, chosen as the server option is.
pub open spec fn dnssl_part(config: &Config, intf: &Interface) -> Seq<NdOpt> {
    let lt = value_or(intf.dnssl_lifetime, DEFAULT_DNS_LIFETIME);
    match &intf.dnssl {
        ConfigValue::DontSet => Seq::empty(),
        ConfigValue::Value(v) => seq![NdOpt::Dnssl(lt, strings_bytes(v@))],
        ConfigValue::NotSpecified => if config.dns_search@.len() > 0 {
            seq![NdOpt::Dnssl(lt, strings_bytes(config.dns_search@))]
        } else {
            Seq::empty()
        },
    }
}

pub open spec fn pref64_part(intf: &Interface) -> Seq<NdOpt> {
    match intf.pref64 {
        Some(p) => seq![NdOpt::Pref64(p.lifetime, p.prefixlen, p.prefix@)],
        None => Seq::empty(),
    }
}

/// The captive portal option: the interface's own when set, the global one
/// when the interface leaves it unspecified, none when suppressed.
pub open spec fn captive_part(config: &Config, intf: &Interface) -> Seq<NdOpt> {
    match &intf.captive_portal {
        ConfigValue::DontSet => Seq::empty(),
        ConfigValue::Value(u) => seq![NdOpt::CaptivePortal(encode_utf8(u@))],
        ConfigValue::NotSpecified => match &config.captive_portal {
            Some(u) => seq![NdOpt::CaptivePortal(encode_utf8(u@))],
            None => Seq::empty(),
        },
    }
}

/// The options of an advertisement, in the order they are emitted.
pub open spec fn ra_options(
    config: &Config,
    intf: &Interface,
    ll: Option<[u8; 6]>,
    mtu: Option<u32>,
    self6: Seq<u8>,
) -> Seq<NdOpt> {
    ll_part(ll) + mtu_part(mtu) + prefix_part(intf.prefixes@) + rdnss_part(config, intf, self6)
        + dnssl_part(config, intf) + pref64_part(intf) + captive_part(config, intf)
}

fn string_bytes(s: &String) -> (r: Vec<u8>)
    ensures
        r@ == encode_utf8(s@),
{
    s.as_str().as_bytes_vec()
}

fn strings_to_bytes(v: &Vec<String>) -> (r: Vec<Vec<u8>>)
    ensures
        bytes_list_view(r@) == strings_bytes(v@),
{
    let mut out: Vec<Vec<u8>> = Vec::new();
    let mut i: usize = 0;
    while i < v.len()
        invariant
            i <= v@.len(),
            bytes_list_view(out@) =~= strings_bytes(v@.take(i as int)),
        decreases v@.len() - i,
    {
        let ghost before = out@;
        out.push(string_bytes(&v[i]));
        assert(bytes_list_view(out@) =~= bytes_list_view(before).push(encode_utf8(v@[i as int]@)));
        assert(v@.take(i + 1) =~= v@.take(i as int).push(v@[i as int]));
        i = i + 1;
    }
    assert(v@.take(v@.len() as int) =~= v@);
    out
}

/// The global IPv6 DNS servers, with `::` replaced by `self6`.
pub fn fallback_dns_servers(servers: &Vec<IpAddr>, self6: &Ip6Addr) -> (r: Vec<Ip6Addr>)
    ensures
        addrs_view(r@) == fallback_servers(servers@, self6@),
{
    let mut out: Vec<Ip6Addr> = Vec::new();
    let mut i: usize = 0;
    while i < servers.len()
        invariant
            i <= servers@.len(),
            addrs_view(out@) =~= fallback_servers(servers@.take(i as int), self6@),
        decreases servers@.len() - i,
    {
        let ghost before = out@;
        assert(servers@.take(i + 1).drop_last() =~= servers@.take(i as int));
        match &servers[i] {
            IpAddr::V6(a) => {
                if a.is_unspecified() {
                    out.push(*self6);
                } else {
                    out.push(*a);
                }
                assert(addrs_view(out@) =~= addrs_view(before).push(out@.last()@));
            },
            IpAddr::V4(_) => {},
        }
        i = i + 1;
    }
    assert(servers@.take(servers@.len() as int) =~= servers@);
    out
}

fn push_prefix_options(options: &mut NDOptions, prefixes: &Vec<Prefix>)
    ensures
        final(options)@ == old(options)@ + prefix_part(prefixes@),
{
    let mut i: usize = 0;
    while i < prefixes.len()
        invariant
            i <= prefixes@.len(),
            options@ =~= old(options)@ + prefix_part(prefixes@.take(i as int)),
        decreases prefixes@.len() - i,
    {
        let p = &prefixes[i];
        options.add_option(
            NDOptionValue::Prefix(
                AdvPrefix {
                    prefixlen: p.prefixlen,
                    onlink: p.onlink,
                    autonomous: p.autonomous,
                    valid: p.valid,
                    preferred: p.preferred,
                    prefix: p.addr,
                },
            ),
        );
        assert(prefixes@.take(i + 1) =~= prefixes@.take(i as int).push(*p));
        i = i + 1;
    }
    assert(prefixes@.take(prefixes@.len() as int) =~= prefixes@);
}

fn push_rdnss_option(options: &mut NDOptions, config: &Config, intf: &Interface, self6: &Ip6Addr)
    ensures
        final(options)@ == old(options)@ + rdnss_part(config, intf, self6@),
{
    let lifetime = intf.rdnss_lifetime.always_unwrap_or(DEFAULT_DNS_LIFETIME);
    match &intf.rdnss {
        ConfigValue::DontSet => {},
        ConfigValue::Value(v) => {
            options.add_option(
                NDOptionValue::RecursiveDnsServers(lifetime, vstd::slice::slice_to_vec(v.as_slice())),
            );
        },
        ConfigValue::NotSpecified => {
            let f = fallback_dns_servers(&config.dns_servers, self6);
            if f.len() > 0 {
                options.add_option(NDOptionValue::RecursiveDnsServers(lifetime, f));
            }
        },
    }
    assert(final(options)@ =~= old(options)@ + rdnss_part(config, intf, self6@));
}

fn push_dnssl_option(options: &mut NDOptions, config: &Config, intf: &Interface)
    ensures
        final(options)@ == old(options)@ + dnssl_part(config, intf),
{
    let lifetime = intf.dnssl_lifetime.always_unwrap_or(DEFAULT_DNS_LIFETIME);
    match &intf.dnssl {
        ConfigValue::DontSet => {},
        ConfigValue::Value(v) => {
            options.add_option(NDOptionValue::DnsSearchList(lifetime, strings_to_bytes(v)));
        },
        ConfigValue::NotSpecified => {
            if config.dns_search.len() > 0 {
                options.add_option(
                    NDOptionValue::DnsSearchList(lifetime, strings_to_bytes(&config.dns_search)),
                );
            }
        },
    }
    assert(final(options)@ =~= old(options)@ + dnssl_part(config, intf));
}

fn push_captive_option(options: &mut NDOptions, config: &Config, intf: &Interface)
    ensures
        final(options)@ == old(options)@ + captive_part(config, intf),
{
    match &intf.captive_portal {
        ConfigValue::DontSet => {},
        ConfigValue::Value(u) => {
            options.add_option(NDOptionValue::CaptivePortal(string_bytes(u)));
        },
        ConfigValue::NotSpecified => {
            if let Some(u) = &config.captive_portal {
                options.add_option(NDOptionValue::CaptivePortal(string_bytes(u)));
            }
        },
    }
    assert(final(options)@ =~= old(options)@ + captive_part(config, intf));
}

/// Builds the advertisement for an interface from the configuration and
/// what the host says of the interface: its Ethernet address, the MTU to
/// advertise, the address the advertisement comes from, and the router
/// lifetime (seconds) to use when the interface does not set one.
///
/// Options come in this order: source link-layer address, MTU, one prefix
/// option per configured prefix, DNS servers, search list, NAT64 prefix,
/// captive portal.
pub fn build_announcement_pure(
    config: &Config,
    intf: &Interface,
    ll: Option<[u8; 6]>,
    mtu: Option<u32>,
    self6: Ip6Addr,
    lifetime: u16,
) -> (r: RtrAdvertisement)
    ensures
        r.hop_limit == intf.hoplimit,
        r.flag_managed == intf.managed,
        r.flag_other == intf.other,
        r.lifetime == value_or(intf.lifetime, lifetime),
        r.reachable == intf.reachable,
        r.retrans == intf.retrans,
        r.options@ == ra_options(config, intf, ll, mtu, self6@),
{
    let mut options = NDOptions::new();
    if let Some(lladdr) = ll {
        options.add_option(NDOptionValue::SourceLLAddr(vstd::slice::slice_to_vec(lladdr.as_slice())));
    }
    if let Some(m) = mtu {
        options.add_option(NDOptionValue::Mtu(m));
    }
    assert(options@ =~= ll_part(ll) + mtu_part(mtu));
    push_prefix_options(&mut options, &intf.prefixes);
    push_rdnss_option(&mut options, config, intf, &self6);
    push_dnssl_option(&mut options, config, intf);
    if let Some(p) = &intf.pref64 {
        options.add_option(NDOptionValue::Pref64(p.lifetime, p.prefixlen, p.prefix));
    }
    push_captive_option(&mut options, config, intf);
    assert(options@ =~= ra_options(config, intf, ll, mtu, self6@));
    RtrAdvertisement {
        hop_limit: intf.hoplimit,
        flag_managed: intf.managed,
        flag_other: intf.other,
        lifetime: intf.lifetime.always_unwrap_or(lifetime),
        reachable: intf.reachable,
        retrans: intf.retrans,
        options,
    }
}

proof fn lemma_filter_short(s: Seq<NdOpt>, ty: u8)
    requires
        s.len() <= 1,
    ensures
        s.filter(of_type(ty)) == (if s.len() == 1 && opt_type(s[0]) == ty {
            s
        } else {
            Seq::<NdOpt>::empty()
        }),
{
    reveal(Seq::filter);
    if s.len() == 1 {
        assert(s.drop_last() =~= Seq::<NdOpt>::empty());
        assert(Seq::<NdOpt>::empty().filter(of_type(ty)) =~= Seq::<NdOpt>::empty());
        assert(Seq::<NdOpt>::empty().push(s[0]) =~= s);
    } else {
        assert(s =~= Seq::<NdOpt>::empty());
    }
}

proof fn lemma_filter_prefixes(ps: Seq<Prefix>, ty: u8)
    requires
        ty != PREFIX_INFO,
    ensures
        prefix_part(ps).filter(of_type(ty)) == Seq::<NdOpt>::empty(),
{
    let s = prefix_part(ps);
    assert(s.all(|x: NdOpt| !of_type(ty)(x))) by {
        assert forall|i: int| 0 <= i < s.len() implies !of_type(ty)(#[trigger] s[i]) by {
            assert(s[i] == prefix_opt(ps[i]));
        }
    }
    s.lemma_all_neg_filter_empty(of_type(ty));
    assert(s.filter(of_type(ty)) =~= Seq::<NdOpt>::empty());
}

proof fn lemma_filter_options(
    config: &Config,
    intf: &Interface,
    ll: Option<[u8; 6]>,
    mtu: Option<u32>,
    self6: Seq<u8>,
    ty: u8,
)
    requires
        ty != PREFIX_INFO,
    ensures
        ra_options(config, intf, ll, mtu, self6).filter(of_type(ty)) == ll_part(ll).filter(
            of_type(ty),
        ) + mtu_part(mtu).filter(of_type(ty)) + rdnss_part(config, intf, self6).filter(
            of_type(ty),
        ) + dnssl_part(config, intf).filter(of_type(ty)) + pref64_part(intf).filter(of_type(ty))
            + captive_part(config, intf).filter(of_type(ty)),
{
    broadcast use Seq::filter_distributes_over_add;

    lemma_filter_prefixes(intf.prefixes@, ty);
    let p = of_type(ty);
    assert(ra_options(config, intf, ll, mtu, self6).filter(p) =~= ll_part(ll).filter(p) + mtu_part(
        mtu,
    ).filter(p) + Seq::<NdOpt>::empty() + rdnss_part(config, intf, self6).filter(p) + dnssl_part(
        config,
        intf,
    ).filter(p) + pref64_part(intf).filter(p) + captive_part(config, intf).filter(p));
}

proof fn lemma_rdnss_only(
    config: &Config,
    intf: &Interface,
    ll: Option<[u8; 6]>,
    mtu: Option<u32>,
    self6: Seq<u8>,
)
    ensures
        ra_options(config, intf, ll, mtu, self6).filter(of_type(RDNSS)) == rdnss_part(
            config,
            intf,
            self6,
        ),
{
    lemma_filter_options(config, intf, ll, mtu, self6, RDNSS);
    lemma_filter_short(ll_part(ll), RDNSS);
    lemma_filter_short(mtu_part(mtu), RDNSS);
    lemma_filter_short(rdnss_part(config, intf, self6), RDNSS);
    lemma_filter_short(dnssl_part(config, intf), RDNSS);
    lemma_filter_short(pref64_part(intf), RDNSS);
    lemma_filter_short(captive_part(config, intf), RDNSS);
    let e = Seq::<NdOpt>::empty();
    let x = rdnss_part(config, intf, self6);
    assert(e + e + x + e + e + e =~= x);
}

proof fn lemma_dnssl_only(
    config: &Config,
    intf: &Interface,
    ll: Option<[u8; 6]>,
    mtu: Option<u32>,
    self6: Seq<u8>,
)
    ensures
        ra_options(config, intf, ll, mtu, self6).filter(of_type(DNSSL)) == dnssl_part(
            config,
            intf,
        ),
{
    lemma_filter_options(config, intf, ll, mtu, self6, DNSSL);
    lemma_filter_short(ll_part(ll), DNSSL);
    lemma_filter_short(mtu_part(mtu), DNSSL);
    lemma_filter_short(rdnss_part(config, intf, self6), DNSSL);
    lemma_filter_short(dnssl_part(config, intf), DNSSL);
    lemma_filter_short(pref64_part(intf), DNSSL);
    lemma_filter_short(captive_part(config, intf), DNSSL);
    let e = Seq::<NdOpt>::empty();
    let x = dnssl_part(config, intf);
    assert(e + e + e + x + e + e =~= x);
}

proof fn lemma_captive_only(
    config: &Config,
    intf: &Interface,
    ll: Option<[u8; 6]>,
    mtu: Option<u32>,
    self6: Seq<u8>,
)
    ensures
        ra_options(config, intf, ll, mtu, self6).filter(of_type(CAPTIVE_PORTAL)) == captive_part(
            config,
            intf,
        ),
{
    lemma_filter_options(config, intf, ll, mtu, self6, CAPTIVE_PORTAL);
    lemma_filter_short(ll_part(ll), CAPTIVE_PORTAL);
    lemma_filter_short(mtu_part(mtu), CAPTIVE_PORTAL);
    lemma_filter_short(rdnss_part(config, intf, self6), CAPTIVE_PORTAL);
    lemma_filter_short(dnssl_part(config, intf), CAPTIVE_PORTAL);
    lemma_filter_short(pref64_part(intf), CAPTIVE_PORTAL);
    lemma_filter_short(captive_part(config, intf), CAPTIVE_PORTAL);
    let e = Seq::<NdOpt>::empty();
    let x = captive_part(config, intf);
    assert(e + e + e + e + e + x =~= x);
}

/// `ConfigValue` for the DNS server option: `DontSet` never yields it,
/// `Value(v)` yields exactly one carrying `v`, and `NotSpecified` yields one
/// exactly when the global IPv6 servers (with `::` replaced by the
/// advertising address) are not empty.
pub proof fn lemma_rdnss_config_value(
    config: &Config,
    intf: &Interface,
    ll: Option<[u8; 6]>,
    mtu: Option<u32>,
    self6: Seq<u8>,
)
    ensures
        ({
            let rd = ra_options(config, intf, ll, mtu, self6).filter(of_type(RDNSS));
            let lt = value_or(intf.rdnss_lifetime, DEFAULT_DNS_LIFETIME);
            &&& intf.rdnss is DontSet ==> rd.len() == 0
            &&& intf.rdnss matches ConfigValue::Value(v) ==> rd == seq![
                NdOpt::Rdnss(lt, addrs_view(v@)),
            ]
            &&& intf.rdnss is NotSpecified ==> (rd.len() > 0 <==> fallback_servers(
                config.dns_servers@,
                self6,
            ).len() > 0)
            &&& intf.rdnss is NotSpecified && fallback_servers(config.dns_servers@, self6).len()
                > 0 ==> rd == seq![NdOpt::Rdnss(lt, fallback_servers(config.dns_servers@, self6))]
        }),
{
    lemma_rdnss_only(config, intf, ll, mtu, self6);
}

/// `ConfigValue` for the search list option: `DontSet` never yields it,
/// `Value(v)` yields exactly one carrying `v`, and `NotSpecified` yields one
/// exactly when the global search domains are not empty.
pub proof fn lemma_dnssl_config_value(
    config: &Config,
    intf: &Interface,
    ll: Option<[u8; 6]>,
    mtu: Option<u32>,
    self6: Seq<u8>,
)
    ensures
        ({
            let sl = ra_options(config, intf, ll, mtu, self6).filter(of_type(DNSSL));
            let lt = value_or(intf.dnssl_lifetime, DEFAULT_DNS_LIFETIME);
            &&& intf.dnssl is DontSet ==> sl.len() == 0
            &&& intf.dnssl matches ConfigValue::Value(v) ==> sl == seq![
                NdOpt::Dnssl(lt, strings_bytes(v@)),
            ]
            &&& intf.dnssl is NotSpecified ==> (sl.len() > 0 <==> config.dns_search@.len() > 0)
            &&& intf.dnssl is NotSpecified && config.dns_search@.len() > 0 ==> sl == seq![
                NdOpt::Dnssl(lt, strings_bytes(config.dns_search@)),
            ]
        }),
{
    lemma_dnssl_only(config, intf, ll, mtu, self6);
}

/// `ConfigValue` for the captive portal option: `DontSet` never yields it,
/// `Value(u)` yields exactly one carrying `u`, and `NotSpecified` yields one
/// exactly when the global configuration names a portal.
pub proof fn lemma_captive_config_value(
    config: &Config,
    intf: &Interface,
    ll: Option<[u8; 6]>,
    mtu: Option<u32>,
    self6: Seq<u8>,
)
    ensures
        ({
            let cp = ra_options(config, intf, ll, mtu, self6).filter(of_type(CAPTIVE_PORTAL));
            &&& intf.captive_portal is DontSet ==> cp.len() == 0
            &&& intf.captive_portal matches ConfigValue::Value(u) ==> cp == seq![
                NdOpt::CaptivePortal(encode_utf8(u@)),
            ]
            &&& intf.captive_portal is NotSpecified ==> (cp.len() > 0
                <==> config.captive_portal is Some)
            &&& intf.captive_portal is NotSpecified ==> match &config.captive_portal {
                Some(u) => cp == seq![NdOpt::CaptivePortal(encode_utf8(u@))],
                None => cp.len() == 0,
            }
        }),
{
    lemma_captive_only(config, intf, ll, mtu, self6);
}

/// Link-layer address of an interface; only Ethernet is advertised.
#[derive(Clone, Copy, Debug)]
pub enum LinkLayer {
    Ethernet([u8; 6]),
    Unknown,
}

/// What the host reports of one interface.
#[derive(Debug)]
pub struct HostInterface {
    pub ifidx: u32,
    pub name: String,
    pub multicast: bool,
    pub mtu: Option<u32>,
    pub linkaddr: Option<LinkLayer>,
    /// Assigned addresses with their prefix lengths.
    pub prefixes: Vec<(IpAddr, u8)>,
}

/// Why no advertisement was built or sent.
#[derive(Debug)]
pub enum Error {
    Io(String),
    Message(String),
    /// Neither a configuration block nor a host prefix in the global list;
    /// the loops skip such interfaces silently.
    UnconfiguredInterface(String),
    /// The interface has no IPv6 address to advertise from.
    NoIpv6Address(String),
    /// A solicitation arrived without the receiving interface.
    MissingInterface,
}

pub open spec fn ethernet_of(ll: Option<LinkLayer>) -> Option<[u8; 6]> {
    match ll {
        Some(LinkLayer::Ethernet(a)) => Some(a),
        _ => None,
    }
}

/// The address for the source link-layer option: Ethernet only.
pub fn ethernet_address(ll: &Option<LinkLayer>) -> (r: Option<[u8; 6]>)
    ensures
        r == ethernet_of(*ll),
{
    match ll {
        Some(LinkLayer::Ethernet(a)) => Some(*a),
        _ => None,
    }
}

pub open spec fn mtu_of(cfg: ConfigValue<u32>, link_mtu: Option<u32>) -> Option<u32> {
    match cfg {
        ConfigValue::NotSpecified => link_mtu,
        ConfigValue::Value(v) => Some(v),
        ConfigValue::DontSet => None,
    }
}

/// The MTU to advertise: the configured one, the link's when unspecified,
/// none when suppressed.
pub fn advertised_mtu(cfg: &ConfigValue<u32>, link_mtu: Option<u32>) -> (r: Option<u32>)
    ensures
        r == mtu_of(*cfg, link_mtu),
{
    match cfg {
        ConfigValue::NotSpecified => link_mtu,
        ConfigValue::Value(v) => Some(*v),
        ConfigValue::DontSet => None,
    }
}

/// Router lifetime in seconds. `default_route` is the host's IPv6 default
/// route, when there is one, by the interface it leaves through.
pub open spec fn lifetime_of(cfg: ConfigValue<u16>, default_route: Option<Option<u32>>, ifidx: u32) -> u16 {
    match cfg {
        ConfigValue::NotSpecified => match default_route {
            Some(gwif) => if gwif != Some(ifidx) {
                ADV_DEFAULT_LIFETIME
            } else {
                0
            },
            None => 0,
        },
        ConfigValue::Value(v) => v,
        ConfigValue::DontSet => 0,
    }
}

/// Router lifetime: when unspecified, a default router's lifetime if the
/// host routes by default through another interface, else zero (not a
/// default router); the configured value when set; zero when suppressed.
pub fn router_lifetime(cfg: &ConfigValue<u16>, default_route: Option<Option<u32>>, ifidx: u32) -> (r: u16)
    ensures
        r == lifetime_of(*cfg, default_route, ifidx),
{
    match cfg {
        ConfigValue::NotSpecified => match default_route {
            Some(gwif) => {
                let same = match gwif {
                    Some(i) => i == ifidx,
                    None => false,
                };
                if !same {
                    ADV_DEFAULT_LIFETIME
                } else {
                    0
                }
            },
            None => 0,
        },
        ConfigValue::Value(v) => *v,
        ConfigValue::DontSet => 0,
    }
}

/// `ra` is the advertisement of `intf` on the host interface: sent from its
/// best IPv6 address, with its Ethernet address, the MTU and the router
/// lifetime chosen as `mtu_of` and `lifetime_of` say.
pub open spec fn announces(
    config: &Config,
    intf: &Interface,
    host: &HostInterface,
    default_route: Option<Option<u32>>,
    ra: RtrAdvertisement,
) -> bool {
    &&& exists|self6: Seq<u8>|
        {
            &&& is_best_source(host.prefixes@, self6)
            &&& ra.options@ == ra_options(
                config,
                intf,
                ethernet_of(host.linkaddr),
                mtu_of(intf.mtu, host.mtu),
                self6,
            )
        }
    &&& ra.hop_limit == intf.hoplimit
    &&& ra.flag_managed == intf.managed
    &&& ra.flag_other == intf.other
    &&& ra.lifetime == lifetime_of(intf.lifetime, default_route, host.ifidx)
    &&& ra.reachable == intf.reachable
    &&& ra.retrans == intf.retrans
}

/// Builds the advertisement for a configured interface from what the host
/// reports. `None` when the interface has no IPv6 address to send from.
pub fn build_announcement(
    config: &Config,
    intf: &Interface,
    host: &HostInterface,
    default_route: Option<Option<u32>>,
) -> (r: Option<RtrAdvertisement>)
    ensures
        r is None <==> forall|o: Seq<u8>| !holds_v6(host.prefixes@, o),
        r matches Some(ra) ==> announces(config, intf, host, default_route, ra),
{
    let ll = ethernet_address(&host.linkaddr);
    let self6 = match best_source_address(&host.prefixes) {
        Some(a) => a,
        None => {
            return None;
        },
    };
    let mtu = advertised_mtu(&intf.mtu, host.mtu);
    let lifetime = router_lifetime(&intf.lifetime, default_route, host.ifidx);
    let ra = build_announcement_pure(config, intf, ll, mtu, self6, lifetime);
    assert(value_or(intf.lifetime, lifetime) == lifetime_of(intf.lifetime, default_route, host.ifidx));
    Some(ra)
}

/// Index of the first configuration block named `name`.
pub fn find_interface(config: &Config, name: &String) -> (r: Option<usize>)
    ensures
        r matches Some(i) ==> i < config.ra.interfaces@.len() && config.ra.interfaces@[i as int].name@
            == name@ && forall|j: int| 0 <= j < i ==> config.ra.interfaces@[j].name@ != name@,
        r is None ==> forall|j: int|
            0 <= j < config.ra.interfaces@.len() ==> config.ra.interfaces@[j].name@ != name@,
{
    let mut i: usize = 0;
    while i < config.ra.interfaces.len()
        invariant
            i <= config.ra.interfaces@.len(),
            forall|j: int| 0 <= j < i ==> config.ra.interfaces@[j].name@ != name@,
        decreases config.ra.interfaces@.len() - i,
    {
        if config.ra.interfaces[i].name == *name {
            return Some(i);
        }
        i = i + 1;
    }
    None
}

/// Valid lifetime of a prefix taken from the host, in seconds (30 days).
pub const HOST_PREFIX_VALID: u32 = 2592000;

/// Preferred lifetime of a prefix taken from the host, in seconds (7 days).
pub const HOST_PREFIX_PREFERRED: u32 = 604800;

/// `(addr, len)` is one of the global prefixes.
pub open spec fn listed(addresses: Seq<(IpAddr, u8)>, addr: IpAddr, len: u8) -> bool {
    exists|k: int| 0 <= k < addresses.len() && ip_same(#[trigger] addresses[k].0, addr) && addresses[k].1 == len
}

/// The prefixes advertised on an interface without a configuration block:
/// its IPv6 addresses that the global prefix list holds, in order, on-link
/// and autonomous with the host lifetimes.
pub open spec fn host_prefixes(assigned: Seq<(IpAddr, u8)>, addresses: Seq<(IpAddr, u8)>) -> Seq<NdOpt>
    decreases assigned.len(),
{
    if assigned.len() == 0 {
        Seq::empty()
    } else {
        let rest = host_prefixes(assigned.drop_last(), addresses);
        let (a, len) = assigned.last();
        match a {
            IpAddr::V6(ip6) => if listed(addresses, a, len) {
                rest.push(NdOpt::Prefix(len, true, true, HOST_PREFIX_VALID, HOST_PREFIX_PREFERRED, ip6@))
            } else {
                rest
            },
            IpAddr::V4(_) => rest,
        }
    }
}

fn is_listed(addresses: &Vec<(IpAddr, u8)>, addr: &IpAddr, len: u8) -> (r: bool)
    ensures
        r == listed(addresses@, *addr, len),
{
    let mut k: usize = 0;
    while k < addresses.len()
        invariant
            k <= addresses@.len(),
            forall|j: int| 0 <= j < k ==> !(ip_same(#[trigger] addresses@[j].0, *addr) && addresses@[j].1 == len),
        decreases addresses@.len() - k,
    {
        if addresses[k].0.same_as(addr) && addresses[k].1 == len {
            return true;
        }
        k = k + 1;
    }
    false
}

/// The prefixes to advertise on an interface that has no configuration
/// block (see `host_prefixes`).
pub fn synthesized_prefixes(assigned: &Vec<(IpAddr, u8)>, addresses: &Vec<(IpAddr, u8)>) -> (r: Vec<Prefix>)
    ensures
        prefix_part(r@) == host_prefixes(assigned@, addresses@),
{
    let mut out: Vec<Prefix> = Vec::new();
    let mut i: usize = 0;
    while i < assigned.len()
        invariant
            i <= assigned@.len(),
            prefix_part(out@) =~= host_prefixes(assigned@.take(i as int), addresses@),
        decreases assigned@.len() - i,
    {
        let ghost before = out@;
        assert(assigned@.take(i + 1).drop_last() =~= assigned@.take(i as int));
        let (a, len) = &assigned[i];
        match a {
            IpAddr::V6(ip6) => {
                if is_listed(addresses, a, *len) {
                    out.push(
                        Prefix {
                            addr: *ip6,
                            prefixlen: *len,
                            onlink: true,
                            autonomous: true,
                            valid: HOST_PREFIX_VALID,
                            preferred: HOST_PREFIX_PREFERRED,
                        },
                    );
                    assert(prefix_part(out@) =~= prefix_part(before).push(prefix_opt(out@.last())));
                }
            },
            IpAddr::V4(_) => {},
        }
        i = i + 1;
    }
    assert(assigned@.take(assigned@.len() as int) =~= assigned@);
    out
}

/// The options advertised on an interface without a configuration block:
/// every setting unspecified, prefixes from the host.
pub open spec fn unconfigured_options(config: &Config, host: &HostInterface, self6: Seq<u8>) -> Seq<NdOpt> {
    let f = fallback_servers(config.dns_servers@, self6);
    ll_part(ethernet_of(host.linkaddr)) + mtu_part(host.mtu) + host_prefixes(
        host.prefixes@,
        config.addresses@,
    ) + (if f.len() > 0 {
        seq![NdOpt::Rdnss(DEFAULT_DNS_LIFETIME, f)]
    } else {
        Seq::empty()
    }) + (if config.dns_search@.len() > 0 {
        seq![NdOpt::Dnssl(DEFAULT_DNS_LIFETIME, strings_bytes(config.dns_search@))]
    } else {
        Seq::empty()
    }) + match &config.captive_portal {
        Some(u) => seq![NdOpt::CaptivePortal(encode_utf8(u@))],
        None => Seq::empty(),
    }
}

/// `ra` is the advertisement of an interface without a configuration block.
pub open spec fn announces_unconfigured(
    config: &Config,
    host: &HostInterface,
    default_route: Option<Option<u32>>,
    ra: RtrAdvertisement,
) -> bool {
    &&& exists|self6: Seq<u8>|
        is_best_source(host.prefixes@, self6) && ra.options@ == unconfigured_options(config, host, self6)
    &&& ra.hop_limit == DEFAULT_HOP_LIMIT
    &&& !ra.flag_managed
    &&& !ra.flag_other
    &&& ra.lifetime == lifetime_of(ConfigValue::NotSpecified, default_route, host.ifidx)
    &&& ra.reachable == 0
    &&& ra.retrans == 0
}

/// Block `i` is the first configuration block named `name`.
pub open spec fn first_named(config: &Config, name: Seq<char>, i: int) -> bool {
    &&& 0 <= i < config.ra.interfaces@.len()
    &&& config.ra.interfaces@[i].name@ == name
    &&& forall|j: int| 0 <= j < i ==> config.ra.interfaces@[j].name@ != name
}

proof fn lemma_host_prefixes_have_v6(assigned: Seq<(IpAddr, u8)>, addresses: Seq<(IpAddr, u8)>)
    requires
        host_prefixes(assigned, addresses).len() > 0,
    ensures
        exists|o: Seq<u8>| holds_v6(assigned, o),
    decreases assigned.len(),
{
    let rest = assigned.drop_last();
    let (a, len) = assigned.last();
    if let IpAddr::V6(ip6) = a {
        if listed(addresses, a, len) {
            assert(crate::addr::v6_octets(assigned[assigned.len() - 1].0) == Some(ip6@));
            assert(holds_v6(assigned, ip6@));
            return;
        }
    }
    lemma_host_prefixes_have_v6(rest, addresses);
    let o = choose|o: Seq<u8>| holds_v6(rest, o);
    let k = choose|k: int| 0 <= k < rest.len() && #[trigger] crate::addr::v6_octets(rest[k].0) == Some(o);
    assert(crate::addr::v6_octets(assigned[k].0) == Some(o));
    assert(holds_v6(assigned, o));
}

/// Builds the advertisement for a host interface: from the first
/// configuration block with its name; failing that, from the host's IPv6
/// prefixes that the global prefix list holds.
///
/// Errors: `UnconfiguredInterface` when there is no block and no such
/// prefix; `NoIpv6Address` when a block exists but the interface has no
/// IPv6 address to send from.
pub fn build_announcement_by_ifidx(
    config: &Config,
    host: &HostInterface,
    default_route: Option<Option<u32>>,
) -> (r: Result<RtrAdvertisement, Error>)
    ensures
        forall|i: int|
            first_named(config, host.name@, i) ==> {
                &&& (r is Ok <==> exists|o: Seq<u8>| holds_v6(host.prefixes@, o))
                &&& (r matches Ok(ra) ==> announces(
                    config,
                    &config.ra.interfaces@[i],
                    host,
                    default_route,
                    ra,
                ))
                &&& (r matches Err(e) ==> e matches Error::NoIpv6Address(n) && n@ == host.name@)
            },
        (forall|i: int| !first_named(config, host.name@, i)) ==> {
            &&& (r is Ok <==> host_prefixes(host.prefixes@, config.addresses@).len() > 0)
            &&& (r matches Ok(ra) ==> announces_unconfigured(config, host, default_route, ra))
            &&& (r matches Err(e) ==> e matches Error::UnconfiguredInterface(n) && n@ == host.name@)
        },
{
    match find_interface(config, &host.name) {
        Some(i) => {
            assert(first_named(config, host.name@, i as int));
            assert forall|j: int| first_named(config, host.name@, j) implies j == i by {
                if j < i {
                } else if j > i {
                }
            }
            match build_announcement(config, &config.ra.interfaces[i], host, default_route) {
                Some(ra) => Ok(ra),
                None => Err(Error::NoIpv6Address(host.name.clone())),
            }
        },
        None => {
            let prefixes = synthesized_prefixes(&host.prefixes, &config.addresses);
            if prefixes.len() == 0 {
                assert(host_prefixes(host.prefixes@, config.addresses@) =~= prefix_part(prefixes@));
                return Err(Error::UnconfiguredInterface(host.name.clone()));
            }
            proof {
                lemma_host_prefixes_have_v6(host.prefixes@, config.addresses@);
            }
            let mut intf = Interface::default();
            intf.prefixes = prefixes;
            match build_announcement(config, &intf, host, default_route) {
                Some(ra) => {
                    assert(announces_unconfigured(config, host, default_route, ra)) by {
                        let self6 = choose|self6: Seq<u8>|
                            {
                                &&& is_best_source(host.prefixes@, self6)
                                &&& ra.options@ == ra_options(
                                    config,
                                    &intf,
                                    ethernet_of(host.linkaddr),
                                    mtu_of(intf.mtu, host.mtu),
                                    self6,
                                )
                            };
                        assert(ra_options(
                            config,
                            &intf,
                            ethernet_of(host.linkaddr),
                            mtu_of(intf.mtu, host.mtu),
                            self6,
                        ) =~= unconfigured_options(config, host, self6));
                    }
                    Ok(ra)
                },
                None => {
                    return Err(Error::NoIpv6Address(host.name.clone()));
                },
            }
        },
    }
}

/// Interfaces an unsolicited round goes to: those that can multicast, in
/// order, by index.
pub open spec fn multicast_indexes(hosts: Seq<HostInterface>) -> Seq<u32>
    decreases hosts.len(),
{
    if hosts.len() == 0 {
        Seq::empty()
    } else {
        let rest = multicast_indexes(hosts.drop_last());
        if hosts.last().multicast {
            rest.push(hosts.last().ifidx)
        } else {
            rest
        }
    }
}

/// The interfaces an unsolicited advertisement round is sent on.
pub fn unsolicited_interfaces(hosts: &Vec<HostInterface>) -> (r: Vec<u32>)
    ensures
        r@ == multicast_indexes(hosts@),
{
    let mut out: Vec<u32> = Vec::new();
    let mut i: usize = 0;
    while i < hosts.len()
        invariant
            i <= hosts@.len(),
            out@ == multicast_indexes(hosts@.take(i as int)),
        decreases hosts@.len() - i,
    {
        assert(hosts@.take(i + 1).drop_last() =~= hosts@.take(i as int));
        if hosts[i].multicast {
            out.push(hosts[i].ifidx);
        }
        i = i + 1;
    }
    assert(hosts@.take(hosts@.len() as int) =~= hosts@);
    out
}

/// Port field of an ICMPv6 raw socket address: the protocol number.
pub const ICMP6_PROTOCOL: u16 = 58;

/// Where an unsolicited advertisement goes: all nodes, scoped to the
/// interface.
pub fn unsolicited_destination(ifidx: u32) -> (r: SocketAddr)
    ensures
        r.ip matches IpAddr::V6(a) && a@ == all_nodes_octets(),
        r.port == ICMP6_PROTOCOL,
        r.scope_id == ifidx,
{
    SocketAddr { ip: IpAddr::V6(all_nodes()), port: ICMP6_PROTOCOL, scope_id: ifidx }
}

/// Where the answer to a solicitation goes, and on which interface: through
/// the interface it arrived on, back to the soliciting address when it is
/// known, else to all nodes on that link.
pub fn solicit_reply_destination(
    local_intf: Option<u32>,
    source: Option<SocketAddr>,
) -> (r: Result<(u32, SocketAddr), Error>)
    ensures
        local_intf is None ==> r matches Err(Error::MissingInterface),
        local_intf matches Some(i) ==> match source {
            None => (r matches Ok((j, d)) && j == i && d.port == ICMP6_PROTOCOL && d.scope_id == i
                && (d.ip matches IpAddr::V6(a) && a@ == all_nodes_octets())),
            Some(src) => r == Ok::<(u32, SocketAddr), Error>((i, src)),
        },
{
    match local_intf {
        None => Err(Error::MissingInterface),
        Some(i) => match source {
            None => Ok((i, unsolicited_destination(i))),
            Some(src) => Ok((i, src)),
        },
    }
}

/// Relies on rand's `Rng::gen_range` over the thread-local generator: a
/// uniformly drawn value in `[lo, hi)`; it panics on an empty range.
#[verifier::external_body]
fn uniform_below(lo: u32, hi: u32) -> (r: u32)
    requires
        lo < hi,
    ensures
        lo <= r < hi,
{
    rand::thread_rng().gen_range(lo..hi)
}

/// Seconds to wait before the next unsolicited round: drawn uniformly in
/// `[DEFAULT_MIN_RTR_ADV_INTERVAL, DEFAULT_MAX_RTR_ADV_INTERVAL)`.
pub fn next_unsolicited_delay() -> (r: u32)
    ensures
        DEFAULT_MIN_RTR_ADV_INTERVAL <= r < DEFAULT_MAX_RTR_ADV_INTERVAL,
{
    uniform_below(DEFAULT_MIN_RTR_ADV_INTERVAL, DEFAULT_MAX_RTR_ADV_INTERVAL)
}

#[verifier::spinoff_prover]
#[verifier::rlimit(80)]
proof fn lemma_mtu_only(
    config: &Config,
    intf: &Interface,
    ll: Option<[u8; 6]>,
    mtu: Option<u32>,
    self6: Seq<u8>,
)
    ensures
        ra_options(config, intf, ll, mtu, self6).filter(of_type(MTU)) == mtu_part(mtu),
{
    lemma_filter_options(config, intf, ll, mtu, self6, MTU);
    lemma_filter_short(ll_part(ll), MTU);
    lemma_filter_short(mtu_part(mtu), MTU);
    lemma_filter_short(rdnss_part(config, intf, self6), MTU);
    lemma_filter_short(dnssl_part(config, intf), MTU);
    lemma_filter_short(pref64_part(intf), MTU);
    lemma_filter_short(captive_part(config, intf), MTU);
    let e = Seq::<NdOpt>::empty();
    let x = mtu_part(mtu);
    assert(e + x + e + e + e + e =~= x);
}

/// `ConfigValue` for the MTU option of an advertisement built for a host
/// interface: `DontSet` never yields it, `Value(v)` yields exactly one
/// carrying `v`, and `NotSpecified` yields one carrying the link's MTU
/// exactly when the host reports one.
pub proof fn lemma_mtu_config_value(
    config: &Config,
    intf: &Interface,
    host: &HostInterface,
    self6: Seq<u8>,
)
    ensures
        ({
            let m = ra_options(
                config,
                intf,
                ethernet_of(host.linkaddr),
                mtu_of(intf.mtu, host.mtu),
                self6,
            ).filter(of_type(MTU));
            &&& intf.mtu is DontSet ==> m.len() == 0
            &&& intf.mtu matches ConfigValue::Value(v) ==> m == seq![NdOpt::Mtu(v)]
            &&& intf.mtu is NotSpecified ==> m == match host.mtu {
                Some(v) => seq![NdOpt::Mtu(v)],
                None => Seq::<NdOpt>::empty(),
            }
        }),
{
    lemma_mtu_only(config, intf, ethernet_of(host.linkaddr), mtu_of(intf.mtu, host.mtu), self6);
}

} // verus!
