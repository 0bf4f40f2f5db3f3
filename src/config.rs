//! The part of the daemon's configuration that router advertisements read.
use vstd::prelude::*;
use crate::addr::{IpAddr, Ip6Addr};

verus! {

/// A per-option setting: infer it, set it, or leave the option out.
#[derive(Debug)]
pub enum ConfigValue<T> {
    /// Use what the defaults or the host provide.
    NotSpecified,
    /// Use this value.
    Value(T),
    /// Never emit the option.
    DontSet,
}

impl<T: Copy> ConfigValue<T> {
    /// The explicit value, or `default` when there is none. `DontSet` also
    /// falls back: it only means something to options, not to lifetimes.
    pub fn always_unwrap_or(&self, default: T) -> (r: T)
        ensures
            r == (match *self {
                ConfigValue::Value(v) => v,
                _ => default,
            }),
    {
        match self {
            ConfigValue::Value(v) => *v,
            _ => default,
        }
    }
}

/// A prefix to advertise on an interface. Lifetimes are in seconds.
#[derive(Clone, Copy, Debug)]
pub struct Prefix {
    pub addr: Ip6Addr,
    pub prefixlen: u8,
    pub onlink: bool,
    pub autonomous: bool,
    pub valid: u32,
    pub preferred: u32,
}

/// A NAT64 prefix to advertise. The lifetime is in seconds.
#[derive(Clone, Copy, Debug)]
pub struct Pref64 {
    pub lifetime: u16,
    pub prefix: Ip6Addr,
    pub prefixlen: u8,
}

/// Router advertisement settings of one interface.
///
/// `lifetime` and the option lifetimes are in seconds; `reachable` and
/// `retrans` in milliseconds. Domain names and the captive portal are text.
#[derive(Debug)]
pub struct Interface {
    pub name: String,
    pub hoplimit: u8,
    pub managed: bool,
    pub other: bool,
    pub lifetime: ConfigValue<u16>,
    pub reachable: u32,
    pub retrans: u32,
    pub mtu: ConfigValue<u32>,
    pub min_rtr_adv_interval: ConfigValue<u32>,
    pub max_rtr_adv_interval: ConfigValue<u32>,
    pub prefixes: Vec<Prefix>,
    pub rdnss_lifetime: ConfigValue<u32>,
    pub rdnss: ConfigValue<Vec<Ip6Addr>>,
    pub dnssl_lifetime: ConfigValue<u32>,
    pub dnssl: ConfigValue<Vec<String>>,
    pub captive_portal: ConfigValue<String>,
    pub pref64: Option<Pref64>,
}

/// Hop limit advertised when none is configured.
pub const DEFAULT_HOP_LIMIT: u8 = 64;

impl Default for Interface {
    fn default() -> (r: Interface)
        ensures
            r.name@.len() == 0,
            r.hoplimit == DEFAULT_HOP_LIMIT,
            !r.managed,
            !r.other,
            r.lifetime is NotSpecified,
            r.reachable == 0,
            r.retrans == 0,
            r.mtu is NotSpecified,
            r.min_rtr_adv_interval is NotSpecified,
            r.max_rtr_adv_interval is NotSpecified,
            r.prefixes@.len() == 0,
            r.rdnss_lifetime is NotSpecified,
            r.rdnss is NotSpecified,
            r.dnssl_lifetime is NotSpecified,
            r.dnssl is NotSpecified,
            r.captive_portal is NotSpecified,
            r.pref64 is None,
    {
        Interface {
            name: String::new(),
            hoplimit: DEFAULT_HOP_LIMIT,
            managed: false,
            other: false,
            lifetime: ConfigValue::NotSpecified,
            reachable: 0,
            retrans: 0,
            mtu: ConfigValue::NotSpecified,
            min_rtr_adv_interval: ConfigValue::NotSpecified,
            max_rtr_adv_interval: ConfigValue::NotSpecified,
            prefixes: Vec::new(),
            rdnss_lifetime: ConfigValue::NotSpecified,
            rdnss: ConfigValue::NotSpecified,
            dnssl_lifetime: ConfigValue::NotSpecified,
            dnssl: ConfigValue::NotSpecified,
            captive_portal: ConfigValue::NotSpecified,
            pref64: None,
        }
    }
}

/// Router advertisement section of the configuration.
#[derive(Debug)]
pub struct RaConfig {
    pub interfaces: Vec<Interface>,
}

/// The configuration the router advertisement engine reads: global DNS
/// servers, search domains and captive portal, the prefixes the host owns
/// (address and prefix length), and the per-interface blocks.
#[derive(Debug)]
pub struct Config {
    pub dns_servers: Vec<IpAddr>,
    pub dns_search: Vec<String>,
    pub captive_portal: Option<String>,
    pub addresses: Vec<(IpAddr, u8)>,
    pub ra: RaConfig,
}

impl Default for Config {
    fn default() -> (r: Config)
        ensures
            r.dns_servers@.len() == 0,
            r.dns_search@.len() == 0,
            r.captive_portal is None,
            r.addresses@.len() == 0,
            r.ra.interfaces@.len() == 0,
    {
        Config {
            dns_servers: Vec::new(),
            dns_search: Vec::new(),
            captive_portal: None,
            addresses: Vec::new(),
            ra: RaConfig { interfaces: Vec::new() },
        }
    }
}

} // verus!
