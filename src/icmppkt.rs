//! Neighbour discovery messages (router solicitation and advertisement) and
//! their options, with a byte-exact encoder and a forgiving decoder.
use vstd::prelude::*;
use crate::addr::Ip6Addr;

verus! {

/// Option type of the source link-layer address option.
pub const SOURCE_LL_ADDR: u8 = 1;

/// Option type of the prefix information option.
pub const PREFIX_INFO: u8 = 3;

/// Option type of the MTU option.
pub const MTU: u8 = 5;

/// Option type of the recursive DNS server option.
pub const RDNSS: u8 = 25;

/// Option type of the DNS search list option.
pub const DNSSL: u8 = 31;

/// Option type of the captive portal option.
pub const CAPTIVE_PORTAL: u8 = 37;

/// Option type of the NAT64 prefix option.
pub const PREF64: u8 = 38;

/// ICMPv6 type of a router solicitation.
pub const ROUTER_SOLICIT: u8 = 133;

/// ICMPv6 type of a router advertisement.
pub const ROUTER_ADVERT: u8 = 134;

/// A prefix information option. Lifetimes are in seconds.
#[derive(Clone, Copy, Debug)]
pub struct AdvPrefix {
    pub prefixlen: u8,
    pub onlink: bool,
    pub autonomous: bool,
    pub valid: u32,
    pub preferred: u32,
    pub prefix: Ip6Addr,
}

/// A neighbour discovery option that this codec understands.
///
/// Lifetimes are in seconds. Domain names and the captive portal URL are
/// held as their text bytes (`b"example.com"`).
#[derive(Debug)]
pub enum NDOptionValue {
    SourceLLAddr(Vec<u8>),
    Mtu(u32),
    Prefix(AdvPrefix),
    RecursiveDnsServers(u32, Vec<Ip6Addr>),
    DnsSearchList(u32, Vec<Vec<u8>>),
    /// Lifetime, prefix length and prefix.
    Pref64(u16, u8, Ip6Addr),
    CaptivePortal(Vec<u8>),
}

/// The mathematical value of an option.
pub enum NdOpt {
    SourceLLAddr(Seq<u8>),
    Mtu(u32),
    /// Prefix length, on-link flag, autonomous flag, valid and preferred
    /// lifetimes, prefix octets.
    Prefix(u8, bool, bool, u32, u32, Seq<u8>),
    Rdnss(u32, Seq<Seq<u8>>),
    Dnssl(u32, Seq<Seq<u8>>),
    Pref64(u16, u8, Seq<u8>),
    CaptivePortal(Seq<u8>),
}

pub open spec fn addrs_view(v: Seq<Ip6Addr>) -> Seq<Seq<u8>> {
    v.map_values(|a: Ip6Addr| a@)
}

pub open spec fn bytes_list_view(v: Seq<Vec<u8>>) -> Seq<Seq<u8>> {
    v.map_values(|x: Vec<u8>| x@)
}

impl View for NDOptionValue {
    type V = NdOpt;

    open spec fn view(&self) -> NdOpt {
        match self {
            NDOptionValue::SourceLLAddr(a) => NdOpt::SourceLLAddr(a@),
            NDOptionValue::Mtu(m) => NdOpt::Mtu(*m),
            NDOptionValue::Prefix(p) => NdOpt::Prefix(
                p.prefixlen,
                p.onlink,
                p.autonomous,
                p.valid,
                p.preferred,
                p.prefix@,
            ),
            NDOptionValue::RecursiveDnsServers(l, s) => NdOpt::Rdnss(*l, addrs_view(s@)),
            NDOptionValue::DnsSearchList(l, s) => NdOpt::Dnssl(*l, bytes_list_view(s@)),
            NDOptionValue::Pref64(l, n, p) => NdOpt::Pref64(*l, *n, p@),
            NDOptionValue::CaptivePortal(u) => NdOpt::CaptivePortal(u@),
        }
    }
}

/// Big-endian bytes of a 16-bit value.
pub open spec fn be16(x: u16) -> Seq<u8> {
    seq![(x / 256) as u8, (x % 256) as u8]
}

/// Big-endian bytes of a 32-bit value.
pub open spec fn be32(x: u32) -> Seq<u8> {
    seq![
        (x / 0x100_0000) as u8,
        ((x / 0x1_0000) % 256) as u8,
        ((x / 256) % 256) as u8,
        (x % 256) as u8,
    ]
}

/// The 16-bit big-endian value at `i`.
pub open spec fn rd16(b: Seq<u8>, i: int) -> u16 {
    (b[i] as int * 256 + b[i + 1] as int) as u16
}

/// The 32-bit big-endian value at `i`.
pub open spec fn rd32(b: Seq<u8>, i: int) -> u32 {
    (((b[i] as int * 256 + b[i + 1] as int) * 256 + b[i + 2] as int) * 256
        + b[i + 3] as int) as u32
}

pub open spec fn zeros(n: nat) -> Seq<u8> {
    Seq::new(n, |i: int| 0u8)
}

/// `n` rounded up to a multiple of eight.
pub open spec fn pad8(n: nat) -> nat {
    (((n + 7) / 8) * 8) as nat
}

/// An option on the wire: type, length in units of eight octets, payload,
/// then zero padding to the next multiple of eight.
pub open spec fn framed(ty: u8, payload: Seq<u8>) -> Seq<u8> {
    let total = pad8(payload.len() + 2);
    seq![ty, (total / 8) as u8] + payload + zeros((total - payload.len() - 2) as nat)
}

pub open spec fn flatten(s: Seq<Seq<u8>>) -> Seq<u8>
    decreases s.len(),
{
    if s.len() == 0 {
        Seq::empty()
    } else {
        s[0] + flatten(s.drop_first())
    }
}

/// Number of leading octets of `d` before the first dot.
pub open spec fn label_len(d: Seq<u8>) -> nat
    decreases d.len(),
{
    if d.len() == 0 || d[0] == 0x2e {
        0
    } else {
        1 + label_len(d.drop_first())
    }
}

/// A domain name written as text, in wire form: each dot-separated label
/// prefixed by its length, then a zero octet.
pub open spec fn enc_name(d: Seq<u8>) -> Seq<u8>
    decreases d.len(),
{
    let k = label_len(d);
    if k >= d.len() {
        seq![k as u8] + d + seq![0u8]
    } else {
        seq![k as u8] + d.subrange(0, k as int) + enc_name(d.subrange((k + 1) as int, d.len() as int))
    }
}

pub open spec fn enc_names(ns: Seq<Seq<u8>>) -> Seq<u8> {
    flatten(ns.map_values(|d: Seq<u8>| enc_name(d)))
}

/// A domain name whose labels are non-empty and at most 63 octets long.
pub open spec fn valid_name(d: Seq<u8>) -> bool
    decreases d.len(),
{
    let k = label_len(d);
    &&& 1 <= k <= 63
    &&& (k >= d.len() || valid_name(d.subrange((k + 1) as int, d.len() as int)))
}

/// Prefix-length code of a NAT64 prefix.
pub open spec fn plc_of(len: u8) -> u16 {
    if len == 96 {
        0
    } else if len == 64 {
        1
    } else if len == 56 {
        2
    } else if len == 48 {
        3
    } else if len == 40 {
        4
    } else if len == 32 {
        5
    } else {
        0
    }
}

/// Prefix length that a code stands for; codes above five are not defined.
pub open spec fn plc_len(plc: u16) -> u8 {
    if plc == 0 {
        96
    } else if plc == 1 {
        64
    } else if plc == 2 {
        56
    } else if plc == 3 {
        48
    } else if plc == 4 {
        40
    } else {
        32
    }
}

pub open spec fn prefix_flags(onlink: bool, autonomous: bool) -> u8 {
    ((if onlink { 0x80u8 } else { 0u8 }) + (if autonomous { 0x40u8 } else { 0u8 })) as u8
}

pub open spec fn opt_type(o: NdOpt) -> u8 {
    match o {
        NdOpt::SourceLLAddr(_) => SOURCE_LL_ADDR,
        NdOpt::Mtu(_) => MTU,
        NdOpt::Prefix(..) => PREFIX_INFO,
        NdOpt::Rdnss(..) => RDNSS,
        NdOpt::Dnssl(..) => DNSSL,
        NdOpt::Pref64(..) => PREF64,
        NdOpt::CaptivePortal(_) => CAPTIVE_PORTAL,
    }
}

/// What follows the type and length octets, before padding.
pub open spec fn opt_payload(o: NdOpt) -> Seq<u8> {
    match o {
        NdOpt::SourceLLAddr(a) => a,
        NdOpt::Mtu(m) => seq![0u8, 0u8] + be32(m),
        NdOpt::Prefix(len, l, a, v, p, pre) => seq![len, prefix_flags(l, a)] + be32(v) + be32(p)
            + zeros(4) + pre,
        NdOpt::Rdnss(lt, addrs) => seq![0u8, 0u8] + be32(lt) + flatten(addrs),
        NdOpt::Dnssl(lt, names) => seq![0u8, 0u8] + be32(lt) + enc_names(names),
        NdOpt::Pref64(lt, len, pre) => be16(((lt / 8) * 8 + plc_of(len)) as u16) + pre.subrange(
            0,
            12,
        ),
        NdOpt::CaptivePortal(u) => u,
    }
}

/// The wire form of an option.
pub open spec fn enc_opt(o: NdOpt) -> Seq<u8> {
    framed(opt_type(o), opt_payload(o))
}

/// The wire form of a list of options, in order.
pub open spec fn enc_opts(os: Seq<NdOpt>) -> Seq<u8> {
    flatten(os.map_values(|o: NdOpt| enc_opt(o)))
}

pub proof fn lemma_flatten_push(s: Seq<Seq<u8>>, x: Seq<u8>)
    ensures
        flatten(s.push(x)) == flatten(s) + x,
    decreases s.len(),
{
    if s.len() == 0 {
        assert(s.push(x).drop_first() =~= Seq::<Seq<u8>>::empty());
        assert(flatten(Seq::<Seq<u8>>::empty()) =~= Seq::<u8>::empty());
        assert(flatten(s.push(x)) =~= x);
    } else {
        assert(s.push(x).drop_first() =~= s.drop_first().push(x));
        lemma_flatten_push(s.drop_first(), x);
        assert(flatten(s.push(x)) =~= flatten(s) + x);
    }
}

pub(crate) fn push_be16(out: &mut Vec<u8>, x: u16)
    ensures
        final(out)@ == old(out)@ + be16(x),
{
    out.push((x / 256) as u8);
    out.push((x % 256) as u8);
    assert(final(out)@ =~= old(out)@ + be16(x));
}

pub(crate) fn push_be32(out: &mut Vec<u8>, x: u32)
    ensures
        final(out)@ == old(out)@ + be32(x),
{
    out.push((x / 0x100_0000) as u8);
    out.push(((x / 0x1_0000) % 256) as u8);
    out.push(((x / 256) % 256) as u8);
    out.push((x % 256) as u8);
    assert(final(out)@ =~= old(out)@ + be32(x));
}

pub(crate) fn push_bytes(out: &mut Vec<u8>, b: &[u8], lo: usize, hi: usize)
    requires
        lo <= hi <= b@.len(),
    ensures
        final(out)@ == old(out)@ + b@.subrange(lo as int, hi as int),
{
    let mut i: usize = lo;
    while i < hi
        invariant
            lo <= i <= hi <= b@.len(),
            out@ == old(out)@ + b@.subrange(lo as int, i as int),
        decreases hi - i,
    {
        out.push(b[i]);
        i = i + 1;
        assert(out@ =~= old(out)@ + b@.subrange(lo as int, i as int));
    }
}

pub(crate) fn push_zeros(out: &mut Vec<u8>, n: usize)
    ensures
        final(out)@ == old(out)@ + zeros(n as nat),
{
    let mut i: usize = 0;
    while i < n
        invariant
            i <= n,
            out@ == old(out)@ + zeros(i as nat),
        decreases n - i,
    {
        out.push(0);
        i = i + 1;
        assert(out@ =~= old(out)@ + zeros(i as nat));
    }
}

fn find_label_len(d: &[u8], pos: usize) -> (r: usize)
    requires
        pos <= d@.len(),
    ensures
        r == label_len(d@.subrange(pos as int, d@.len() as int)),
        pos + r <= d@.len(),
{
    let mut i: usize = pos;
    while i < d.len() && d[i] != 0x2e
        invariant
            pos <= i <= d@.len(),
            label_len(d@.subrange(pos as int, d@.len() as int)) == (i - pos) + label_len(
                d@.subrange(i as int, d@.len() as int),
            ),
        decreases d@.len() - i,
    {
        assert(d@.subrange(i as int, d@.len() as int).drop_first() =~= d@.subrange(
            i + 1,
            d@.len() as int,
        ));
        i = i + 1;
    }
    i - pos
}

fn write_name(out: &mut Vec<u8>, d: &[u8], pos: usize)
    requires
        pos <= d@.len(),
    ensures
        final(out)@ == old(out)@ + enc_name(d@.subrange(pos as int, d@.len() as int)),
    decreases d@.len() - pos,
{
    let ghost t = d@.subrange(pos as int, d@.len() as int);
    let k = find_label_len(d, pos);
    out.push(#[verifier::truncate] (k as u8));
    if k >= d.len() - pos {
        push_bytes(out, d, pos, d.len());
        out.push(0);
        assert(final(out)@ =~= old(out)@ + enc_name(t));
    } else {
        push_bytes(out, d, pos, pos + k);
        assert(t.subrange(0, k as int) =~= d@.subrange(pos as int, (pos + k) as int));
        assert(t.subrange((k + 1) as int, t.len() as int) =~= d@.subrange(
            (pos + k + 1) as int,
            d@.len() as int,
        ));
        write_name(out, d, pos + k + 1);
        assert(final(out)@ =~= old(out)@ + enc_name(t));
    }
}

/// Largest payload an option can carry: the length octet counts units of
/// eight octets, type and length included.
pub const MAX_OPT_PAYLOAD: usize = 2038;

/// The option fits the eight-bit length field.
pub open spec fn opt_fits(o: NdOpt) -> bool {
    opt_payload(o).len() <= MAX_OPT_PAYLOAD
}

fn write_payload(out: &mut Vec<u8>, o: &NDOptionValue)
    ensures
        final(out)@ == old(out)@ + opt_payload(o@),
{
    match o {
        NDOptionValue::SourceLLAddr(a) => {
            push_bytes(out, a.as_slice(), 0, a.len());
            assert(a@.subrange(0, a@.len() as int) =~= a@);
        },
        NDOptionValue::Mtu(m) => {
            out.push(0);
            out.push(0);
            push_be32(out, *m);
            assert(final(out)@ =~= old(out)@ + opt_payload(o@));
        },
        NDOptionValue::Prefix(p) => {
            out.push(p.prefixlen);
            let f: u8 = (if p.onlink { 0x80u8 } else { 0u8 }) + (if p.autonomous { 0x40u8 } else { 0u8 });
            out.push(f);
            push_be32(out, p.valid);
            push_be32(out, p.preferred);
            push_zeros(out, 4);
            push_bytes(out, p.prefix.octets.as_slice(), 0, 16);
            assert(p.prefix.octets@.subrange(0, 16) =~= p.prefix@);
            assert(final(out)@ =~= old(out)@ + opt_payload(o@));
        },
        NDOptionValue::RecursiveDnsServers(lt, servers) => {
            out.push(0);
            out.push(0);
            push_be32(out, *lt);
            let ghost head = out@;
            let mut i: usize = 0;
            while i < servers.len()
                invariant
                    i <= servers@.len(),
                    out@ == head + flatten(addrs_view(servers@.take(i as int))),
                decreases servers@.len() - i,
            {
                let a = &servers[i];
                push_bytes(out, a.octets.as_slice(), 0, 16);
                assert(a.octets@.subrange(0, 16) =~= a@);
                proof {
                    lemma_flatten_push(addrs_view(servers@.take(i as int)), a@);
                    assert(addrs_view(servers@.take(i + 1)) =~= addrs_view(
                        servers@.take(i as int),
                    ).push(a@));
                }
                i = i + 1;
            }
            assert(servers@.take(servers@.len() as int) =~= servers@);
            assert(final(out)@ =~= old(out)@ + opt_payload(o@));
        },
        NDOptionValue::DnsSearchList(lt, names) => {
            out.push(0);
            out.push(0);
            push_be32(out, *lt);
            let ghost head = out@;
            let mut i: usize = 0;
            while i < names.len()
                invariant
                    i <= names@.len(),
                    out@ == head + enc_names(bytes_list_view(names@.take(i as int))),
                decreases names@.len() - i,
            {
                let d = &names[i];
                write_name(out, d.as_slice(), 0);
                assert(d@.subrange(0, d@.len() as int) =~= d@);
                proof {
                    let before = bytes_list_view(names@.take(i as int));
                    lemma_flatten_push(before.map_values(|x: Seq<u8>| enc_name(x)), enc_name(d@));
                    assert(bytes_list_view(names@.take(i + 1)) =~= before.push(d@));
                    assert(before.push(d@).map_values(|x: Seq<u8>| enc_name(x)) =~= before.map_values(
                        |x: Seq<u8>| enc_name(x),
                    ).push(enc_name(d@)));
                }
                i = i + 1;
            }
            assert(names@.take(names@.len() as int) =~= names@);
            assert(final(out)@ =~= old(out)@ + opt_payload(o@));
        },
        NDOptionValue::Pref64(lt, len, prefix) => {
            let plc: u16 = if *len == 96 {
                0
            } else if *len == 64 {
                1
            } else if *len == 56 {
                2
            } else if *len == 48 {
                3
            } else if *len == 40 {
                4
            } else if *len == 32 {
                5
            } else {
                0
            };
            push_be16(out, (*lt / 8) * 8 + plc);
            push_bytes(out, prefix.octets.as_slice(), 0, 12);
            assert(final(out)@ =~= old(out)@ + opt_payload(o@));
        },
        NDOptionValue::CaptivePortal(u) => {
            push_bytes(out, u.as_slice(), 0, u.len());
            assert(u@.subrange(0, u@.len() as int) =~= u@);
        },
    }
}

fn option_type(o: &NDOptionValue) -> (r: u8)
    ensures
        r == opt_type(o@),
{
    match o {
        NDOptionValue::SourceLLAddr(_) => SOURCE_LL_ADDR,
        NDOptionValue::Mtu(_) => MTU,
        NDOptionValue::Prefix(_) => PREFIX_INFO,
        NDOptionValue::RecursiveDnsServers(..) => RDNSS,
        NDOptionValue::DnsSearchList(..) => DNSSL,
        NDOptionValue::Pref64(..) => PREF64,
        NDOptionValue::CaptivePortal(_) => CAPTIVE_PORTAL,
    }
}

/// Appends the wire form of an option, or returns `false` and leaves `out`
/// as it was when the option is too long for its length field.
pub fn write_option(out: &mut Vec<u8>, o: &NDOptionValue) -> (r: bool)
    ensures
        r == opt_fits(o@),
        r ==> final(out)@ == old(out)@ + enc_opt(o@),
        !r ==> final(out)@ == old(out)@,
{
    let mut payload: Vec<u8> = Vec::new();
    write_payload(&mut payload, o);
    assert(payload@ =~= opt_payload(o@));
    if payload.len() > MAX_OPT_PAYLOAD {
        return false;
    }
    let n = payload.len() + 2;
    let total = ((n + 7) / 8) * 8;
    out.push(option_type(o));
    out.push((total / 8) as u8);
    push_bytes(out, payload.as_slice(), 0, payload.len());
    push_zeros(out, total - n);
    assert(payload@.subrange(0, payload@.len() as int) =~= payload@);
    assert(final(out)@ =~= old(out)@ + enc_opt(o@));
    true
}

/// Outcome of decoding one option: a value, an option of a type this codec
/// does not know (skipped), or a malformed known option.
pub enum OptParse {
    Known(NdOpt),
    Skip,
    Bad,
}

/// Decodes a domain name in wire form to its text and the octets it used.
pub open spec fn dec_name(r: Seq<u8>) -> Option<(Seq<u8>, nat)>
    decreases r.len(),
{
    if r.len() == 0 {
        None
    } else if r[0] == 0 {
        Some((Seq::empty(), 1))
    } else if r[0] as int >= r.len() {
        None
    } else {
        let k = r[0] as int;
        let label = r.subrange(1, 1 + k);
        match dec_name(r.subrange(1 + k, r.len() as int)) {
            None => None,
            Some((t, u)) => Some(
                (
                    if t.len() == 0 {
                        label
                    } else {
                        label + seq![0x2eu8] + t
                    },
                    (1 + k + u) as nat,
                ),
            ),
        }
    }
}

/// Decodes the names of a search list; a zero octet where a name would
/// start begins the padding.
pub open spec fn dec_names(r: Seq<u8>) -> Option<Seq<Seq<u8>>>
    decreases r.len(),
{
    if r.len() == 0 || r[0] == 0 {
        Some(Seq::empty())
    } else {
        match dec_name(r) {
            None => None,
            Some((d, u)) => if u == 0 || u > r.len() {
                None
            } else {
                match dec_names(r.subrange(u as int, r.len() as int)) {
                    None => None,
                    Some(ns) => Some(seq![d] + ns),
                }
            },
        }
    }
}

/// `s` without its trailing zero octets.
pub open spec fn strip_zeros(s: Seq<u8>) -> Seq<u8>
    decreases s.len(),
{
    if s.len() > 0 && s.last() == 0 {
        strip_zeros(s.drop_last())
    } else {
        s
    }
}

/// The `n` sixteen-octet addresses at the start of `b`.
pub open spec fn addrs_from(b: Seq<u8>, n: nat) -> Seq<Seq<u8>> {
    Seq::new(n, |i: int| b.subrange(16 * i, 16 * i + 16))
}

/// Decodes one whole option (type, length and body).
pub open spec fn dec_chunk(c: Seq<u8>) -> OptParse {
    let n = c.len() as int;
    if c[0] == SOURCE_LL_ADDR {
        OptParse::Known(NdOpt::SourceLLAddr(c.subrange(2, n)))
    } else if c[0] == MTU {
        OptParse::Known(NdOpt::Mtu(rd32(c, 4)))
    } else if c[0] == PREFIX_INFO {
        if n < 32 {
            OptParse::Bad
        } else {
            OptParse::Known(
                NdOpt::Prefix(
                    c[2],
                    c[3] >= 0x80,
                    (c[3] / 64) % 2 == 1,
                    rd32(c, 4),
                    rd32(c, 8),
                    c.subrange(16, 32),
                ),
            )
        }
    } else if c[0] == RDNSS {
        OptParse::Known(
            NdOpt::Rdnss(rd32(c, 4), addrs_from(c.subrange(8, n), ((n - 8) / 16) as nat)),
        )
    } else if c[0] == DNSSL {
        match dec_names(c.subrange(8, n)) {
            Some(ns) => OptParse::Known(NdOpt::Dnssl(rd32(c, 4), ns)),
            None => OptParse::Bad,
        }
    } else if c[0] == PREF64 {
        let f = rd16(c, 2);
        if n < 16 || f % 8 > 5 {
            OptParse::Bad
        } else {
            OptParse::Known(
                NdOpt::Pref64(((f / 8) * 8) as u16, plc_len(f % 8), c.subrange(4, 16) + zeros(4)),
            )
        }
    } else if c[0] == CAPTIVE_PORTAL {
        OptParse::Known(NdOpt::CaptivePortal(strip_zeros(c.subrange(2, n))))
    } else {
        OptParse::Skip
    }
}

/// Decodes a run of options. Unknown types are skipped; a truncated or
/// zero-length option, or a malformed known one, fails the whole run.
pub open spec fn dec_opts(b: Seq<u8>) -> Option<Seq<NdOpt>>
    decreases b.len(),
{
    if b.len() == 0 {
        Some(Seq::empty())
    } else if b.len() < 2 {
        None
    } else {
        let n = b[1] as int * 8;
        if n == 0 || n > b.len() {
            None
        } else {
            let rest = dec_opts(b.subrange(n, b.len() as int));
            match dec_chunk(b.subrange(0, n)) {
                OptParse::Bad => None,
                OptParse::Skip => rest,
                OptParse::Known(o) => match rest {
                    None => None,
                    Some(os) => Some(seq![o] + os),
                },
            }
        }
    }
}

/// An option that decodes back to itself: it fits its length field and
/// holds only what the wire form can carry.
pub open spec fn valid_opt(o: NdOpt) -> bool {
    &&& opt_fits(o)
    &&& match o {
        NdOpt::SourceLLAddr(a) => (a.len() + 2) % 8 == 0,
        NdOpt::Mtu(_) => true,
        NdOpt::Prefix(_, _, _, _, _, pre) => pre.len() == 16,
        NdOpt::Rdnss(_, addrs) => forall|i: int| 0 <= i < addrs.len() ==> #[trigger] addrs[i].len() == 16,
        NdOpt::Dnssl(_, names) => forall|i: int| 0 <= i < names.len() ==> valid_name(#[trigger] names[i]),
        NdOpt::Pref64(lt, len, pre) => {
            &&& lt % 8 == 0
            &&& (len == 96 || len == 64 || len == 56 || len == 48 || len == 40 || len == 32)
            &&& pre.len() == 16
            &&& pre.subrange(12, 16) == zeros(4)
        },
        NdOpt::CaptivePortal(u) => u.len() == 0 || u.last() != 0,
    }
}

proof fn lemma_rd16(x: u16, b: Seq<u8>, i: int)
    requires
        0 <= i,
        i + 2 <= b.len(),
        b.subrange(i, i + 2) == be16(x),
    ensures
        rd16(b, i) == x,
{
    assert(b[i] == b.subrange(i, i + 2)[0]);
    assert(b[i + 1] == b.subrange(i, i + 2)[1]);
}

proof fn lemma_rd32(x: u32, b: Seq<u8>, i: int)
    requires
        0 <= i,
        i + 4 <= b.len(),
        b.subrange(i, i + 4) == be32(x),
    ensures
        rd32(b, i) == x,
{
    assert(b[i] == b.subrange(i, i + 4)[0]);
    assert(b[i + 1] == b.subrange(i, i + 4)[1]);
    assert(b[i + 2] == b.subrange(i, i + 4)[2]);
    assert(b[i + 3] == b.subrange(i, i + 4)[3]);
    let x = x as int;
    assert(((x / 0x100_0000 * 256 + (x / 0x1_0000) % 256) * 256 + (x / 256) % 256) * 256 + x % 256
        == x) by (nonlinear_arith)
        requires
            0 <= x < 0x1_0000_0000,
    ;
}

proof fn lemma_label_len(d: Seq<u8>)
    ensures
        label_len(d) <= d.len(),
        forall|i: int| 0 <= i < label_len(d) ==> d[i] != 0x2e,
        label_len(d) < d.len() ==> d[label_len(d) as int] == 0x2e,
    decreases d.len(),
{
    if d.len() > 0 && d[0] != 0x2e {
        let t = d.drop_first();
        lemma_label_len(t);
        assert forall|i: int| 0 <= i < label_len(d) implies d[i] != 0x2e by {
            if i > 0 {
                assert(d[i] == t[i - 1]);
            }
        }
    }
}

proof fn lemma_name_round_trip(d: Seq<u8>, tail: Seq<u8>)
    requires
        valid_name(d),
    ensures
        dec_name(enc_name(d) + tail) == Some((d, enc_name(d).len())),
        enc_name(d).len() >= 2,
        (enc_name(d) + tail)[0] != 0,
    decreases d.len(),
{
    let k = label_len(d);
    lemma_label_len(d);
    let r = enc_name(d) + tail;
    if k >= d.len() {
        assert(r.subrange(1, 1 + k as int) =~= d);
        let r2 = r.subrange(1 + k as int, r.len() as int);
        assert(r2[0] == 0);
        assert(dec_name(r2) == Some((Seq::<u8>::empty(), 1nat)));
    } else {
        let d2 = d.subrange((k + 1) as int, d.len() as int);
        lemma_name_round_trip(d2, tail);
        lemma_label_len(d2);
        assert(r.subrange(1, 1 + k as int) =~= d.subrange(0, k as int));
        assert(r.subrange(1 + k as int, r.len() as int) =~= enc_name(d2) + tail);
        assert(d.subrange(0, k as int) + seq![0x2eu8] + d2 =~= d);
    }
}

proof fn lemma_map_drop_first<A, B>(s: Seq<A>, f: spec_fn(A) -> B)
    requires
        s.len() > 0,
    ensures
        s.map_values(f).drop_first() == s.drop_first().map_values(f),
        s.map_values(f)[0] == f(s[0]),
{
    assert(s.map_values(f).drop_first() =~= s.drop_first().map_values(f));
}

proof fn lemma_names_round_trip(ns: Seq<Seq<u8>>, m: nat)
    requires
        forall|i: int| 0 <= i < ns.len() ==> valid_name(#[trigger] ns[i]),
    ensures
        dec_names(enc_names(ns) + zeros(m)) == Some(ns),
    decreases ns.len(),
{
    let r = enc_names(ns) + zeros(m);
    if ns.len() == 0 {
        assert(enc_names(ns) =~= Seq::<u8>::empty());
        assert(r =~= zeros(m));
        if r.len() > 0 {
            assert(r[0] == 0);
        }
        assert(ns =~= Seq::<Seq<u8>>::empty());
    } else {
        let f = |x: Seq<u8>| enc_name(x);
        lemma_map_drop_first(ns, f);
        let rest = ns.drop_first();
        assert(enc_names(ns) == enc_name(ns[0]) + enc_names(rest));
        assert(r =~= enc_name(ns[0]) + (enc_names(rest) + zeros(m)));
        lemma_name_round_trip(ns[0], enc_names(rest) + zeros(m));
        let u = enc_name(ns[0]).len();
        assert(r.subrange(u as int, r.len() as int) =~= enc_names(rest) + zeros(m));
        assert forall|i: int| 0 <= i < rest.len() implies valid_name(#[trigger] rest[i]) by {
            assert(rest[i] == ns[i + 1]);
        }
        lemma_names_round_trip(rest, m);
        assert(seq![ns[0]] + rest =~= ns);
    }
}

proof fn lemma_strip_round_trip(u: Seq<u8>, m: nat)
    requires
        u.len() == 0 || u.last() != 0,
    ensures
        strip_zeros(u + zeros(m)) == u,
    decreases m,
{
    if m > 0 {
        assert((u + zeros(m)).drop_last() =~= u + zeros((m - 1) as nat));
        lemma_strip_round_trip(u, (m - 1) as nat);
    } else {
        assert(u + zeros(0) =~= u);
    }
}

proof fn lemma_flatten_uniform(s: Seq<Seq<u8>>)
    requires
        forall|i: int| 0 <= i < s.len() ==> #[trigger] s[i].len() == 16,
    ensures
        flatten(s).len() == 16 * s.len(),
        forall|i: int| 0 <= i < s.len() ==> flatten(s).subrange(16 * i, 16 * i + 16) == s[i],
    decreases s.len(),
{
    if s.len() > 0 {
        let t = s.drop_first();
        assert forall|i: int| 0 <= i < t.len() implies #[trigger] t[i].len() == 16 by {
            assert(t[i] == s[i + 1]);
        }
        lemma_flatten_uniform(t);
        assert(s[0].len() == 16);
        assert forall|i: int| 0 <= i < s.len() implies flatten(s).subrange(16 * i, 16 * i + 16)
            == s[i] by {
            if i == 0 {
                assert(flatten(s).subrange(0, 16) =~= s[0]);
            } else {
                assert(flatten(t).subrange(16 * (i - 1), 16 * (i - 1) + 16) == t[i - 1]);
                assert(flatten(s).subrange(16 * i, 16 * i + 16) =~= flatten(t).subrange(
                    16 * (i - 1),
                    16 * (i - 1) + 16,
                ));
            }
        }
    }
}

proof fn lemma_framed(ty: u8, p: Seq<u8>)
    requires
        p.len() <= MAX_OPT_PAYLOAD,
    ensures
        framed(ty, p).len() == pad8(p.len() + 2),
        framed(ty, p).len() == framed(ty, p)[1] as int * 8,
        framed(ty, p).len() >= 8,
        framed(ty, p)[0] == ty,
        framed(ty, p).subrange(2, 2 + p.len() as int) == p,
        framed(ty, p).subrange(2 + p.len() as int, framed(ty, p).len() as int) == zeros(
            (pad8(p.len() + 2) - p.len() - 2) as nat,
        ),
{
    let total = pad8(p.len() + 2);
    assert(total / 8 <= 255);
    let f = framed(ty, p);
    assert(f.subrange(2, 2 + p.len() as int) =~= p);
    assert(f.subrange(2 + p.len() as int, f.len() as int) =~= zeros((total - p.len() - 2) as nat));
}

/// Decoding the wire form of a valid option gives the option back.
#[verifier::spinoff_prover]
#[verifier::rlimit(60)]
pub proof fn lemma_option_round_trip(o: NdOpt)
    requires
        valid_opt(o),
    ensures
        dec_chunk(enc_opt(o)) == OptParse::Known(o),
        enc_opt(o).len() == enc_opt(o)[1] as int * 8,
        enc_opt(o).len() >= 8,
{
    let p = opt_payload(o);
    let c = enc_opt(o);
    lemma_framed(opt_type(o), p);
    let n = c.len() as int;
    match o {
        NdOpt::SourceLLAddr(a) => {
            assert(c.subrange(2, n) =~= a);
        },
        NdOpt::Mtu(m) => {
            assert(c.subrange(4, 8) =~= be32(m));
            lemma_rd32(m, c, 4);
        },
        NdOpt::Prefix(len, l, a, v, pf, pre) => {
            assert(c.subrange(4, 8) =~= be32(v));
            assert(c.subrange(8, 12) =~= be32(pf));
            assert(c.subrange(16, 32) =~= pre);
            lemma_rd32(v, c, 4);
            lemma_rd32(pf, c, 8);
        },
        NdOpt::Rdnss(lt, addrs) => {
            lemma_flatten_uniform(addrs);
            assert(c.subrange(4, 8) =~= be32(lt));
            lemma_rd32(lt, c, 4);
            let body = c.subrange(8, n);
            assert(body =~= flatten(addrs));
            assert(addrs_from(body, ((n - 8) / 16) as nat) =~= addrs);
        },
        NdOpt::Dnssl(lt, names) => {
            assert(c.subrange(4, 8) =~= be32(lt));
            lemma_rd32(lt, c, 4);
            let m = (pad8(p.len() + 2) - p.len() - 2) as nat;
            assert(c.subrange(8, n) =~= enc_names(names) + zeros(m));
            lemma_names_round_trip(names, m);
        },
        NdOpt::Pref64(lt, len, pre) => {
            let f = ((lt / 8) * 8 + plc_of(len)) as u16;
            assert(c.subrange(2, 4) =~= be16(f));
            lemma_rd16(f, c, 2);
            assert(c.subrange(4, 16) + zeros(4) =~= pre);
        },
        NdOpt::CaptivePortal(u) => {
            let m = (pad8(p.len() + 2) - p.len() - 2) as nat;
            assert(c.subrange(2, n) =~= u + zeros(m));
            lemma_strip_round_trip(u, m);
        },
    }
}

/// Decoding the wire form of a list of valid options gives the list back,
/// in the same order.
pub proof fn lemma_options_round_trip(os: Seq<NdOpt>)
    requires
        forall|i: int| 0 <= i < os.len() ==> valid_opt(#[trigger] os[i]),
    ensures
        dec_opts(enc_opts(os)) == Some(os),
    decreases os.len(),
{
    if os.len() == 0 {
        assert(enc_opts(os) =~= Seq::<u8>::empty());
        assert(os =~= Seq::<NdOpt>::empty());
    } else {
        let f = |o: NdOpt| enc_opt(o);
        lemma_map_drop_first(os, f);
        let rest = os.drop_first();
        let b = enc_opts(os);
        assert(b == enc_opt(os[0]) + enc_opts(rest));
        lemma_option_round_trip(os[0]);
        let n = enc_opt(os[0]).len() as int;
        assert(b[1] == enc_opt(os[0])[1]);
        assert(b.subrange(0, n) =~= enc_opt(os[0]));
        assert(b.subrange(n, b.len() as int) =~= enc_opts(rest));
        assert forall|i: int| 0 <= i < rest.len() implies valid_opt(#[trigger] rest[i]) by {
            assert(rest[i] == os[i + 1]);
        }
        lemma_options_round_trip(rest);
        assert(seq![os[0]] + rest =~= os);
    }
}

fn parse_name(b: &[u8], pos: usize, hi: usize) -> (r: Option<(Vec<u8>, usize)>)
    requires
        pos <= hi <= b@.len(),
    ensures
        r is None <==> dec_name(b@.subrange(pos as int, hi as int)) is None,
        r matches Some((t, u)) ==> dec_name(b@.subrange(pos as int, hi as int)) == Some(
            (t@, u as nat),
        ) && 1 <= u <= hi - pos,
    decreases hi - pos,
{
    let ghost r = b@.subrange(pos as int, hi as int);
    if pos >= hi {
        return None;
    }
    let k = b[pos] as usize;
    if k == 0 {
        return Some((Vec::new(), 1));
    }
    if k >= hi - pos {
        return None;
    }
    let next = pos + 1 + k;
    assert(r.subrange(1 + k as int, r.len() as int) =~= b@.subrange(next as int, hi as int));
    assert(r.subrange(1, 1 + k as int) =~= b@.subrange(pos + 1, next as int));
    match parse_name(b, next, hi) {
        None => None,
        Some((t, u)) => {
            let mut text: Vec<u8> = Vec::new();
            push_bytes(&mut text, b, pos + 1, next);
            if t.len() > 0 {
                text.push(0x2e);
                push_bytes(&mut text, t.as_slice(), 0, t.len());
                assert(t@.subrange(0, t@.len() as int) =~= t@);
            }
            assert(text@ =~= (if t@.len() == 0 {
                r.subrange(1, 1 + k as int)
            } else {
                r.subrange(1, 1 + k as int) + seq![0x2eu8] + t@
            }));
            Some((text, 1 + k + u))
        },
    }
}

fn parse_names(b: &[u8], lo: usize, hi: usize) -> (r: Option<Vec<Vec<u8>>>)
    requires
        lo <= hi <= b@.len(),
    ensures
        r is None <==> dec_names(b@.subrange(lo as int, hi as int)) is None,
        r matches Some(ns) ==> dec_names(b@.subrange(lo as int, hi as int)) == Some(
            bytes_list_view(ns@),
        ),
{
    let mut acc: Vec<Vec<u8>> = Vec::new();
    let mut p: usize = lo;
    while p < hi && b[p] != 0
        invariant
            lo <= p <= hi <= b@.len(),
            dec_names(b@.subrange(lo as int, hi as int)) == match dec_names(
                b@.subrange(p as int, hi as int),
            ) {
                None => None,
                Some(ns) => Some(bytes_list_view(acc@) + ns),
            },
        decreases hi - p,
    {
        let ghost r = b@.subrange(p as int, hi as int);
        match parse_name(b, p, hi) {
            None => {
                return None;
            },
            Some((d, u)) => {
                assert(r.subrange(u as int, r.len() as int) =~= b@.subrange(
                    (p + u) as int,
                    hi as int,
                ));
                let ghost before = bytes_list_view(acc@);
                acc.push(d);
                assert(bytes_list_view(acc@) =~= before.push(d@));
                assert(forall|ns: Seq<Seq<u8>>| before + (seq![d@] + ns) =~= before.push(d@) + ns);
                p = p + u;
            },
        }
    }
    proof {
        let r = b@.subrange(p as int, hi as int);
        assert(dec_names(r) == Some(Seq::<Seq<u8>>::empty()));
        assert(bytes_list_view(acc@) + Seq::<Seq<u8>>::empty() =~= bytes_list_view(acc@));
    }
    Some(acc)
}

fn strip_trailing_zeros(b: &[u8], lo: usize, hi: usize) -> (r: Vec<u8>)
    requires
        lo <= hi <= b@.len(),
    ensures
        r@ == strip_zeros(b@.subrange(lo as int, hi as int)),
{
    let mut j: usize = hi;
    while j > lo && b[j - 1] == 0
        invariant
            lo <= j <= hi <= b@.len(),
            strip_zeros(b@.subrange(lo as int, hi as int)) == strip_zeros(
                b@.subrange(lo as int, j as int),
            ),
        decreases j - lo,
    {
        assert(b@.subrange(lo as int, j as int).drop_last() =~= b@.subrange(
            lo as int,
            j - 1,
        ));
        j = j - 1;
    }
    let mut out: Vec<u8> = Vec::new();
    push_bytes(&mut out, b, lo, j);
    assert(out@ =~= b@.subrange(lo as int, j as int));
    out
}

fn ip6_at(b: &[u8], pos: usize) -> (r: Ip6Addr)
    requires
        pos + 16 <= b@.len(),
    ensures
        r@ == b@.subrange(pos as int, pos + 16),
{
    let r = Ip6Addr {
        octets: [
            b[pos],
            b[pos + 1],
            b[pos + 2],
            b[pos + 3],
            b[pos + 4],
            b[pos + 5],
            b[pos + 6],
            b[pos + 7],
            b[pos + 8],
            b[pos + 9],
            b[pos + 10],
            b[pos + 11],
            b[pos + 12],
            b[pos + 13],
            b[pos + 14],
            b[pos + 15],
        ],
    };
    assert(r@ =~= b@.subrange(pos as int, pos + 16));
    r
}

pub(crate) fn rd16_at(b: &[u8], i: usize) -> (r: u16)
    requires
        i + 2 <= b@.len(),
    ensures
        r == rd16(b@, i as int),
{
    (b[i] as u16) * 256 + b[i + 1] as u16
}

pub(crate) fn rd32_at(b: &[u8], i: usize) -> (r: u32)
    requires
        i + 4 <= b@.len(),
    ensures
        r == rd32(b@, i as int),
{
    (((b[i] as u32) * 256 + b[i + 1] as u32) * 256 + b[i + 2] as u32) * 256 + b[i + 3] as u32
}

/// Result of decoding one option.
pub enum ParsedOption {
    Known(NDOptionValue),
    Skip,
    Bad,
}

pub open spec fn parsed_view(p: ParsedOption) -> OptParse {
    match p {
        ParsedOption::Known(o) => OptParse::Known(o@),
        ParsedOption::Skip => OptParse::Skip,
        ParsedOption::Bad => OptParse::Bad,
    }
}

/// Decodes the whole option held in `b[lo..hi]`, of at least eight octets.
pub fn parse_option(b: &[u8], lo: usize, hi: usize) -> (r: ParsedOption)
    requires
        lo + 8 <= hi <= b@.len(),
    ensures
        parsed_view(r) == dec_chunk(b@.subrange(lo as int, hi as int)),
{
    let ghost c = b@.subrange(lo as int, hi as int);
    let n = hi - lo;
    let ty = b[lo];
    assert(c[0] == ty);
    assert(rd32(c, 4) == rd32(b@, lo + 4));
    if ty == SOURCE_LL_ADDR {
        let mut a: Vec<u8> = Vec::new();
        push_bytes(&mut a, b, lo + 2, hi);
        assert(a@ =~= c.subrange(2, n as int));
        ParsedOption::Known(NDOptionValue::SourceLLAddr(a))
    } else if ty == MTU {
        ParsedOption::Known(NDOptionValue::Mtu(rd32_at(b, lo + 4)))
    } else if ty == PREFIX_INFO {
        if n < 32 {
            ParsedOption::Bad
        } else {
            assert(rd32(c, 8) == rd32(b@, lo + 8));
            let flags = b[lo + 3];
            let prefix = ip6_at(b, lo + 16);
            assert(prefix@ =~= c.subrange(16, 32));
            ParsedOption::Known(
                NDOptionValue::Prefix(
                    AdvPrefix {
                        prefixlen: b[lo + 2],
                        onlink: flags >= 0x80,
                        autonomous: (flags / 64) % 2 == 1,
                        valid: rd32_at(b, lo + 4),
                        preferred: rd32_at(b, lo + 8),
                        prefix,
                    },
                ),
            )
        }
    } else if ty == RDNSS {
        let count = (n - 8) / 16;
        let lifetime = rd32_at(b, lo + 4);
        let mut servers: Vec<Ip6Addr> = Vec::new();
        let mut i: usize = 0;
        while i < count
            invariant
                i <= count,
                count == (n - 8) / 16,
                lo + 8 <= hi <= b@.len(),
                n == hi - lo,
                c == b@.subrange(lo as int, hi as int),
                addrs_view(servers@) =~= addrs_from(c.subrange(8, n as int), i as nat),
            decreases count - i,
        {
            let a = ip6_at(b, lo + 8 + 16 * i);
            assert(a@ =~= c.subrange(8, n as int).subrange(16 * i, 16 * i + 16));
            let ghost before = servers@;
            servers.push(a);
            assert(addrs_view(servers@) =~= addrs_view(before).push(a@));
            assert(addrs_from(c.subrange(8, n as int), (i + 1) as nat) =~= addrs_from(
                c.subrange(8, n as int),
                i as nat,
            ).push(a@));
            i = i + 1;
        }
        ParsedOption::Known(NDOptionValue::RecursiveDnsServers(lifetime, servers))
    } else if ty == DNSSL {
        assert(c.subrange(8, n as int) =~= b@.subrange(lo + 8, hi as int));
        match parse_names(b, lo + 8, hi) {
            Some(ns) => ParsedOption::Known(NDOptionValue::DnsSearchList(rd32_at(b, lo + 4), ns)),
            None => ParsedOption::Bad,
        }
    } else if ty == PREF64 {
        let f = rd16_at(b, lo + 2);
        assert(rd16(c, 2) == f);
        if n < 16 || f % 8 > 5 {
            ParsedOption::Bad
        } else {
            let plc = f % 8;
            let len: u8 = if plc == 0 {
                96
            } else if plc == 1 {
                64
            } else if plc == 2 {
                56
            } else if plc == 3 {
                48
            } else if plc == 4 {
                40
            } else {
                32
            };
            let prefix = Ip6Addr {
                octets: [
                    b[lo + 4],
                    b[lo + 5],
                    b[lo + 6],
                    b[lo + 7],
                    b[lo + 8],
                    b[lo + 9],
                    b[lo + 10],
                    b[lo + 11],
                    b[lo + 12],
                    b[lo + 13],
                    b[lo + 14],
                    b[lo + 15],
                    0,
                    0,
                    0,
                    0,
                ],
            };
            assert(prefix@ =~= c.subrange(4, 16) + zeros(4));
            ParsedOption::Known(NDOptionValue::Pref64((f / 8) * 8, len, prefix))
        }
    } else if ty == CAPTIVE_PORTAL {
        assert(c.subrange(2, n as int) =~= b@.subrange(lo + 2, hi as int));
        ParsedOption::Known(NDOptionValue::CaptivePortal(strip_trailing_zeros(b, lo + 2, hi)))
    } else {
        ParsedOption::Skip
    }
}

/// An ordered list of options, emitted in the order they were added.
#[derive(Debug)]
pub struct NDOptions {
    pub options: Vec<NDOptionValue>,
}

pub open spec fn opts_view(v: Seq<NDOptionValue>) -> Seq<NdOpt> {
    v.map_values(|o: NDOptionValue| o@)
}

impl View for NDOptions {
    type V = Seq<NdOpt>;

    open spec fn view(&self) -> Seq<NdOpt> {
        opts_view(self.options@)
    }
}

/// Holds of the options of type `ty`.
pub open spec fn of_type(ty: u8) -> spec_fn(NdOpt) -> bool {
    |o: NdOpt| opt_type(o) == ty
}

impl NDOptionValue {
    /// A copy of the option.
    pub fn duplicate(&self) -> (r: NDOptionValue)
        ensures
            r@ == self@,
    {
        match self {
            NDOptionValue::SourceLLAddr(a) => NDOptionValue::SourceLLAddr(
                vstd::slice::slice_to_vec(a.as_slice()),
            ),
            NDOptionValue::Mtu(m) => NDOptionValue::Mtu(*m),
            NDOptionValue::Prefix(p) => NDOptionValue::Prefix(*p),
            NDOptionValue::RecursiveDnsServers(l, s) => NDOptionValue::RecursiveDnsServers(
                *l,
                vstd::slice::slice_to_vec(s.as_slice()),
            ),
            NDOptionValue::DnsSearchList(l, s) => {
                let mut out: Vec<Vec<u8>> = Vec::new();
                let mut i: usize = 0;
                while i < s.len()
                    invariant
                        i <= s@.len(),
                        bytes_list_view(out@) =~= bytes_list_view(s@.take(i as int)),
                    decreases s@.len() - i,
                {
                    let ghost before = out@;
                    out.push(vstd::slice::slice_to_vec(s[i].as_slice()));
                    assert(bytes_list_view(out@) =~= bytes_list_view(before).push(s@[i as int]@));
                    assert(s@.take(i + 1) =~= s@.take(i as int).push(s@[i as int]));
                    i = i + 1;
                }
                assert(s@.take(s@.len() as int) =~= s@);
                NDOptionValue::DnsSearchList(*l, out)
            },
            NDOptionValue::Pref64(l, n, p) => NDOptionValue::Pref64(*l, *n, *p),
            NDOptionValue::CaptivePortal(u) => NDOptionValue::CaptivePortal(
                vstd::slice::slice_to_vec(u.as_slice()),
            ),
        }
    }
}

impl NDOptions {
    /// An empty list.
    pub fn new() -> (r: NDOptions)
        ensures
            r@ == Seq::<NdOpt>::empty(),
    {
        let r = NDOptions { options: Vec::new() };
        assert(r@ =~= Seq::<NdOpt>::empty());
        r
    }

    /// Appends an option at the end.
    pub fn add_option(&mut self, o: NDOptionValue)
        ensures
            final(self)@ == old(self)@.push(o@),
    {
        self.options.push(o);
        assert(final(self)@ =~= old(self)@.push(o@));
    }

    /// The options of the given type, in order.
    pub fn find_option(&self, ty: u8) -> (r: Vec<NDOptionValue>)
        ensures
            opts_view(r@) == self@.filter(of_type(ty)),
    {
        let ghost pred = of_type(ty);
        let mut out: Vec<NDOptionValue> = Vec::new();
        let mut i: usize = 0;
        while i < self.options.len()
            invariant
                i <= self.options@.len(),
                pred == of_type(ty),
                opts_view(out@) == opts_view(self.options@.take(i as int)).filter(pred),
            decreases self.options@.len() - i,
        {
            let o = &self.options[i];
            proof {
                assert(opts_view(self.options@.take(i + 1)) =~= opts_view(
                    self.options@.take(i as int),
                ).push(o@));
                opts_view(self.options@.take(i as int)).lemma_filter_push(o@, pred);
            }
            let ghost before = out@;
            if option_type(o) == ty {
                out.push(o.duplicate());
                assert(opts_view(out@) =~= opts_view(before).push(o@));
                assert(pred(o@));
            } else {
                assert(!pred(o@));
            }
            assert(opts_view(out@) == opts_view(self.options@.take(i + 1)).filter(pred));
            i = i + 1;
        }
        assert(self.options@.take(self.options@.len() as int) =~= self.options@);
        out
    }
}

/// Decodes the options held in `b[lo..hi]`.
pub fn parse_options(b: &[u8], lo: usize, hi: usize) -> (r: Option<NDOptions>)
    requires
        lo <= hi <= b@.len(),
    ensures
        r is None <==> dec_opts(b@.subrange(lo as int, hi as int)) is None,
        r matches Some(os) ==> dec_opts(b@.subrange(lo as int, hi as int)) == Some(os@),
{
    let mut acc = NDOptions::new();
    let mut p: usize = lo;
    while p < hi
        invariant
            lo <= p <= hi <= b@.len(),
            dec_opts(b@.subrange(lo as int, hi as int)) == match dec_opts(
                b@.subrange(p as int, hi as int),
            ) {
                None => None,
                Some(os) => Some(acc@ + os),
            },
        decreases hi - p,
    {
        let ghost r = b@.subrange(p as int, hi as int);
        if hi - p < 2 {
            return None;
        }
        let n = b[p + 1] as usize * 8;
        if n == 0 || n > hi - p {
            return None;
        }
        assert(r[1] == b@[p + 1]);
        assert(r.subrange(0, n as int) =~= b@.subrange(p as int, (p + n) as int));
        assert(r.subrange(n as int, r.len() as int) =~= b@.subrange((p + n) as int, hi as int));
        match parse_option(b, p, p + n) {
            ParsedOption::Bad => {
                return None;
            },
            ParsedOption::Skip => {},
            ParsedOption::Known(o) => {
                let ghost before = acc@;
                acc.add_option(o);
                assert(forall|os: Seq<NdOpt>| before + (seq![o@] + os) =~= before.push(o@) + os);
            },
        }
        p = p + n;
    }
    proof {
        assert(dec_opts(b@.subrange(p as int, hi as int)) == Some(Seq::<NdOpt>::empty()));
        assert(acc@ + Seq::<NdOpt>::empty() =~= acc@);
    }
    Some(acc)
}

/// Every option fits its length field.
pub open spec fn all_fit(os: Seq<NdOpt>) -> bool {
    forall|i: int| 0 <= i < os.len() ==> opt_fits(#[trigger] os[i])
}

/// Appends the wire form of the options, or returns `false` when one of
/// them is too long for its length field.
pub fn write_options(out: &mut Vec<u8>, os: &NDOptions) -> (r: bool)
    ensures
        r == all_fit(os@),
        r ==> final(out)@ == old(out)@ + enc_opts(os@),
{
    let ghost f = |o: NdOpt| enc_opt(o);
    let mut i: usize = 0;
    while i < os.options.len()
        invariant
            i <= os.options@.len(),
            f == (|o: NdOpt| enc_opt(o)),
            forall|j: int| 0 <= j < i ==> opt_fits(#[trigger] os@[j]),
            out@ == old(out)@ + flatten(os@.take(i as int).map_values(f)),
        decreases os.options@.len() - i,
    {
        let o = &os.options[i];
        assert(os@[i as int] == o@);
        if !write_option(out, o) {
            return false;
        }
        proof {
            lemma_flatten_push(os@.take(i as int).map_values(f), enc_opt(o@));
            assert(os@.take(i + 1).map_values(f) =~= os@.take(i as int).map_values(f).push(
                enc_opt(o@),
            ));
        }
        i = i + 1;
    }
    assert(os@.take(os@.len() as int) =~= os@);
    true
}

/// A router advertisement. The router lifetime is in seconds, the
/// reachable time and retransmission timer in milliseconds.
#[derive(Debug)]
pub struct RtrAdvertisement {
    pub hop_limit: u8,
    pub flag_managed: bool,
    pub flag_other: bool,
    pub lifetime: u16,
    pub reachable: u32,
    pub retrans: u32,
    pub options: NDOptions,
}

/// A message of the neighbour discovery protocol.
#[derive(Debug)]
pub enum Icmp6 {
    Unknown,
    RtrSolicit(NDOptions),
    RtrAdvert(RtrAdvertisement),
}

/// The mathematical value of a message.
pub enum Icmp6View {
    Unknown,
    RtrSolicit(Seq<NdOpt>),
    /// Hop limit, managed flag, other flag, lifetime, reachable time,
    /// retransmission timer, options.
    RtrAdvert(u8, bool, bool, u16, u32, u32, Seq<NdOpt>),
}

impl View for Icmp6 {
    type V = Icmp6View;

    open spec fn view(&self) -> Icmp6View {
        match self {
            Icmp6::Unknown => Icmp6View::Unknown,
            Icmp6::RtrSolicit(o) => Icmp6View::RtrSolicit(o@),
            Icmp6::RtrAdvert(a) => Icmp6View::RtrAdvert(
                a.hop_limit,
                a.flag_managed,
                a.flag_other,
                a.lifetime,
                a.reachable,
                a.retrans,
                a.options@,
            ),
        }
    }
}

/// The wire form of a message. The checksum is left zero: the kernel fills
/// it in for ICMPv6 raw sockets.
pub open spec fn enc_msg(m: Icmp6View) -> Seq<u8> {
    match m {
        Icmp6View::Unknown => Seq::empty(),
        Icmp6View::RtrSolicit(os) => seq![ROUTER_SOLICIT, 0u8, 0u8, 0u8, 0u8, 0u8, 0u8, 0u8]
            + enc_opts(os),
        Icmp6View::RtrAdvert(hop, m, o, lt, reach, retrans, os) => seq![
            ROUTER_ADVERT,
            0u8,
            0u8,
            0u8,
            hop,
            prefix_flags(m, o),
        ] + be16(lt) + be32(reach) + be32(retrans) + enc_opts(os),
    }
}

/// Why a message could not be decoded.
#[derive(Clone, Copy, Debug, PartialEq, Eq, Structural)]
pub enum ParseError {
    /// Shorter than the fixed part of its type.
    Truncated,
    /// An option is truncated, has length zero, or is malformed.
    BadOption,
}

/// Decodes a message; `Err` carries why it could not be.
pub open spec fn dec_msg(b: Seq<u8>) -> Result<Icmp6View, ParseError> {
    if b.len() < 4 {
        Err(ParseError::Truncated)
    } else if b[0] == ROUTER_SOLICIT {
        if b.len() < 8 {
            Err(ParseError::Truncated)
        } else {
            match dec_opts(b.subrange(8, b.len() as int)) {
                Some(os) => Ok(Icmp6View::RtrSolicit(os)),
                None => Err(ParseError::BadOption),
            }
        }
    } else if b[0] == ROUTER_ADVERT {
        if b.len() < 16 {
            Err(ParseError::Truncated)
        } else {
            match dec_opts(b.subrange(16, b.len() as int)) {
                Some(os) => Ok(
                    Icmp6View::RtrAdvert(
                        b[4],
                        b[5] >= 0x80,
                        (b[5] / 64) % 2 == 1,
                        rd16(b, 6),
                        rd32(b, 8),
                        rd32(b, 12),
                        os,
                    ),
                ),
                None => Err(ParseError::BadOption),
            }
        }
    } else {
        Ok(Icmp6View::Unknown)
    }
}

/// The message is a solicitation or an advertisement whose options all fit
/// their length fields.
pub open spec fn msg_fits(m: Icmp6View) -> bool {
    match m {
        Icmp6View::Unknown => false,
        Icmp6View::RtrSolicit(os) => all_fit(os),
        Icmp6View::RtrAdvert(_, _, _, _, _, _, os) => all_fit(os),
    }
}

fn serialise_solicit(os: &NDOptions) -> (r: Option<Vec<u8>>)
    ensures
        r is Some <==> all_fit(os@),
        r matches Some(b) ==> b@ == enc_msg(Icmp6View::RtrSolicit(os@)),
{
    let mut out: Vec<u8> = Vec::new();
    out.push(ROUTER_SOLICIT);
    push_zeros(&mut out, 7);
    if write_options(&mut out, os) {
        assert(out@ =~= enc_msg(Icmp6View::RtrSolicit(os@)));
        Some(out)
    } else {
        None
    }
}

fn serialise_advert(a: &RtrAdvertisement) -> (r: Option<Vec<u8>>)
    ensures
        r is Some <==> all_fit(a.options@),
        r matches Some(b) ==> b@ == enc_msg(
            Icmp6View::RtrAdvert(
                a.hop_limit,
                a.flag_managed,
                a.flag_other,
                a.lifetime,
                a.reachable,
                a.retrans,
                a.options@,
            ),
        ),
{
    let mut out: Vec<u8> = Vec::new();
    out.push(ROUTER_ADVERT);
    push_zeros(&mut out, 3);
    out.push(a.hop_limit);
    let f: u8 = (if a.flag_managed { 0x80u8 } else { 0u8 }) + (if a.flag_other { 0x40u8 } else { 0u8 });
    out.push(f);
    push_be16(&mut out, a.lifetime);
    push_be32(&mut out, a.reachable);
    push_be32(&mut out, a.retrans);
    if write_options(&mut out, &a.options) {
        assert(out@ =~= enc_msg(
            Icmp6View::RtrAdvert(
                a.hop_limit,
                a.flag_managed,
                a.flag_other,
                a.lifetime,
                a.reachable,
                a.retrans,
                a.options@,
            ),
        ));
        Some(out)
    } else {
        None
    }
}

/// Encodes a solicitation or an advertisement. `None` for `Unknown`, and
/// when an option is too long for its length field.
pub fn serialise(msg: &Icmp6) -> (r: Option<Vec<u8>>)
    ensures
        r is Some <==> msg_fits(msg@),
        r matches Some(b) ==> b@ == enc_msg(msg@),
{
    match msg {
        Icmp6::Unknown => None,
        Icmp6::RtrSolicit(os) => serialise_solicit(os),
        Icmp6::RtrAdvert(a) => serialise_advert(a),
    }
}

/// Decodes a message received on the wire.
pub fn parse(b: &[u8]) -> (r: Result<Icmp6, ParseError>)
    ensures
        r matches Ok(m) ==> dec_msg(b@) == Ok::<Icmp6View, ParseError>(m@),
        r matches Err(e) ==> dec_msg(b@) == Err::<Icmp6View, ParseError>(e),
{
    if b.len() < 4 {
        return Err(ParseError::Truncated);
    }
    if b[0] == ROUTER_SOLICIT {
        if b.len() < 8 {
            return Err(ParseError::Truncated);
        }
        match parse_options(b, 8, b.len()) {
            Some(os) => Ok(Icmp6::RtrSolicit(os)),
            None => Err(ParseError::BadOption),
        }
    } else if b[0] == ROUTER_ADVERT {
        if b.len() < 16 {
            return Err(ParseError::Truncated);
        }
        match parse_options(b, 16, b.len()) {
            Some(os) => {
                let flags = b[5];
                Ok(
                    Icmp6::RtrAdvert(
                        RtrAdvertisement {
                            hop_limit: b[4],
                            flag_managed: flags >= 0x80,
                            flag_other: (flags / 64) % 2 == 1,
                            lifetime: rd16_at(b, 6),
                            reachable: rd32_at(b, 8),
                            retrans: rd32_at(b, 12),
                            options: os,
                        },
                    ),
                )
            },
            None => Err(ParseError::BadOption),
        }
    } else {
        Ok(Icmp6::Unknown)
    }
}

/// A solicitation or advertisement whose options are all valid decodes back
/// to itself.
pub proof fn lemma_message_round_trip(m: Icmp6View)
    requires
        !(m is Unknown),
        m matches Icmp6View::RtrSolicit(os) ==> forall|i: int|
            0 <= i < os.len() ==> valid_opt(#[trigger] os[i]),
        m matches Icmp6View::RtrAdvert(_, _, _, _, _, _, os) ==> forall|i: int|
            0 <= i < os.len() ==> valid_opt(#[trigger] os[i]),
    ensures
        dec_msg(enc_msg(m)) == Ok::<Icmp6View, ParseError>(m),
{
    let b = enc_msg(m);
    match m {
        Icmp6View::RtrSolicit(os) => {
            assert(b.subrange(8, b.len() as int) =~= enc_opts(os));
            lemma_options_round_trip(os);
        },
        Icmp6View::RtrAdvert(hop, mf, of, lt, reach, retrans, os) => {
            assert(b.subrange(16, b.len() as int) =~= enc_opts(os));
            assert(b.subrange(6, 8) =~= be16(lt));
            assert(b.subrange(8, 12) =~= be32(reach));
            assert(b.subrange(12, 16) =~= be32(retrans));
            lemma_rd16(lt, b, 6);
            lemma_rd32(reach, b, 8);
            lemma_rd32(retrans, b, 12);
            lemma_options_round_trip(os);
        },
        Icmp6View::Unknown => {},
    }
}

} // verus!
