//! IP addresses as plain octets, the IPv6 scope classifier and the
//! "best source address" ordering.
use vstd::prelude::*;
use std::cmp::Ordering;

verus! {

/// An IPv4 address held as its four octets in network order.
#[derive(Clone, Copy, Debug, Hash)]
pub struct Ip4Addr {
    pub octets: [u8; 4],
}

/// An IPv6 address held as its sixteen octets in network order.
#[derive(Clone, Copy, Debug, Hash)]
pub struct Ip6Addr {
    pub octets: [u8; 16],
}

impl View for Ip4Addr {
    type V = Seq<u8>;

    open spec fn view(&self) -> Seq<u8> {
        self.octets@
    }
}

impl View for Ip6Addr {
    type V = Seq<u8>;

    open spec fn view(&self) -> Seq<u8> {
        self.octets@
    }
}

/// An IPv4 or IPv6 address.
#[derive(Clone, Copy, Debug, Hash)]
pub enum IpAddr {
    V4(Ip4Addr),
    V6(Ip6Addr),
}

/// A socket address: IP address, port, and the interface index that scopes
/// a link-local address (zero when unscoped).
#[derive(Clone, Copy, Debug)]
pub struct SocketAddr {
    pub ip: IpAddr,
    pub port: u16,
    pub scope_id: u32,
}

/// The octets of `ff02::1`, all nodes on the link.
pub open spec fn all_nodes_octets() -> Seq<u8> {
    seq![0xffu8, 0x02u8, 0u8, 0u8, 0u8, 0u8, 0u8, 0u8, 0u8, 0u8, 0u8, 0u8, 0u8, 0u8, 0u8, 1u8]
}

/// `ff02::1`, all nodes on the link.
pub fn all_nodes() -> (r: Ip6Addr)
    ensures
        r@ == all_nodes_octets(),
{
    let r = Ip6Addr { octets: [0xff, 0x02, 0, 0, 0, 0, 0, 0, 0, 0, 0, 0, 0, 0, 0, 1] };
    assert(r@ =~= all_nodes_octets());
    r
}

/// Equality of two addresses: same family, same octets.
pub open spec fn ip_same(a: IpAddr, b: IpAddr) -> bool {
    match (a, b) {
        (IpAddr::V4(x), IpAddr::V4(y)) => x@ == y@,
        (IpAddr::V6(x), IpAddr::V6(y)) => x@ == y@,
        _ => false,
    }
}

fn bytes_equal(a: &[u8], b: &[u8]) -> (r: bool)
    ensures
        r == (a@ == b@),
{
    if a.len() != b.len() {
        return false;
    }
    let mut i: usize = 0;
    while i < a.len()
        invariant
            i <= a@.len(),
            a@.len() == b@.len(),
            forall|j: int| 0 <= j < i ==> a@[j] == b@[j],
        decreases a@.len() - i,
    {
        if a[i] != b[i] {
            return false;
        }
        i = i + 1;
    }
    assert(a@ =~= b@);
    true
}

impl IpAddr {
    /// Same family and same octets.
    pub fn same_as(&self, other: &IpAddr) -> (r: bool)
        ensures
            r == ip_same(*self, *other),
    {
        match (self, other) {
            (IpAddr::V4(x), IpAddr::V4(y)) => bytes_equal(x.octets.as_slice(), y.octets.as_slice()),
            (IpAddr::V6(x), IpAddr::V6(y)) => bytes_equal(x.octets.as_slice(), y.octets.as_slice()),
            _ => false,
        }
    }
}

/// The classes an IPv6 address falls into.
#[derive(Clone, Copy, Debug, PartialEq, Eq, Structural)]
pub enum Scope {
    Link,
    Loopback,
    UniqueLocalAddress,
    Global,
    Unspecified,
    Multicast,
}

/// All octets in `[lo, hi)` are zero.
pub open spec fn zero_range(o: Seq<u8>, lo: int, hi: int) -> bool {
    forall|i: int| lo <= i < hi ==> #[trigger] o[i] == 0
}

/// The scope of a sixteen-octet IPv6 address.
pub open spec fn scope_of(o: Seq<u8>) -> Scope {
    if o[0] == 0xfc || o[0] == 0xfd {
        Scope::UniqueLocalAddress
    } else if zero_range(o, 0, 15) && o[15] == 1 {
        Scope::Loopback
    } else if zero_range(o, 0, 16) {
        Scope::Unspecified
    } else if o[0] == 0xfe && o[1] == 0x80 && zero_range(o, 2, 8) {
        // fe80::/64, the strict form of link-local
        Scope::Link
    } else if o[0] == 0xff {
        Scope::Multicast
    } else {
        Scope::Global
    }
}

/// Preference of a scope when picking a source address: unique local over
/// global over link-local, and everything else lowest.
pub open spec fn scope_rank(s: Scope) -> int {
    match s {
        Scope::UniqueLocalAddress => 3,
        Scope::Global => 2,
        Scope::Link => 1,
        _ => 0,
    }
}

/// `a` is numerically below `b`, both read as big-endian integers of equal width.
pub open spec fn octets_lt(a: Seq<u8>, b: Seq<u8>) -> bool {
    exists|i: int|
        0 <= i < a.len() && i < b.len() && #[trigger] a[i] < b[i] && forall|j: int|
            0 <= j < i ==> a[j] == b[j]
}

/// The source-address order: by scope rank, then by numeric value.
pub open spec fn scope_lt(a: Seq<u8>, b: Seq<u8>) -> bool {
    scope_rank(scope_of(a)) < scope_rank(scope_of(b)) || (scope_rank(scope_of(a))
        == scope_rank(scope_of(b)) && octets_lt(a, b))
}

/// The three-way comparison that `scope_lt` induces.
pub open spec fn scope_cmp_spec(a: Seq<u8>, b: Seq<u8>) -> Ordering {
    if scope_lt(a, b) {
        Ordering::Less
    } else if scope_lt(b, a) {
        Ordering::Greater
    } else {
        Ordering::Equal
    }
}

fn zero_between(o: &[u8; 16], lo: usize, hi: usize) -> (r: bool)
    requires
        lo <= hi <= 16,
    ensures
        r == zero_range(o@, lo as int, hi as int),
{
    let mut i: usize = lo;
    while i < hi
        invariant
            lo <= i <= hi <= 16,
            zero_range(o@, lo as int, i as int),
        decreases hi - i,
    {
        if o[i] != 0 {
            return false;
        }
        i = i + 1;
    }
    true
}

impl Ip6Addr {
    /// The address is `::`.
    pub fn is_unspecified(&self) -> (r: bool)
        ensures
            r == zero_range(self@, 0, 16),
    {
        zero_between(&self.octets, 0, 16)
    }
}

/// Classifies an IPv6 address.
pub fn v6_scope(ip6: &Ip6Addr) -> (r: Scope)
    ensures
        r == scope_of(ip6@),
{
    let o = &ip6.octets;
    if o[0] == 0xfc || o[0] == 0xfd {
        Scope::UniqueLocalAddress
    } else if zero_between(o, 0, 15) && o[15] == 1 {
        Scope::Loopback
    } else if zero_between(o, 0, 16) {
        Scope::Unspecified
    } else if o[0] == 0xfe && o[1] == 0x80 && zero_between(o, 2, 8) {
        Scope::Link
    } else if o[0] == 0xff {
        Scope::Multicast
    } else {
        Scope::Global
    }
}

fn rank(s: Scope) -> (r: u8)
    ensures
        r as int == scope_rank(s),
{
    match s {
        Scope::UniqueLocalAddress => 3,
        Scope::Global => 2,
        Scope::Link => 1,
        _ => 0,
    }
}

/// Numeric comparison of two addresses.
pub fn octets_cmp(a: &Ip6Addr, b: &Ip6Addr) -> (r: Ordering)
    ensures
        r == Ordering::Less <==> octets_lt(a@, b@),
        r == Ordering::Greater <==> octets_lt(b@, a@),
        r == Ordering::Equal <==> a@ == b@,
{
    let mut i: usize = 0;
    while i < 16
        invariant
            0 <= i <= 16,
            a@.len() == 16,
            b@.len() == 16,
            forall|j: int| 0 <= j < i ==> a@[j] == b@[j],
        decreases 16 - i,
    {
        if a.octets[i] != b.octets[i] {
            if a.octets[i] < b.octets[i] {
                assert(a@[i as int] < b@[i as int]);
                proof {
                    lemma_octets_lt_asym(a@, b@);
                }
                return Ordering::Less;
            } else {
                assert(b@[i as int] < a@[i as int]);
                proof {
                    lemma_octets_lt_asym(b@, a@);
                }
                return Ordering::Greater;
            }
        }
        i = i + 1;
    }
    assert(a@ =~= b@);
    proof {
        lemma_octets_lt_irrefl(a@);
    }
    Ordering::Equal
}

proof fn lemma_octets_lt_irrefl(a: Seq<u8>)
    ensures
        !octets_lt(a, a),
{
}

proof fn lemma_octets_lt_asym(a: Seq<u8>, b: Seq<u8>)
    requires
        octets_lt(a, b),
    ensures
        !octets_lt(b, a),
        a != b,
{
    let i = choose|i: int|
        0 <= i < a.len() && i < b.len() && #[trigger] a[i] < b[i] && forall|j: int|
            0 <= j < i ==> a[j] == b[j];
    if octets_lt(b, a) {
        let k = choose|k: int|
            0 <= k < b.len() && k < a.len() && #[trigger] b[k] < a[k] && forall|j: int|
                0 <= j < k ==> b[j] == a[j];
        if k < i {
            assert(a[k] == b[k]);
        } else if i < k {
            assert(b[i] == a[i]);
        }
    }
    assert(a[i] != b[i]);
}

proof fn lemma_octets_lt_trans(a: Seq<u8>, b: Seq<u8>, c: Seq<u8>)
    requires
        octets_lt(a, b),
        octets_lt(b, c),
    ensures
        octets_lt(a, c),
{
    let i = choose|i: int|
        0 <= i < a.len() && i < b.len() && #[trigger] a[i] < b[i] && forall|j: int|
            0 <= j < i ==> a[j] == b[j];
    let k = choose|k: int|
        0 <= k < b.len() && k < c.len() && #[trigger] b[k] < c[k] && forall|j: int|
            0 <= j < k ==> b[j] == c[j];
    let m = if i < k { i } else { k };
    assert(a[m] < c[m]);
    assert(forall|j: int| 0 <= j < m ==> a[j] == c[j]);
}

proof fn lemma_octets_total(a: Seq<u8>, b: Seq<u8>)
    requires
        a.len() == b.len(),
    ensures
        octets_lt(a, b) || octets_lt(b, a) || a == b,
    decreases a.len(),
{
    if a.len() > 0 && a != b {
        if a[0] < b[0] {
            assert(octets_lt(a, b));
        } else if b[0] < a[0] {
            assert(octets_lt(b, a));
        } else {
            let a1 = a.drop_first();
            let b1 = b.drop_first();
            lemma_octets_total(a1, b1);
            if a1 == b1 {
                assert forall|j: int| 0 <= j < a.len() implies a[j] == b[j] by {
                    if j > 0 {
                        assert(a1[j - 1] == b1[j - 1]);
                    }
                }
                assert(a =~= b);
            } else if octets_lt(a1, b1) {
                let i = choose|i: int|
                    0 <= i < a1.len() && i < b1.len() && #[trigger] a1[i] < b1[i] && forall|j: int|
                        0 <= j < i ==> a1[j] == b1[j];
                assert(a[i + 1] < b[i + 1]);
                assert forall|j: int| 0 <= j < i + 1 implies a[j] == b[j] by {
                    if j > 0 {
                        assert(a1[j - 1] == b1[j - 1]);
                    }
                }
            } else {
                let i = choose|i: int|
                    0 <= i < b1.len() && i < a1.len() && #[trigger] b1[i] < a1[i] && forall|j: int|
                        0 <= j < i ==> b1[j] == a1[j];
                assert(b[i + 1] < a[i + 1]);
                assert forall|j: int| 0 <= j < i + 1 implies b[j] == a[j] by {
                    if j > 0 {
                        assert(b1[j - 1] == a1[j - 1]);
                    }
                }
            }
        }
    } else if a.len() == 0 {
        assert(a =~= b);
    }
}

/// The source-address order is a strict total order on IPv6 addresses.
pub proof fn lemma_scope_order(a: Seq<u8>, b: Seq<u8>, c: Seq<u8>)
    requires
        a.len() == 16,
        b.len() == 16,
        c.len() == 16,
    ensures
        !scope_lt(a, a),
        scope_lt(a, b) ==> !scope_lt(b, a),
        scope_lt(a, b) || scope_lt(b, a) || a == b,
        scope_lt(a, b) && scope_lt(b, c) ==> scope_lt(a, c),
{
    lemma_octets_lt_irrefl(a);
    lemma_octets_total(a, b);
    if octets_lt(a, b) {
        lemma_octets_lt_asym(a, b);
    }
    if octets_lt(a, b) && octets_lt(b, c) {
        lemma_octets_lt_trans(a, b, c);
    }
}

/// Compares two addresses by preference as a source address: scope first,
/// then numeric value.
pub fn scope_cmp(a: &Ip6Addr, b: &Ip6Addr) -> (r: Ordering)
    ensures
        r == scope_cmp_spec(a@, b@),
{
    let ra = rank(v6_scope(a));
    let rb = rank(v6_scope(b));
    proof {
        lemma_scope_order(a@, b@, a@);
    }
    if ra < rb {
        Ordering::Less
    } else if rb < ra {
        Ordering::Greater
    } else {
        octets_cmp(a, b)
    }
}

/// The octets of an address, when it is an IPv6 one.
pub open spec fn v6_octets(ip: IpAddr) -> Option<Seq<u8>> {
    match ip {
        IpAddr::V6(a) => Some(a@),
        IpAddr::V4(_) => None,
    }
}

/// `o` is one of the IPv6 addresses of the list.
pub open spec fn holds_v6(prefixes: Seq<(IpAddr, u8)>, o: Seq<u8>) -> bool {
    exists|i: int| 0 <= i < prefixes.len() && #[trigger] v6_octets(prefixes[i].0) == Some(o)
}

/// `o` is the most preferred IPv6 address of the list.
pub open spec fn is_best_source(prefixes: Seq<(IpAddr, u8)>, o: Seq<u8>) -> bool {
    &&& holds_v6(prefixes, o)
    &&& forall|i: int|
        0 <= i < prefixes.len() && #[trigger] v6_octets(prefixes[i].0) is Some ==> !scope_lt(
            o,
            v6_octets(prefixes[i].0)->0,
        )
}

/// Picks the address an interface should advertise from: the greatest IPv6
/// address of its (address, prefix length) list under the source-address
/// order, or `None` when it holds no IPv6 address.
pub fn best_source_address(prefixes: &Vec<(IpAddr, u8)>) -> (r: Option<Ip6Addr>)
    ensures
        r is None <==> forall|o: Seq<u8>| !holds_v6(prefixes@, o),
        r matches Some(a) ==> is_best_source(prefixes@, a@),
{
    let mut best: Option<Ip6Addr> = None;
    let mut i: usize = 0;
    while i < prefixes.len()
        invariant
            0 <= i <= prefixes.len(),
            best is None ==> forall|j: int|
                0 <= j < i ==> #[trigger] v6_octets(prefixes@[j].0) is None,
            best matches Some(a) ==> {
                &&& holds_v6(prefixes@, a@)
                &&& forall|j: int|
                    0 <= j < i && #[trigger] v6_octets(prefixes@[j].0) is Some ==> !scope_lt(
                        a@,
                        v6_octets(prefixes@[j].0)->0,
                    )
            },
        decreases prefixes.len() - i,
    {
        if let IpAddr::V6(x) = &prefixes[i].0 {
            assert(v6_octets(prefixes@[i as int].0) == Some(x@));
            match best {
                None => {
                    proof {
                        lemma_scope_order(x@, x@, x@);
                    }
                    best = Some(*x);
                },
                Some(b) => {
                    let less = match scope_cmp(&b, x) {
                        Ordering::Less => true,
                        _ => false,
                    };
                    if less {
                        assert forall|j: int|
                            0 <= j < i + 1 && #[trigger] v6_octets(prefixes@[j].0) is Some
                                implies !scope_lt(x@, v6_octets(prefixes@[j].0)->0) by {
                            match prefixes@[j].0 {
                                IpAddr::V6(ya) => lemma_scope_order(b@, x@, ya@),
                                IpAddr::V4(_) => {},
                            }
                        }
                        best = Some(*x);
                    } else {
                        proof {
                            lemma_scope_order(b@, x@, b@);
                        }
                    }
                },
            }
        }
        i = i + 1;
    }
    proof {
        if best is None {
            assert forall|o: Seq<u8>| !holds_v6(prefixes@, o) by {
                if holds_v6(prefixes@, o) {
                    let k = choose|k: int|
                        0 <= k < prefixes@.len() && #[trigger] v6_octets(prefixes@[k].0) == Some(o);
                }
            }
        }
    }
    best
}

/// The chosen source address does not depend on the order of the list, nor
/// on repeats: two lists that hold the same IPv6 addresses give the same
/// choice.
pub proof fn lemma_best_source_order_free(
    p1: Seq<(IpAddr, u8)>,
    p2: Seq<(IpAddr, u8)>,
    a1: Seq<u8>,
    a2: Seq<u8>,
)
    requires
        forall|o: Seq<u8>| holds_v6(p1, o) <==> holds_v6(p2, o),
        is_best_source(p1, a1),
        is_best_source(p2, a2),
    ensures
        a1 == a2,
{
    assert(holds_v6(p2, a1));
    assert(holds_v6(p1, a2));
    let i = choose|i: int| 0 <= i < p1.len() && #[trigger] v6_octets(p1[i].0) == Some(a2);
    let k = choose|k: int| 0 <= k < p2.len() && #[trigger] v6_octets(p2[k].0) == Some(a1);
    assert(!scope_lt(a1, a2));
    assert(!scope_lt(a2, a1));
    match p1[i].0 {
        IpAddr::V6(x) => {
            match p2[k].0 {
                IpAddr::V6(y) => lemma_scope_order(x@, y@, x@),
                IpAddr::V4(_) => {},
            }
        },
        IpAddr::V4(_) => {},
    }
}

/// Lowercase hexadecimal digit.
pub open spec fn hex_digit(x: int) -> u8 {
    if x < 10 {
        (0x30 + x) as u8
    } else {
        (0x61 + x - 10) as u8
    }
}

/// `x` in lowercase hexadecimal, without leading zeros.
pub open spec fn hex_text(x: int) -> Seq<u8>
    decreases x,
{
    if x < 16 || x < 0 {
        seq![hex_digit(x)]
    } else {
        hex_text(x / 16) + seq![hex_digit(x % 16)]
    }
}

/// `x` in decimal, without leading zeros.
pub open spec fn dec_text(x: int) -> Seq<u8>
    decreases x,
{
    if x < 10 || x < 0 {
        seq![(0x30 + x) as u8]
    } else {
        dec_text(x / 10) + seq![(0x30 + x % 10) as u8]
    }
}

/// Dotted-quad text of four octets.
pub open spec fn dotted_text(o: Seq<u8>) -> Seq<u8> {
    dec_text(o[0] as int) + seq![0x2eu8] + dec_text(o[1] as int) + seq![0x2eu8] + dec_text(
        o[2] as int,
    ) + seq![0x2eu8] + dec_text(o[3] as int)
}

/// The `i`th sixteen-bit group of an IPv6 address.
pub open spec fn group(o: Seq<u8>, i: int) -> int {
    o[2 * i] as int * 256 + o[2 * i + 1] as int
}

/// Groups `lo..hi` in hexadecimal, separated by colons.
pub open spec fn groups_text(o: Seq<u8>, lo: int, hi: int) -> Seq<u8>
    decreases hi - lo,
{
    if hi <= lo {
        Seq::empty()
    } else if hi == lo + 1 {
        hex_text(group(o, lo))
    } else {
        groups_text(o, lo, hi - 1) + seq![0x3au8] + hex_text(group(o, hi - 1))
    }
}

/// Number of zero groups starting at group `i`.
pub open spec fn zero_run(o: Seq<u8>, i: int) -> int
    decreases 8 - i,
{
    if i >= 8 || i < 0 || group(o, i) != 0 {
        0
    } else {
        1 + zero_run(o, i + 1)
    }
}

/// The first longest run of zero groups among groups `i..8`, given the best
/// `(start, length)` found before `i`.
pub open spec fn best_run_from(o: Seq<u8>, i: int, start: int, len: int) -> (int, int)
    decreases 8 - i,
{
    if i >= 8 || i < 0 {
        (start, len)
    } else if zero_run(o, i) > len {
        best_run_from(o, i + 1, i, zero_run(o, i))
    } else {
        best_run_from(o, i + 1, start, len)
    }
}

/// IPv6 text as std writes it: an IPv4-mapped address as `::ffff:a.b.c.d`;
/// otherwise lowercase groups, with the first longest run of two or more
/// zero groups written `::`.
pub open spec fn ip6_text(o: Seq<u8>) -> Seq<u8> {
    if zero_range(o, 0, 10) && o[10] == 0xff && o[11] == 0xff {
        seq![0x3au8, 0x3au8, 0x66u8, 0x66u8, 0x66u8, 0x66u8, 0x3au8] + dotted_text(o.subrange(12, 16))
    } else {
        let (s, l) = best_run_from(o, 0, 0, 0);
        if l >= 2 {
            groups_text(o, 0, s) + seq![0x3au8, 0x3au8] + groups_text(o, s + l, 8)
        } else {
            groups_text(o, 0, 8)
        }
    }
}

/// Text form of an address.
pub open spec fn ip_text(ip: IpAddr) -> Seq<u8> {
    match ip {
        IpAddr::V4(a) => dotted_text(a@),
        IpAddr::V6(a) => ip6_text(a@),
    }
}

fn push_hex(out: &mut Vec<u8>, x: u16)
    ensures
        final(out)@ == old(out)@ + hex_text(x as int),
    decreases x,
{
    if x >= 16 {
        push_hex(out, x / 16);
    }
    let d = x % 16;
    out.push(if d < 10 { 0x30 + d as u8 } else { 0x61 + d as u8 - 10 });
    assert(final(out)@ =~= old(out)@ + hex_text(x as int));
}

fn push_dec(out: &mut Vec<u8>, x: u8)
    ensures
        final(out)@ == old(out)@ + dec_text(x as int),
    decreases x,
{
    if x >= 10 {
        push_dec(out, x / 10);
    }
    out.push(0x30 + x % 10);
    assert(final(out)@ =~= old(out)@ + dec_text(x as int));
}

fn push_dotted(out: &mut Vec<u8>, o: &[u8], at: usize)
    requires
        at + 4 <= o@.len(),
    ensures
        final(out)@ == old(out)@ + dotted_text(o@.subrange(at as int, at + 4)),
{
    push_dec(out, o[at]);
    out.push(0x2e);
    push_dec(out, o[at + 1]);
    out.push(0x2e);
    push_dec(out, o[at + 2]);
    out.push(0x2e);
    push_dec(out, o[at + 3]);
    let ghost q = o@.subrange(at as int, at + 4);
    assert(q[0] == o@[at as int] && q[1] == o@[at + 1] && q[2] == o@[at + 2] && q[3] == o@[at + 3]);
    assert(final(out)@ =~= old(out)@ + dotted_text(q));
}

fn group_at(o: &[u8; 16], i: usize) -> (r: u16)
    requires
        i < 8,
    ensures
        r as int == group(o@, i as int),
{
    o[2 * i] as u16 * 256 + o[2 * i + 1] as u16
}

fn push_groups(out: &mut Vec<u8>, o: &[u8; 16], lo: usize, hi: usize)
    requires
        lo <= hi <= 8,
    ensures
        final(out)@ == old(out)@ + groups_text(o@, lo as int, hi as int),
{
    let mut i: usize = lo;
    while i < hi
        invariant
            lo <= i <= hi <= 8,
            out@ == old(out)@ + groups_text(o@, lo as int, i as int),
        decreases hi - i,
    {
        if i > lo {
            out.push(0x3a);
        }
        push_hex(out, group_at(o, i));
        assert(out@ =~= old(out)@ + groups_text(o@, lo as int, i + 1));
        i = i + 1;
    }
}

fn zero_run_at(o: &[u8; 16], i: usize) -> (r: usize)
    requires
        i <= 8,
    ensures
        r as int == zero_run(o@, i as int),
        i + r <= 8,
{
    let mut j: usize = i;
    while j < 8 && group_at(o, j) == 0
        invariant
            i <= j <= 8,
            zero_run(o@, i as int) == (j - i) + zero_run(o@, j as int),
        decreases 8 - j,
    {
        j = j + 1;
    }
    j - i
}

/// Text of an IPv6 address, as std writes it (see `ip6_text`).
pub fn ip6_to_text(a: &Ip6Addr) -> (r: Vec<u8>)
    ensures
        r@ == ip6_text(a@),
{
    let o = &a.octets;
    let mut out: Vec<u8> = Vec::new();
    if zero_between(o, 0, 10) && o[10] == 0xff && o[11] == 0xff {
        out.push(0x3a);
        out.push(0x3a);
        out.push(0x66);
        out.push(0x66);
        out.push(0x66);
        out.push(0x66);
        out.push(0x3a);
        push_dotted(&mut out, o.as_slice(), 12);
        assert(out@ =~= ip6_text(a@));
        return out;
    }
    let mut start: usize = 0;
    let mut len: usize = 0;
    let mut i: usize = 0;
    while i < 8
        invariant
            i <= 8,
            start + len <= 8,
            best_run_from(o@, 0, 0, 0) == best_run_from(o@, i as int, start as int, len as int),
        decreases 8 - i,
    {
        let z = zero_run_at(o, i);
        if z > len {
            start = i;
            len = z;
        }
        i = i + 1;
    }
    if len >= 2 {
        push_groups(&mut out, o, 0, start);
        out.push(0x3a);
        out.push(0x3a);
        push_groups(&mut out, o, start + len, 8);
    } else {
        push_groups(&mut out, o, 0, 8);
    }
    assert(out@ =~= ip6_text(a@));
    out
}

/// Text of an address: dotted quad for IPv4, as `ip6_text` for IPv6.
pub fn ip_to_text(ip: &IpAddr) -> (r: Vec<u8>)
    ensures
        r@ == ip_text(*ip),
{
    match ip {
        IpAddr::V4(a) => {
            let mut out: Vec<u8> = Vec::new();
            push_dotted(&mut out, a.octets.as_slice(), 0);
            assert(a.octets@.subrange(0, 4) =~= a@);
            assert(out@ =~= ip_text(*ip));
            out
        },
        IpAddr::V6(a) => ip6_to_text(a),
    }
}

} // verus!
