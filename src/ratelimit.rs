//! Reflection guard: a fixed array of token buckets, each source address
//! hashed onto two of them. A reply goes out when either bucket can pay for
//! it; the bucket that pays is depleted, the other is left alone.
use vstd::prelude::*;
use std::hash::{Hash, Hasher};
use crate::addr::IpAddr;

verus! {

/// Number of buckets.
pub const BUCKETS: usize = 256;

/// Tokens a bucket holds when full: twice the largest DNS message, so that
/// any single reply can pass a full bucket.
pub const CAPACITY: u64 = 131072;

/// Tokens a bucket regains per millisecond.
pub const RATE_PER_MS: u64 = 4;

/// First hash seed.
pub const SEED1: u64 = 0x1234_5678_9ABC_DEF0;

/// Second hash seed.
pub const SEED2: u64 = 0x2345_6789_ABCD_EF01;

/// A token bucket: tokens held, and the time (milliseconds) they were
/// counted at.
#[derive(Clone, Copy, Debug)]
pub struct TokenBucket {
    pub tokens: u64,
    pub last: u64,
}

/// Tokens the bucket can pay at `now`: what it held plus what it regained
/// since, up to the capacity. A clock that went back regains nothing.
pub open spec fn available(b: TokenBucket, now: u64) -> int {
    if now >= b.last {
        let t = b.tokens + (now - b.last) * RATE_PER_MS;
        if t > CAPACITY {
            CAPACITY as int
        } else {
            t
        }
    } else {
        b.tokens as int
    }
}

/// The bucket after paying `cost` at `now`.
pub open spec fn paid(b: TokenBucket, cost: u64, now: u64) -> TokenBucket {
    TokenBucket {
        tokens: (available(b, now) - cost) as u64,
        last: if now >= b.last {
            now
        } else {
            b.last
        },
    }
}

impl TokenBucket {
    pub open spec fn wf(&self) -> bool {
        self.tokens <= CAPACITY
    }

    /// A full bucket counted at `now`.
    pub fn full(now: u64) -> (r: TokenBucket)
        ensures
            r.wf(),
            r.tokens == CAPACITY,
            r.last == now,
    {
        TokenBucket { tokens: CAPACITY, last: now }
    }

    /// Tokens available at `now`.
    pub fn available_at(&self, now: u64) -> (r: u64)
        requires
            self.wf(),
        ensures
            r == available(*self, now),
            r <= CAPACITY,
    {
        if now >= self.last {
            let elapsed = now - self.last;
            if elapsed >= CAPACITY {
                CAPACITY
            } else {
                let t = self.tokens + elapsed * RATE_PER_MS;
                if t > CAPACITY {
                    CAPACITY
                } else {
                    t
                }
            }
        } else {
            self.tokens
        }
    }

    /// The bucket can pay `cost` at `now`.
    pub fn check(&self, cost: u64, now: u64) -> (r: bool)
        requires
            self.wf(),
        ensures
            r == (available(*self, now) >= cost),
    {
        self.available_at(now) >= cost
    }

    /// Pays `cost` at `now`.
    pub fn deplete(&mut self, cost: u64, now: u64)
        requires
            old(self).wf(),
            available(*old(self), now) >= cost,
        ensures
            *final(self) == paid(*old(self), cost, now),
            final(self).wf(),
    {
        let a = self.available_at(now);
        if now >= self.last {
            self.last = now;
        }
        self.tokens = a - cost;
    }
}

/// The two buckets an address is charged to, from its two hashes: distinct,
/// and both in range.
pub open spec fn bucket_pair(h1: usize, h2: usize) -> (int, int) {
    let b1 = h1 % 256;
    let b2 = h2 % 255;
    (b1 as int, if b2 == b1 {
        255
    } else {
        b2 as int
    })
}

/// The two buckets probed for hashes `h1` and `h2`. The second hash is taken
/// modulo one less than the number of buckets, and moved to the last bucket
/// when it meets the first, so the two are never the same bucket.
pub fn probe_buckets(h1: usize, h2: usize) -> (r: (usize, usize))
    ensures
        r.0 as int == bucket_pair(h1, h2).0,
        r.1 as int == bucket_pair(h1, h2).1,
        r.0 != r.1,
        r.0 < BUCKETS,
        r.1 < BUCKETS,
{
    let b1 = h1 % BUCKETS;
    let mut b2 = h2 % (BUCKETS - 1);
    if b2 == b1 {
        b2 = BUCKETS - 1;
    }
    (b1, b2)
}

/// The limiter's buckets after a request for `cost` at `now` from an
/// address with hashes `h1`, `h2`, and whether it may be answered: the first
/// bucket pays when it can, else the second when it can, else nobody does.
pub open spec fn limiter_step(bs: Seq<TokenBucket>, h1: usize, h2: usize, cost: u64, now: u64) -> (
    Seq<TokenBucket>,
    bool,
) {
    let (i, j) = bucket_pair(h1, h2);
    if available(bs[i], now) >= cost {
        (bs.update(i, paid(bs[i], cost, now)), true)
    } else if available(bs[j], now) >= cost {
        (bs.update(j, paid(bs[j], cost, now)), true)
    } else {
        (bs, false)
    }
}

/// What one request does to the limiter: it probes the two buckets its
/// hashes name, which are distinct and in range whatever the hashes are; it
/// is let through exactly when one of them can pay; then exactly one of them
/// pays and every other bucket is left as it was.
pub proof fn lemma_limiter_step_frame(bs: Seq<TokenBucket>, h1: usize, h2: usize, cost: u64, now: u64)
    requires
        bs.len() == BUCKETS,
    ensures
        ({
            let (i, j) = bucket_pair(h1, h2);
            let (after, ok) = limiter_step(bs, h1, h2, cost, now);
            &&& i != j
            &&& 0 <= i < BUCKETS && 0 <= j < BUCKETS
            &&& after.len() == BUCKETS
            &&& forall|k: int| 0 <= k < BUCKETS && k != i && k != j ==> after[k] == bs[k]
            &&& ok <==> (available(bs[i], now) >= cost || available(bs[j], now) >= cost)
            &&& ok ==> ((after[i] == paid(bs[i], cost, now) && after[j] == bs[j]) || (after[j]
                == paid(bs[j], cost, now) && after[i] == bs[i]))
            &&& !ok ==> after == bs
        }),
{
}

/// Cost of a reply: `max(0, 2 * reply - query)`.
pub open spec fn reply_cost(query_len: int, reply_len: int) -> int {
    if 2 * reply_len > query_len {
        2 * reply_len - query_len
    } else {
        0
    }
}

/// The cost charged for sending `reply_len` octets in answer to
/// `query_len`: each octet beyond the query counts twice.
pub fn cost_of(query_len: usize, reply_len: usize) -> (r: u64)
    requires
        reply_len <= 0x7fff_ffff,
    ensures
        r == reply_cost(query_len as int, reply_len as int),
{
    let doubled = reply_len as u64 * 2;
    if doubled > query_len as u64 {
        doubled - query_len as u64
    } else {
        0
    }
}

/// Relies on std's `DefaultHasher::new`, `Hash` and `Hasher::finish`: some
/// hash of the seed and the address. Nothing is assumed of its value.
#[verifier::external_body]
fn hash_ip(seed: u64, ip: &IpAddr) -> (r: usize) {
    let mut hasher = std::collections::hash_map::DefaultHasher::new();
    seed.hash(&mut hasher);
    ip.hash(&mut hasher);
    hasher.finish() as usize
}

/// The reflection guard: a fixed array of token buckets.
#[derive(Debug)]
pub struct IpRateLimiter {
    buckets: Vec<TokenBucket>,
}

impl IpRateLimiter {
    pub closed spec fn view_buckets(&self) -> Seq<TokenBucket> {
        self.buckets@
    }

    pub open spec fn wf(&self) -> bool {
        &&& self.view_buckets().len() == BUCKETS
        &&& forall|i: int| 0 <= i < BUCKETS ==> #[trigger] self.view_buckets()[i].wf()
    }

    /// All buckets full, counted at `now` (milliseconds).
    pub fn new(now: u64) -> (r: IpRateLimiter)
        ensures
            r.wf(),
            forall|i: int| 0 <= i < BUCKETS ==> #[trigger] r.view_buckets()[i] == TokenBucket::full_spec(now),
    {
        let mut buckets: Vec<TokenBucket> = Vec::new();
        let mut i: usize = 0;
        while i < BUCKETS
            invariant
                i <= BUCKETS,
                buckets@.len() == i,
                forall|k: int| 0 <= k < i ==> #[trigger] buckets@[k] == TokenBucket::full_spec(now),
            decreases BUCKETS - i,
        {
            buckets.push(TokenBucket::full(now));
            i = i + 1;
        }
        IpRateLimiter { buckets }
    }

    /// Decides a request for `cost` at `now` from an address whose two
    /// hashes are `h1` and `h2`; the paying bucket is depleted.
    pub fn check_hashed(&mut self, h1: usize, h2: usize, cost: u64, now: u64) -> (r: bool)
        requires
            old(self).wf(),
        ensures
            final(self).wf(),
            (final(self).view_buckets(), r) == limiter_step(old(self).view_buckets(), h1, h2, cost, now),
    {
        let (b1, b2) = probe_buckets(h1, h2);
        assert(self.buckets@[b1 as int].wf());
        assert(self.buckets@[b2 as int].wf());
        if self.buckets[b1].check(cost, now) {
            let mut b = self.buckets[b1];
            b.deplete(cost, now);
            self.buckets.set(b1, b);
            proof {
                assert forall|i: int| 0 <= i < BUCKETS implies #[trigger] self.view_buckets()[i].wf() by {
                    if i != b1 {
                        assert(self.view_buckets()[i] == old(self).view_buckets()[i]);
                    }
                }
            }
            true
        } else if self.buckets[b2].check(cost, now) {
            let mut b = self.buckets[b2];
            b.deplete(cost, now);
            self.buckets.set(b2, b);
            proof {
                assert forall|i: int| 0 <= i < BUCKETS implies #[trigger] self.view_buckets()[i].wf() by {
                    if i != b2 {
                        assert(self.view_buckets()[i] == old(self).view_buckets()[i]);
                    }
                }
            }
            true
        } else {
            false
        }
    }

    /// Decides whether a reply costing `cost` may be sent to `ip` at `now`,
    /// charging the bucket that pays.
    pub fn check(&mut self, ip: &IpAddr, cost: u64, now: u64) -> (r: bool)
        requires
            old(self).wf(),
        ensures
            final(self).wf(),
            exists|h1: usize, h2: usize|
                (final(self).view_buckets(), r) == limiter_step(old(self).view_buckets(), h1, h2, cost, now),
    {
        let h1 = hash_ip(SEED1, ip);
        let h2 = hash_ip(SEED2, ip);
        self.check_hashed(h1, h2, cost, now)
    }
}

impl TokenBucket {
    pub open spec fn full_spec(now: u64) -> TokenBucket {
        TokenBucket { tokens: CAPACITY, last: now }
    }
}

/// A bucket after a run of requests `(cost, time)`, and the total cost it
/// paid.
pub open spec fn bucket_run(b: TokenBucket, reqs: Seq<(u64, u64)>) -> (TokenBucket, int)
    decreases reqs.len(),
{
    if reqs.len() == 0 {
        (b, 0)
    } else {
        let (b1, g) = bucket_run(b, reqs.drop_last());
        let (c, t) = reqs.last();
        if available(b1, t) >= c {
            (paid(b1, c, t), g + c)
        } else {
            (b1, g)
        }
    }
}

proof fn lemma_bucket_run_inv(b: TokenBucket, reqs: Seq<(u64, u64)>, end: u64)
    requires
        b.wf(),
        b.last <= end,
        forall|i: int| 0 <= i < reqs.len() ==> #[trigger] reqs[i].1 <= end,
    ensures
        bucket_run(b, reqs).0.wf(),
        b.last <= bucket_run(b, reqs).0.last <= end,
        bucket_run(b, reqs).1 + bucket_run(b, reqs).0.tokens <= b.tokens + RATE_PER_MS * (
        bucket_run(b, reqs).0.last - b.last),
    decreases reqs.len(),
{
    if reqs.len() > 0 {
        let rest = reqs.drop_last();
        assert forall|i: int| 0 <= i < rest.len() implies #[trigger] rest[i].1 <= end by {
            assert(rest[i] == reqs[i]);
        }
        lemma_bucket_run_inv(b, rest, end);
        assert(reqs.last() == reqs[reqs.len() - 1]);
    }
}

/// Over any run of requests whose times are at most `end`, a bucket pays at
/// most its capacity plus what it regains from its last count to `end`.
pub proof fn lemma_bucket_bound(b: TokenBucket, reqs: Seq<(u64, u64)>, end: u64)
    requires
        b.wf(),
        b.last <= end,
        forall|i: int| 0 <= i < reqs.len() ==> #[trigger] reqs[i].1 <= end,
    ensures
        bucket_run(b, reqs).1 <= CAPACITY + RATE_PER_MS * (end - b.last),
{
    lemma_bucket_run_inv(b, reqs, end);
}

/// The limiter after a run of requests `(cost, time)` all from one address
/// with hashes `h1` and `h2`, and the total cost let through.
pub open spec fn limiter_run(bs: Seq<TokenBucket>, h1: usize, h2: usize, reqs: Seq<(u64, u64)>) -> (
    Seq<TokenBucket>,
    int,
)
    decreases reqs.len(),
{
    if reqs.len() == 0 {
        (bs, 0)
    } else {
        let (b1, g) = limiter_run(bs, h1, h2, reqs.drop_last());
        let (c, t) = reqs.last();
        let (b2, ok) = limiter_step(b1, h1, h2, c, t);
        (b2, if ok {
            g + c
        } else {
            g
        })
    }
}

proof fn lemma_limiter_run_inv(
    bs: Seq<TokenBucket>,
    h1: usize,
    h2: usize,
    reqs: Seq<(u64, u64)>,
    end: u64,
)
    requires
        bs.len() == BUCKETS,
        bs[bucket_pair(h1, h2).0].wf(),
        bs[bucket_pair(h1, h2).1].wf(),
        bs[bucket_pair(h1, h2).0].last <= end,
        bs[bucket_pair(h1, h2).1].last <= end,
        forall|i: int| 0 <= i < reqs.len() ==> #[trigger] reqs[i].1 <= end,
    ensures
        ({
            let (i, j) = bucket_pair(h1, h2);
            let (fs, g) = limiter_run(bs, h1, h2, reqs);
            &&& fs.len() == BUCKETS
            &&& fs[i].wf() && fs[j].wf()
            &&& bs[i].last <= fs[i].last <= end
            &&& bs[j].last <= fs[j].last <= end
            &&& g + fs[i].tokens + fs[j].tokens <= bs[i].tokens + bs[j].tokens + RATE_PER_MS * (
            fs[i].last - bs[i].last) + RATE_PER_MS * (fs[j].last - bs[j].last)
        }),
    decreases reqs.len(),
{
    if reqs.len() > 0 {
        let rest = reqs.drop_last();
        assert forall|i: int| 0 <= i < rest.len() implies #[trigger] rest[i].1 <= end by {
            assert(rest[i] == reqs[i]);
        }
        lemma_limiter_run_inv(bs, h1, h2, rest, end);
        assert(reqs.last() == reqs[reqs.len() - 1]);
    }
}

/// Over any run of requests from one address whose times are at most
/// `end`, the limiter lets through at most two bucket capacities plus what
/// the address's two buckets regain until `end`: twice the refill rate in
/// the long run, with at most twice a bucket's burst.
pub proof fn lemma_limiter_bound(
    bs: Seq<TokenBucket>,
    h1: usize,
    h2: usize,
    reqs: Seq<(u64, u64)>,
    end: u64,
)
    requires
        bs.len() == BUCKETS,
        forall|i: int| 0 <= i < BUCKETS ==> (#[trigger] bs[i]).wf() && bs[i].last <= end,
        forall|i: int| 0 <= i < reqs.len() ==> #[trigger] reqs[i].1 <= end,
    ensures
        limiter_run(bs, h1, h2, reqs).1 <= 2 * CAPACITY + RATE_PER_MS * (end - bs[bucket_pair(
            h1,
            h2,
        ).0].last) + RATE_PER_MS * (end - bs[bucket_pair(h1, h2).1].last),
{
    let (i, j) = bucket_pair(h1, h2);
    assert(bs[i].wf() && bs[i].last <= end);
    assert(bs[j].wf() && bs[j].last <= end);
    lemma_limiter_run_inv(bs, h1, h2, reqs, end);
}

} // verus!
