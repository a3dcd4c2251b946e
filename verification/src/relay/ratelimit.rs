//! Per-source limits on connections.
//!
//! A token bucket per source bounds the rate of accepts, and a counter per
//! source and overall bounds the number of live connections. Sources are
//! collapsed by [`limiter_key`]; the bucket table is swept and capped so that
//! it cannot grow without bound.
//!
//! Tokens are counted in billionths. With time in nanoseconds and a whole
//! number of tokens per second, a refill is then exact.
use vstd::prelude::*;

use crate::proto::frames::PeerIp;
pub use crate::proto::frames::IpView;
use crate::table::{Key, Table};

verus! {

/// Billionths of a token in a token, and nanoseconds in a second.
pub const NANO: u64 = 1_000_000_000;

/// Buckets beyond which idle ones are dropped before a new one is made.
pub const MAX_BUCKETS: usize = 65_536;

impl Key for PeerIp {
    fn same_key(&self, other: &Self) -> (r: bool) {
        match (self, other) {
            (PeerIp::V4(a), PeerIp::V4(b)) => {
                let r = a[0] == b[0] && a[1] == b[1] && a[2] == b[2] && a[3] == b[3];
                assert(r ==> a@ =~= b@);
                r
            },
            (PeerIp::V6(a), PeerIp::V6(b)) => {
                let mut i: usize = 0;
                while i < 16
                    invariant
                        i <= 16,
                        self@ == IpView::V6(a@),
                        other@ == IpView::V6(b@),
                        forall|j: int| 0 <= j < i ==> a@[j] == b@[j],
                    decreases 16 - i,
                {
                    if a[i] != b[i] {
                        assert(a@[i as int] != b@[i as int]);
                        return false;
                    }
                    i += 1;
                }
                assert(a@ =~= b@);
                true
            },
            _ => false,
        }
    }

    fn dup_key(&self) -> (r: Self) {
        match self {
            PeerIp::V4(o) => PeerIp::V4(*o),
            PeerIp::V6(o) => PeerIp::V6(*o),
        }
    }
}

/// The key of an address: an IPv4 address whole, an IPv6 address with the
/// host half zeroed.
pub open spec fn key_of(ip: IpView) -> IpView {
    match ip {
        IpView::V4(o) => IpView::V4(o),
        IpView::V6(o) => IpView::V6(o.take(8) + seq![0u8, 0, 0, 0, 0, 0, 0, 0]),
    }
}

/// Collapse an address to its limiter key. IPv6 is masked to its /64, the
/// smallest block routinely assigned to a single subscriber, so that rotating
/// the host bits mints no new keys. IPv4 is used whole.
pub fn limiter_key(ip: PeerIp) -> (r: PeerIp)
    ensures
        r@ == key_of(ip@),
{
    match ip {
        PeerIp::V4(o) => PeerIp::V4(o),
        PeerIp::V6(o) => {
            let k: [u8; 16] = [
                o[0],
                o[1],
                o[2],
                o[3],
                o[4],
                o[5],
                o[6],
                o[7],
                0,
                0,
                0,
                0,
                0,
                0,
                0,
                0,
            ];
            assert(k@ =~= o@.take(8) + seq![0u8, 0, 0, 0, 0, 0, 0, 0]);
            PeerIp::V6(k)
        },
    }
}

/// Tokens of one source, in billionths, as of an instant in nanoseconds.
#[derive(Clone, Copy, Debug, PartialEq, Eq, Structural)]
pub struct Bucket {
    pub tokens: u64,
    pub last: u64,
}

/// Per-source token buckets: `rate` tokens per second, up to `burst`.
pub struct RateLimiter {
    rate: u32,
    burst: u32,
    buckets: Table<PeerIp, Bucket>,
}

/// View of a [`RateLimiter`].
pub struct RateView {
    pub rate: u32,
    pub burst: u32,
    pub buckets: Map<IpView, Bucket>,
}

impl RateView {
    /// A full bucket.
    pub open spec fn full(self) -> int {
        self.burst * NANO
    }

    /// What a bucket holds at `now` if it had no brim. Time never runs back.
    pub open spec fn risen(self, b: Bucket, now: u64) -> int {
        b.tokens + (if now > b.last {
            (now - b.last) * self.rate
        } else {
            0
        })
    }

    /// What a bucket holds at `now`.
    pub open spec fn level(self, b: Bucket, now: u64) -> int {
        if self.risen(b, now) < self.full() {
            self.risen(b, now)
        } else {
            self.full()
        }
    }

    /// Without the buckets that are full again.
    pub open spec fn swept(self, now: u64) -> RateView {
        RateView {
            buckets: self.buckets.restrict(
                Set::new(
                    |k: IpView|
                        self.buckets.dom().contains(k) && self.risen(self.buckets[k], now)
                            < self.full(),
                ),
            ),
            ..self
        }
    }

    /// The tokens of source `k` at `now`; an unknown source has a full bucket.
    pub open spec fn tokens_of(self, k: IpView, now: u64) -> int {
        if self.buckets.dom().contains(k) {
            self.level(self.buckets[k], now)
        } else {
            self.full()
        }
    }

    /// Ask for one token of `k`.
    pub open spec fn asked(self, k: IpView, now: u64) -> (RateView, bool) {
        let s = if self.buckets.dom().len() >= MAX_BUCKETS {
            self.swept(now)
        } else {
            self
        };
        let have = s.tokens_of(k, now);
        let left = if have >= NANO {
            have - NANO
        } else {
            have
        };
        (
            RateView {
                buckets: s.buckets.insert(k, Bucket { tokens: left as u64, last: now }),
                ..s
            },
            have >= NANO,
        )
    }
}

impl View for RateLimiter {
    type V = RateView;

    closed spec fn view(&self) -> RateView {
        RateView { rate: self.rate, burst: self.burst, buckets: self.buckets@ }
    }
}

impl RateLimiter {
    pub closed spec fn wf(&self) -> bool {
        &&& self.buckets.wf()
        &&& forall|k: IpView| #[trigger]
            self.buckets@.dom().contains(k) ==> self.buckets@[k].tokens <= self.burst * NANO
    }

    pub fn new(rate_per_sec: u32, burst: u32) -> (r: Self)
        ensures
            r.wf(),
            r@ == (RateView { rate: rate_per_sec, burst, buckets: Map::empty() }),
    {
        RateLimiter { rate: rate_per_sec, burst, buckets: Table::new() }
    }

    /// What a bucket holds at `now` if it had no brim.
    fn risen(&self, b: &Bucket, now: u64) -> (r: u128)
        ensures
            r == self@.risen(*b, now),
    {
        if now > b.last {
            let elapsed: u64 = now - b.last;
            let rate: u32 = self.rate;
            assert(elapsed * rate <= 0xffff_ffff_ffff_ffff * 0xffff_ffff) by (nonlinear_arith)
                requires
                    elapsed <= 0xffff_ffff_ffff_ffff,
                    rate <= 0xffff_ffff,
            ;
            b.tokens as u128 + elapsed as u128 * rate as u128
        } else {
            b.tokens as u128
        }
    }

    /// A full bucket.
    fn full(&self) -> (r: u64)
        ensures
            r == self@.full(),
    {
        self.burst as u64 * NANO
    }

    /// Drop buckets that are full again at `now`, to reclaim memory.
    pub fn sweep(&mut self, now: u64)
        requires
            old(self).wf(),
        ensures
            final(self).wf(),
            final(self)@ == old(self)@.swept(now),
    {
        let ghost before = *self;
        let full: u64 = self.full();
        let n: usize = self.buckets.len();
        let mut idle: Vec<PeerIp> = Vec::new();
        let mut i: usize = 0;
        proof {
            self.buckets.lemma_keys();
        }
        while i < n
            invariant
                i <= n,
                self.wf(),
                self.buckets.wf(),
                n == self.buckets.size(),
                full == self@.full(),
                forall|j: int|
                    0 <= j < i ==> ((exists|m: int|
                        0 <= m < idle@.len() && (#[trigger] idle@[m])@
                            == self.buckets.key_view(j)) <==> self@.risen(
                        self@.buckets[#[trigger] self.buckets.key_view(j)],
                        now,
                    ) >= full),
                forall|m: int|
                    0 <= m < idle@.len() ==> exists|j: int|
                        0 <= j < i && #[trigger] self.buckets.key_view(j) == (
                        #[trigger] idle@[m])@,
            decreases n - i,
        {
            let ghost was = idle@;
            let k = self.buckets.key_at(i);
            let mut gone: bool = false;
            match self.buckets.get(k) {
                Some(b) => {
                    if self.risen(b, now) >= full as u128 {
                        gone = true;
                    }
                },
                None => {},
            }
            if gone {
                idle.push(k.dup_key());
            }
            proof {
                self.buckets.lemma_keys();
                let here = i as int;
                assert forall|j: int| 0 <= j < i + 1 implies ((exists|m: int|
                    0 <= m < idle@.len() && (#[trigger] idle@[m])@ == self.buckets.key_view(j))
                    <==> self@.risen(
                    self@.buckets[#[trigger] self.buckets.key_view(j)],
                    now,
                ) >= full) by {
                    if j < here {
                        if exists|m: int|
                            0 <= m < was.len() && (#[trigger] was[m])@ == self.buckets.key_view(j) {
                            let m = choose|m: int|
                                0 <= m < was.len() && (#[trigger] was[m])@
                                    == self.buckets.key_view(j);
                            assert(idle@[m] == was[m]);
                        }
                        if exists|m: int|
                            0 <= m < idle@.len() && (#[trigger] idle@[m])@
                                == self.buckets.key_view(j) {
                            let m = choose|m: int|
                                0 <= m < idle@.len() && (#[trigger] idle@[m])@
                                    == self.buckets.key_view(j);
                            if m < was.len() {
                                assert(was[m] == idle@[m]);
                            } else {
                                assert(self.buckets.key_view(here) == self.buckets.key_view(j));
                            }
                        }
                    } else {
                        if gone {
                            assert(idle@[was.len() as int]@ == self.buckets.key_view(here));
                        } else if exists|m: int|
                            0 <= m < idle@.len() && (#[trigger] idle@[m])@
                                == self.buckets.key_view(j) {
                            let m = choose|m: int|
                                0 <= m < idle@.len() && (#[trigger] idle@[m])@
                                    == self.buckets.key_view(j);
                            assert(was[m] == idle@[m]);
                            let l = choose|l: int|
                                0 <= l < i && #[trigger] self.buckets.key_view(l) == was[m]@;
                            assert(self.buckets.key_view(l) == self.buckets.key_view(here));
                        }
                    }
                }
                assert forall|m: int| 0 <= m < idle@.len() implies exists|j: int|
                    0 <= j < i + 1 && #[trigger] self.buckets.key_view(j) == (
                    #[trigger] idle@[m])@ by {
                    if m < was.len() {
                        assert(was[m] == idle@[m]);
                        let l = choose|l: int|
                            0 <= l < i && #[trigger] self.buckets.key_view(l) == was[m]@;
                        assert(self.buckets.key_view(l) == idle@[m]@);
                    } else {
                        assert(self.buckets.key_view(here) == idle@[m]@);
                    }
                }
            }
            i += 1;
        }
        let mut d: usize = 0;
        while d < idle.len()
            invariant
                d <= idle@.len(),
                self.buckets.wf(),
                self.rate == before.rate,
                self.burst == before.burst,
                forall|k: IpView| #[trigger]
                    self.buckets@.dom().contains(k) <==> before.buckets@.dom().contains(k) && !(
                    exists|m: int| 0 <= m < d && (#[trigger] idle@[m])@ == k),
                forall|k: IpView| #[trigger]
                    self.buckets@.dom().contains(k) ==> self.buckets@[k] == before.buckets@[k],
            decreases idle@.len() - d,
        {
            let ghost prior = self.buckets@;
            let _ = self.buckets.remove(&idle[d]);
            proof {
                let here = d as int;
                assert forall|k: IpView| #[trigger] self.buckets@.dom().contains(k)
                    <==> before.buckets@.dom().contains(k) && !(exists|m: int|
                    0 <= m < d + 1 && (#[trigger] idle@[m])@ == k) by {
                    if prior.dom().contains(k) && k == idle@[here]@ {
                        assert(exists|m: int| 0 <= m < d + 1 && (#[trigger] idle@[m])@ == k);
                    }
                }
            }
            d += 1;
        }
        proof {
            before.buckets.lemma_keys();
            let target = before@.swept(now).buckets;
            assert forall|k: IpView| #[trigger] self.buckets@.dom().contains(k)
                <==> target.dom().contains(k) by {
                if before.buckets@.dom().contains(k) {
                    let j = choose|j: int|
                        0 <= j < before.buckets.size() && before.buckets.key_view(j) == k;
                    assert(before.buckets.key_view(j) == k);
                }
            }
            assert(self.buckets@ =~= target);
        }
    }

    /// Try to admit a connection from `ip` at `now`; refused when its bucket
    /// holds less than a token.
    pub fn check(&mut self, ip: PeerIp, now: u64) -> (r: bool)
        requires
            old(self).wf(),
        ensures
            final(self).wf(),
            (final(self)@, r) == old(self)@.asked(key_of(ip@), now),
    {
        self.check_at(limiter_key(ip), now)
    }

    /// [`RateLimiter::check`] for a key.
    pub fn check_at(&mut self, key: PeerIp, now: u64) -> (r: bool)
        requires
            old(self).wf(),
        ensures
            final(self).wf(),
            (final(self)@, r) == old(self)@.asked(key@, now),
    {
        proof {
            self.buckets.lemma_size();
        }
        if self.buckets.len() >= MAX_BUCKETS {
            self.sweep(now);
        }
        let ghost s = self@;
        let full: u64 = self.full();
        let have: u64 = match self.buckets.get(&key) {
            Some(b) => {
                let level: u128 = self.risen(b, now);
                if level < full as u128 {
                    level as u64
                } else {
                    full
                }
            },
            None => full,
        };
        assert(have == s.tokens_of(key@, now));
        let enough = have >= NANO;
        let left: u64 = if enough {
            have - NANO
        } else {
            have
        };
        let _ = self.buckets.insert(key, Bucket { tokens: left, last: now });
        enough
    }
}

/// Bounds the number of live connections, overall and per source.
///
/// A rate limit alone cannot stop a flood of slow but established connections;
/// this can.
pub struct ConnLimiter {
    global_max: usize,
    per_key_max: u32,
    held: Vec<PeerIp>,
}

/// The largest overall cap.
pub const MAX_PERMITS: usize = usize::MAX / 8;

/// View of a [`ConnLimiter`]: the caps, and the key of every live connection.
pub struct ConnView {
    pub global_max: int,
    pub per_key_max: int,
    pub held: Seq<IpView>,
}

/// How often `k` occurs.
pub open spec fn times(s: Seq<IpView>, k: IpView) -> nat
    decreases s.len(),
{
    if s.len() == 0 {
        0
    } else {
        times(s.drop_last(), k) + (if s.last() == k {
            1nat
        } else {
            0nat
        })
    }
}

impl ConnView {
    /// Room for one more connection from `k`.
    pub open spec fn room(self, k: IpView) -> bool {
        self.held.len() < self.global_max && times(self.held, k) < self.per_key_max
    }
}

/// Views of a list of addresses.
pub open spec fn ips(s: Seq<PeerIp>) -> Seq<IpView> {
    s.map_values(|p: PeerIp| p@)
}

impl View for ConnLimiter {
    type V = ConnView;

    closed spec fn view(&self) -> ConnView {
        ConnView {
            global_max: self.global_max as int,
            per_key_max: self.per_key_max as int,
            held: ips(self.held@),
        }
    }
}

/// Held for a connection's lifetime, and given back to the limiter after it.
pub struct ConnPermit {
    key: PeerIp,
}

impl ConnPermit {
    /// The key the permit counts against.
    pub closed spec fn key(&self) -> IpView {
        self.key@
    }
}

impl ConnLimiter {
    /// No cap is exceeded.
    pub closed spec fn wf(&self) -> bool {
        &&& self@.held.len() <= self.global_max
        &&& self.per_key_max >= 1
        &&& forall|k: IpView| #[trigger] times(self@.held, k) <= self.per_key_max
    }

    /// A limiter with these caps; a cap of 0 would wedge the relay, so both
    /// are at least 1.
    pub fn new(global_max: usize, per_key_max: u32) -> (r: Self)
        ensures
            r.wf(),
            r@ == (ConnView {
                global_max: if global_max < 1 {
                    1
                } else if global_max > MAX_PERMITS {
                    MAX_PERMITS as int
                } else {
                    global_max as int
                },
                per_key_max: if per_key_max < 1 {
                    1
                } else {
                    per_key_max as int
                },
                held: Seq::empty(),
            }),
    {
        let g: usize = if global_max < 1 {
            1
        } else if global_max > MAX_PERMITS {
            MAX_PERMITS
        } else {
            global_max
        };
        let p: u32 = if per_key_max < 1 {
            1
        } else {
            per_key_max
        };
        let r = ConnLimiter { global_max: g, per_key_max: p, held: Vec::new() };
        assert(r@.held =~= Seq::<IpView>::empty());
        r
    }

    /// Try to admit a connection from `ip`: a permit, or `None` if the overall
    /// or the per-source cap is reached.
    pub fn try_admit(&mut self, ip: PeerIp) -> (r: Option<ConnPermit>)
        requires
            old(self).wf(),
        ensures
            final(self).wf(),
            match r {
                Some(p) => old(self)@.room(key_of(ip@)) && p.key() == key_of(ip@) && final(self)@
                    == (ConnView { held: old(self)@.held.push(key_of(ip@)), ..old(self)@ }),
                None => !old(self)@.room(key_of(ip@)) && final(self)@ == old(self)@,
            },
    {
        if self.held.len() >= self.global_max {
            return None;
        }
        let key = limiter_key(ip);
        let ghost hv = ips(self.held@);
        let mut count: u32 = 0;
        let mut i: usize = 0;
        assert(hv.take(0) =~= Seq::<IpView>::empty());
        while i < self.held.len()
            invariant
                i <= self.held@.len(),
                hv == ips(self.held@),
                count == times(hv.take(i as int), key@),
                count < self.per_key_max,
                self.wf(),
                self@.held == hv,
                self.held@.len() < self.global_max,
                key@ == key_of(ip@),
            decreases self.held@.len() - i,
        {
            proof {
                assert(hv.take(i + 1).drop_last() =~= hv.take(i as int));
                assert(hv.take(i + 1).last() == self.held@[i as int]@);
            }
            if self.held[i].same_key(&key) {
                count += 1;
                if count >= self.per_key_max {
                    proof {
                        lemma_times_take(hv, key@, i + 1);
                    }
                    return None;
                }
            }
            i += 1;
        }
        assert(hv.take(i as int) =~= hv);
        let ghost before = self@;
        self.held.push(key.dup_key());
        proof {
            assert(self@.held =~= before.held.push(key@));
            assert(self@.held.drop_last() =~= before.held);
            assert forall|k: IpView| #[trigger] times(self@.held, k) <= self.per_key_max by {
                assert(times(before.held, k) <= self.per_key_max);
            }
        }
        Some(ConnPermit { key })
    }

    /// A connection ended: free one slot of its source.
    pub fn release(&mut self, permit: ConnPermit)
        requires
            old(self).wf(),
        ensures
            final(self).wf(),
            final(self)@.global_max == old(self)@.global_max,
            final(self)@.per_key_max == old(self)@.per_key_max,
            times(old(self)@.held, permit.key()) == 0 ==> final(self)@.held == old(self)@.held,
            times(old(self)@.held, permit.key()) > 0 ==> {
                &&& final(self)@.held.len() == old(self)@.held.len() - 1
                &&& times(final(self)@.held, permit.key()) == times(old(self)@.held, permit.key())
                    - 1
                &&& forall|k: IpView|
                    k != permit.key() ==> #[trigger] times(final(self)@.held, k) == times(
                        old(self)@.held,
                        k,
                    )
            },
    {
        let key = permit.key;
        let ghost hv = ips(self.held@);
        let mut i: usize = 0;
        assert(hv.take(0) =~= Seq::<IpView>::empty());
        while i < self.held.len()
            invariant
                i <= self.held@.len(),
                *self == *old(self),
                self.wf(),
                hv == ips(self.held@),
                hv == self@.held,
                key == permit.key,
                times(hv.take(i as int), key@) == 0,
            decreases self.held@.len() - i,
        {
            proof {
                assert(hv.take(i + 1).drop_last() =~= hv.take(i as int));
                assert(hv.take(i + 1).last() == self.held@[i as int]@);
            }
            if self.held[i].same_key(&key) {
                let _ = self.held.remove(i);
                proof {
                    assert(ips(self.held@) =~= hv.remove(i as int));
                    assert forall|k: IpView| #[trigger] times(ips(self.held@), k) == times(hv, k) - (
                    if k == key@ {
                        1int
                    } else {
                        0
                    }) by {
                        lemma_times_remove(hv, k, i as int);
                    }
                    lemma_times_take(hv, key@, i + 1);
                    assert forall|k: IpView| #[trigger] times(self@.held, k)
                        <= self.per_key_max by {
                        assert(times(hv, k) <= old(self).per_key_max);
                    }
                }
                return;
            }
            i += 1;
        }
        assert(hv.take(i as int) =~= hv);
    }
}

proof fn lemma_times_take(s: Seq<IpView>, k: IpView, i: int)
    requires
        0 <= i <= s.len(),
    ensures
        times(s.take(i), k) <= times(s, k),
    decreases s.len() - i,
{
    if i < s.len() {
        lemma_times_take(s, k, i + 1);
        assert(s.take(i + 1).drop_last() =~= s.take(i));
    } else {
        assert(s.take(i) =~= s);
    }
}

proof fn lemma_times_remove(s: Seq<IpView>, k: IpView, i: int)
    requires
        0 <= i < s.len(),
    ensures
        times(s.remove(i), k) == times(s, k) - (if s[i] == k {
            1int
        } else {
            0
        }),
    decreases s.len(),
{
    if i == s.len() - 1 {
        assert(s.remove(i) =~= s.drop_last());
    } else {
        lemma_times_remove(s.drop_last(), k, i);
        assert(s.remove(i).drop_last() =~= s.drop_last().remove(i));
        assert(s.remove(i).last() == s.last());
    }
}

/// Addresses of one /64 share a key, and addresses of two have two.
pub proof fn rotation_mints_no_keys(a: Seq<u8>, b: Seq<u8>)
    requires
        a.len() == 16,
        b.len() == 16,
    ensures
        key_of(IpView::V6(a)) == key_of(IpView::V6(b)) <==> a.take(8) == b.take(8),
        key_of(key_of(IpView::V6(a))) == key_of(IpView::V6(a)),
{
    let z = seq![0u8, 0, 0, 0, 0, 0, 0, 0];
    assert((a.take(8) + z).take(8) =~= a.take(8));
    assert((b.take(8) + z).take(8) =~= b.take(8));
}

/// A full bucket fits its counter.
proof fn lemma_full(v: RateView)
    ensures
        0 <= v.full() <= u64::MAX,
{
    assert(0 <= v.burst * NANO <= 0xffff_ffff * 1_000_000_000) by (nonlinear_arith)
        requires
            0 <= v.burst <= 0xffff_ffff,
            NANO == 1_000_000_000,
    ;
}

/// A bucket rises with time, by no more than the rate.
proof fn lemma_risen(v: RateView, b: Bucket, now: u64, then: u64)
    requires
        now <= then,
    ensures
        0 <= v.risen(b, now) <= v.risen(b, then) <= v.risen(b, now) + (then - now) * v.rate,
{
    let r = v.rate as int;
    let (last, n, t) = (b.last as int, now as int, then as int);
    assert(n > last ==> (n - last) * r >= 0) by (nonlinear_arith)
        requires
            r >= 0,
    ;
    assert((t - n) * r >= 0) by (nonlinear_arith)
        requires
            r >= 0,
            t >= n,
    ;
    if n > last {
        assert((t - last) * r == (n - last) * r + (t - n) * r) by (nonlinear_arith);
    } else if t > last {
        assert(0 <= (t - last) * r <= (t - n) * r) by (nonlinear_arith)
            requires
                r >= 0,
                n <= last < t,
        ;
    }
}

/// Dropping the buckets that are full at `now` changes nothing that can be seen
/// from then on.
proof fn lemma_swept(v: RateView, k: IpView, now: u64, then: u64)
    requires
        now <= then,
    ensures
        v.swept(now).tokens_of(k, then) == v.tokens_of(k, then),
        v.swept(now).full() == v.full(),
        v.swept(now).rate == v.rate,
{
    let s = v.swept(now);
    if v.buckets.dom().contains(k) {
        lemma_risen(v, v.buckets[k], now, then);
        if v.risen(v.buckets[k], now) < v.full() {
            assert(s.buckets.dom().contains(k));
            assert(s.buckets[k] == v.buckets[k]);
        } else {
            assert(!s.buckets.dom().contains(k));
        }
    } else {
        assert(!s.buckets.dom().contains(k));
    }
}

/// What one question does: the source that is asked for pays a token where it
/// has one, and no other source is touched.
proof fn lemma_asked(v: RateView, a: IpView, now: u64)
    ensures
        v.asked(a, now).1 <==> v.tokens_of(a, now) >= NANO,
        v.asked(a, now).0.tokens_of(a, now) == v.tokens_of(a, now) - (if v.asked(a, now).1 {
            NANO as int
        } else {
            0
        }),
        v.asked(a, now).0.full() == v.full(),
        v.asked(a, now).0.rate == v.rate,
        forall|b: IpView, then: u64|
            b != a && now <= then ==> #[trigger] v.asked(a, now).0.tokens_of(b, then)
                == v.tokens_of(b, then),
{
    lemma_full(v);
    lemma_swept(v, a, now, now);
    let s = if v.buckets.dom().len() >= MAX_BUCKETS {
        v.swept(now)
    } else {
        v
    };
    if s.buckets.dom().contains(a) {
        lemma_risen(s, s.buckets[a], now, now);
    }
    let w = v.asked(a, now).0;
    assert(w.buckets[a].last == now);
    assert forall|b: IpView, then: u64| b != a && now <= then implies #[trigger] w.tokens_of(
        b,
        then,
    ) == v.tokens_of(b, then) by {
        lemma_swept(v, b, now, then);
        assert(w.tokens_of(b, then) == s.tokens_of(b, then));
    }
}

/// A source that is asked for at one instant is admitted exactly as often as
/// it has whole tokens.
pub proof fn burst_is_bounded(v: RateView, k: IpView, now: u64, n: nat)
    ensures
        asked_times(v, k, now, n).asked(k, now).1 <==> (n + 1) * NANO <= v.tokens_of(k, now),
        n * NANO <= v.tokens_of(k, now) ==> asked_times(v, k, now, n).tokens_of(k, now)
            == v.tokens_of(k, now) - n * NANO,
        n * NANO > v.tokens_of(k, now) ==> asked_times(v, k, now, n).tokens_of(k, now) < NANO,
        v.tokens_of(k, now) <= v.burst * NANO,
    decreases n,
{
    lemma_asked(asked_times(v, k, now, n), k, now);
    if n > 0 {
        burst_is_bounded(v, k, now, (n - 1) as nat);
        lemma_asked(asked_times(v, k, now, (n - 1) as nat), k, now);
    }
}

/// `n` questions at one instant.
pub open spec fn asked_times(v: RateView, k: IpView, now: u64, n: nat) -> RateView
    decreases n,
{
    if n == 0 {
        v
    } else {
        asked_times(v, k, now, (n - 1) as nat).asked(k, now).0
    }
}

/// Sources do not share tokens: asking for one leaves what another has at any
/// time from then on, and so every answer to the other.
pub proof fn sources_are_independent(v: RateView, a: IpView, b: IpView, now: u64, then: u64)
    requires
        a != b,
        now <= then,
    ensures
        v.asked(a, now).0.tokens_of(b, then) == v.tokens_of(b, then),
        v.asked(a, now).0.asked(b, then).1 == v.asked(b, then).1,
{
    lemma_asked(v, a, now);
    lemma_asked(v.asked(a, now).0, b, then);
    lemma_asked(v, b, then);
}

/// The limiter after a list of questions, each a source and an instant.
pub open spec fn after_asks(v: RateView, asks: Seq<(IpView, u64)>) -> RateView
    decreases asks.len(),
{
    if asks.len() == 0 {
        v
    } else {
        after_asks(v, asks.drop_last()).asked(asks.last().0, asks.last().1).0
    }
}

/// How many of a list of questions for `k` are granted.
pub open spec fn grants(v: RateView, asks: Seq<(IpView, u64)>, k: IpView) -> nat
    decreases asks.len(),
{
    if asks.len() == 0 {
        0
    } else {
        grants(v, asks.drop_last(), k) + (if asks.last().0 == k && after_asks(
            v,
            asks.drop_last(),
        ).asked(asks.last().0, asks.last().1).1 {
            1nat
        } else {
            0nat
        })
    }
}

/// Time does not run back from one question to the next.
pub open spec fn in_time(asks: Seq<(IpView, u64)>) -> bool {
    forall|i: int, j: int|
        0 <= i <= j < asks.len() ==> (#[trigger] asks[i]).1 <= (#[trigger] asks[j]).1
}

/// What is granted to a source and what it has left stays within what it began
/// with and what the time brought.
proof fn lemma_grants(v: RateView, asks: Seq<(IpView, u64)>, k: IpView)
    requires
        asks.len() > 0,
        in_time(asks),
    ensures
        grants(v, asks, k) * NANO + after_asks(v, asks).tokens_of(k, asks.last().1) <= v.full() + (
        asks.last().1 - asks[0].1) * v.rate,
        after_asks(v, asks).full() == v.full(),
        after_asks(v, asks).rate == v.rate,
    decreases asks.len(),
{
    let before = asks.drop_last();
    let (a, now) = asks.last();
    let w = after_asks(v, before);
    lemma_asked(w, a, now);
    if before.len() == 0 {
        assert(w == v);
        assert(grants(v, before, k) == 0);
        assert(w.tokens_of(k, now) <= v.full());
    } else {
        assert(in_time(before)) by {
            assert forall|i: int, j: int| 0 <= i <= j < before.len() implies (
            #[trigger] before[i]).1 <= (#[trigger] before[j]).1 by {
                assert(before[i] == asks[i] && before[j] == asks[j]);
            }
        }
        lemma_grants(v, before, k);
        let then = before.last().1;
        assert(before.last() == asks[asks.len() - 2]);
        assert(before[0] == asks[0]);
        assert(then <= now);
        if w.buckets.dom().contains(k) {
            lemma_risen(w, w.buckets[k], then, now);
        }
        assert((now - then) * w.rate >= 0) by (nonlinear_arith)
            requires
                then <= now,
                w.rate >= 0,
        ;
        assert(w.tokens_of(k, now) <= w.tokens_of(k, then) + (now - then) * w.rate);
        assert((now - asks[0].1) * v.rate == (then - asks[0].1) * v.rate + (now - then) * v.rate)
            by (nonlinear_arith);
    }
    assert(grants(v, asks, k) * NANO == grants(v, before, k) * NANO + (if a == k && w.asked(
        a,
        now,
    ).1 {
        NANO as int
    } else {
        0
    })) by {
        assert((grants(v, before, k) + 1) * NANO == grants(v, before, k) * NANO + NANO)
            by (nonlinear_arith);
    }
}

/// Over any span of time a source is granted no more than its burst and what
/// the rate brings in that span, whatever was asked before and whoever else is
/// asking. `earlier` are the questions before the span and `asks` those in it,
/// the last no later than `span` nanoseconds after the first.
pub proof fn rate_is_bounded(
    rate: u32,
    burst: u32,
    earlier: Seq<(IpView, u64)>,
    asks: Seq<(IpView, u64)>,
    k: IpView,
    span: nat,
)
    requires
        in_time(earlier + asks),
        asks.len() > 0 ==> asks.last().1 - asks[0].1 <= span,
    ensures
        ({
            let v = after_asks(RateView { rate, burst, buckets: Map::empty() }, earlier);
            grants(v, asks, k) * NANO <= burst * NANO + span * rate
        }),
{
    let start = RateView { rate, burst, buckets: Map::empty() };
    let v = after_asks(start, earlier);
    let all = earlier + asks;
    lemma_kept(start, earlier);
    lemma_full(v);
    assert(span * rate >= 0) by (nonlinear_arith)
        requires
            span >= 0,
            rate >= 0,
    ;
    if asks.len() > 0 {
        assert(in_time(asks)) by {
            assert forall|i: int, j: int| 0 <= i <= j < asks.len() implies (#[trigger] asks[i]).1
                <= (#[trigger] asks[j]).1 by {
                assert(all[earlier.len() + i] == asks[i]);
                assert(all[earlier.len() + j] == asks[j]);
            }
        }
        lemma_grants(v, asks, k);
        let w = after_asks(v, asks);
        let t = asks.last().1;
        if w.buckets.dom().contains(k) {
            lemma_risen(w, w.buckets[k], t, t);
        }
        assert((t - asks[0].1) * rate <= span * rate) by (nonlinear_arith)
            requires
                t - asks[0].1 <= span,
                rate >= 0,
        ;
    }
}

/// No question changes the rate or the burst.
proof fn lemma_kept(v: RateView, asks: Seq<(IpView, u64)>)
    ensures
        after_asks(v, asks).rate == v.rate,
        after_asks(v, asks).burst == v.burst,
    decreases asks.len(),
{
    if asks.len() > 0 {
        lemma_kept(v, asks.drop_last());
    }
}

/// The questions for one source.
pub open spec fn asks_for(k: IpView) -> spec_fn((IpView, u64)) -> bool {
    |q: (IpView, u64)| q.0 == k
}

/// However the questions for other sources are mixed in, a source has what it
/// would have without them, and is granted as often.
pub proof fn others_change_no_answer(v: RateView, asks: Seq<(IpView, u64)>, k: IpView, then: u64)
    requires
        in_time(asks),
        asks.len() > 0 ==> asks.last().1 <= then,
    ensures
        after_asks(v, asks).tokens_of(k, then) == after_asks(v, asks.filter(asks_for(k))).tokens_of(
            k,
            then,
        ),
        grants(v, asks, k) == grants(v, asks.filter(asks_for(k)), k),
    decreases asks.len(),
{
    let p = asks_for(k);
    reveal(Seq::filter);
    lemma_kept(v, asks);
    lemma_kept(v, asks.filter(p));
    if asks.len() > 0 {
        let before = asks.drop_last();
        let (a, now) = asks.last();
        assert(in_time(before)) by {
            assert forall|i: int, j: int| 0 <= i <= j < before.len() implies (
            #[trigger] before[i]).1 <= (#[trigger] before[j]).1 by {
                assert(before[i] == asks[i] && before[j] == asks[j]);
            }
        }
        if before.len() > 0 {
            assert(before.last() == asks[asks.len() - 2]);
        }
        let w = after_asks(v, before);
        let u = after_asks(v, before.filter(p));
        others_change_no_answer(v, before, k, now);
        others_change_no_answer(v, before, k, then);
        lemma_kept(v, before);
        lemma_kept(v, before.filter(p));
        lemma_asked(w, a, now);
        lemma_asked(u, a, now);
        if a == k {
            let f = before.filter(p).push(asks.last());
            assert(asks.filter(p) == f);
            assert(f.drop_last() =~= before.filter(p));
            assert(w.asked(a, now).0.buckets[k] == u.asked(a, now).0.buckets[k]) by {
                lemma_swept(w, k, now, now);
                lemma_swept(u, k, now, now);
            }
        } else {
            assert(asks.filter(p) == before.filter(p));
        }
    }
}

/// Giving a permit back makes room where there was none.
pub proof fn release_makes_room(before: ConnView, after: ConnView, k: IpView)
    requires
        before.held.len() <= before.global_max,
        times(before.held, k) <= before.per_key_max,
        after.global_max == before.global_max,
        after.per_key_max == before.per_key_max,
        after.held.len() == before.held.len() - 1,
        times(after.held, k) == times(before.held, k) - 1,
    ensures
        after.room(k),
{
}

/// A source that was not seen before gets its burst at once, and no more.
pub proof fn new_source_gets_its_burst(rate: u32, burst: u32, k: IpView, now: u64, n: nat)
    ensures
        asked_times((RateView { rate, burst, buckets: Map::empty() }), k, now, n).asked(k, now).1
            <==> n < burst,
{
    let v = RateView { rate, burst, buckets: Map::empty() };
    burst_is_bounded(v, k, now, n);
    assert(v.tokens_of(k, now) == burst * 1_000_000_000);
}

/// Between two requests of a source its tokens rise by `rate` a second, up to
/// the burst.
pub proof fn tokens_return_at_the_rate(v: RateView, k: IpView, now: u64, then: u64)
    requires
        now <= then,
    ensures
        ({
            let w = v.asked(k, now).0;
            let risen = w.tokens_of(k, now) + (then - now) * v.rate;
            w.tokens_of(k, then) == if risen < v.burst * 1_000_000_000 {
                risen
            } else {
                v.burst * 1_000_000_000
            }
        }),
        v.asked(k, then).1 <==> v.tokens_of(k, then) >= 1_000_000_000,
{
    lemma_asked(v, k, now);
    lemma_asked(v, k, then);
    lemma_full(v);
    let s = if v.buckets.dom().len() >= MAX_BUCKETS {
        v.swept(now)
    } else {
        v
    };
    let have = s.tokens_of(k, now);
    if s.buckets.dom().contains(k) {
        lemma_risen(s, s.buckets[k], now, now);
    }
    let w = v.asked(k, now).0;
    assert(w.buckets.dom().contains(k));
    assert(w.buckets[k].last == now);
    assert(0 <= have <= v.full());
    assert(w.buckets[k].tokens <= w.full());
    assert(w.risen(w.buckets[k], now) == w.buckets[k].tokens);
    if then == now {
        assert((then - now) * v.rate == 0) by (nonlinear_arith)
            requires
                then == now,
        ;
    }
}

/// A sweep forgets the full buckets and keeps the others as they are.
pub proof fn sweep_forgets_the_full(v: RateView, k: IpView, now: u64)
    ensures
        ({
            let kept = v.swept(now).buckets;
            let full = v.buckets[k].tokens + (if now > v.buckets[k].last {
                (now - v.buckets[k].last) * v.rate
            } else {
                0
            }) >= v.burst * 1_000_000_000;
            &&& kept.dom().contains(k) <==> v.buckets.dom().contains(k) && !full
            &&& kept.dom().contains(k) ==> kept[k] == v.buckets[k]
        }),
{
}

/// A table of 65536 buckets is swept before a bucket is added.
pub proof fn full_table_is_swept(v: RateView, asker: IpView, k: IpView, now: u64)
    requires
        v.buckets.dom().len() >= 65_536,
        k != asker,
    ensures
        v.asked(asker, now).0.buckets.dom().contains(k) ==> v.buckets.dom().contains(k)
            && v.tokens_of(k, now) < v.burst * 1_000_000_000,
{
}

/// An IPv4 source is its address; an IPv6 source is its leading 64 bits.
pub proof fn sources_are_addresses_or_networks(o: Seq<u8>, i: int)
    requires
        o.len() == 16,
        0 <= i < 16,
    ensures
        forall|p: Seq<u8>| #[trigger] key_of(IpView::V4(p)) == IpView::V4(p),
        match key_of(IpView::V6(o)) {
            IpView::V6(r) => r.len() == 16 && (if i < 8 {
                r[i] == o[i]
            } else {
                r[i] == 0
            }),
            IpView::V4(_) => false,
        },
{
}

proof fn lemma_times_count(s: Seq<IpView>, k: IpView)
    ensures
        times(s, k) == s.to_multiset().count(k),
    decreases s.len(),
{
    s.to_multiset_ensures();
    if s.len() > 0 {
        lemma_times_count(s.drop_last(), k);
        s.drop_last().to_multiset_ensures();
        assert(s =~= s.drop_last().push(s.last()));
        assert(s.to_multiset() =~= s.drop_last().to_multiset().insert(s.last()));
    } else {
        assert(!s.contains(k));
    }
}

/// A connection is let in while fewer than the limits are held, by its source
/// and overall.
pub proof fn room_is_below_both_limits(v: ConnView, k: IpView)
    ensures
        v.room(k) <==> v.held.len() < v.global_max && v.held.to_multiset().count(k)
            < v.per_key_max,
{
    lemma_times_count(v.held, k);
}

} // verus!
