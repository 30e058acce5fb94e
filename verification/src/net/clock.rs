//! Clock synchronization messages and the tick counter.

use vstd::prelude::*;
use vstd::relations::{sorted_by, total_ordering};
use vstd::seq_lib::lemma_sorted_unique;

verus! {

/// Fixed tick rate shared by client and server.
pub const TICK_RATE: u32 = 60;

/// Ping message sent by the client; the send time is a monotonic
/// nanosecond timestamp.
#[derive(Debug, Clone, Copy)]
pub struct Ping {
    /// Monotonic nanosecond timestamp on the client when the ping was sent.
    pub client_send_time_ns: u64,
    /// Sequence number for matching with [`Pong`].
    pub sequence: u32,
}

/// Pong response from the server.
#[derive(Debug, Clone, Copy)]
pub struct Pong {
    /// Echoed sequence number from the [`Ping`].
    pub sequence: u32,
    /// The server's authoritative tick at the time the pong was sent.
    pub server_tick: u64,
}

/// How the client should adjust its tick.
#[derive(Debug, Clone, Copy, PartialEq, Eq, Structural)]
pub enum TickAdjustment {
    /// No adjustment needed — within tolerance.
    NoAdjustment,
    /// Client is ahead; slow tick rate slightly.
    SlowDown,
    /// Client is behind; speed tick rate slightly.
    SpeedUp,
    /// Drift too large; hard-reset the tick counter.
    HardReset,
}

/// Tick counter of a client or the server.
#[derive(Debug, Clone, Copy)]
pub struct TickCounter {
    /// Current tick number.
    pub tick: u64,
    /// Whether this counter belongs to the server.
    pub is_server: bool,
}

impl TickCounter {
    /// Create a new tick counter at tick 0.
    pub fn new(is_server: bool) -> (r: Self)
        ensures
            r.tick == 0,
            r.is_server == is_server,
    {
        TickCounter { tick: 0, is_server }
    }

    /// Advance the counter by one tick, saturating at `u64::MAX`.
    pub fn advance(&mut self)
        ensures
            final(self).tick == if old(self).tick == u64::MAX { u64::MAX } else { (old(self).tick + 1) as u64 },
            final(self).is_server == old(self).is_server,
    {
        self.tick = self.tick.saturating_add(1);
    }
}

/// The order round-trip samples are sorted by.
pub open spec fn sample_leq() -> spec_fn(u128, u128) -> bool {
    |a: u128, b: u128| a <= b
}

/// The median of round-trip samples: the sample at index `len / 2` of the
/// samples sorted in ascending order.
pub open spec fn median_sample(samples: Seq<u128>) -> u128 {
    samples.sort_by(sample_leq())[samples.len() as int / 2]
}

/// Where in `samples` the median lies, or `None` when there are no samples.
pub fn median_index(samples: &Vec<u128>) -> (r: Option<usize>)
    ensures
        r is None <==> samples@.len() == 0,
        r matches Some(i) ==> i < samples@.len() && samples@[i as int] == median_sample(samples@),
{
    if samples.len() == 0 {
        return None;
    }
    let sorted = sorted_samples(samples);
    let m = sorted[samples.len() / 2];
    proof {
        lemma_sample_leq_total();
        samples@.lemma_sort_by_ensures(sample_leq());
        lemma_sorted_unique(sorted@, samples@.sort_by(sample_leq()), sample_leq());
        broadcast use vstd::seq_lib::group_to_multiset_ensures;
        assert(sorted@.contains(m));
        assert(samples@.to_multiset().count(m) > 0);
        assert(samples@.contains(m));
    }
    let mut j: usize = 0;
    while j < samples.len()
        invariant
            j <= samples@.len(),
            samples@.contains(m),
            m == median_sample(samples@),
            forall|k: int| 0 <= k < j ==> samples@[k] != m,
        decreases samples@.len() - j,
    {
        if samples[j] == m {
            return Some(j);
        }
        j = j + 1;
    }
    None
}

/// `a <= b` on samples is a total order.
proof fn lemma_sample_leq_total()
    ensures
        total_ordering(sample_leq()),
{
}

/// `samples` sorted in ascending order (selection sort).
fn sorted_samples(samples: &Vec<u128>) -> (r: Vec<u128>)
    ensures
        sorted_by(r@, sample_leq()),
        r@.to_multiset() == samples@.to_multiset(),
        r@.len() == samples@.len(),
{
    broadcast use vstd::seq_lib::group_to_multiset_ensures;
    broadcast use vstd::multiset::group_multiset_properties;
    let mut v = samples.clone();
    let n = v.len();
    let mut i: usize = 0;
    while i < n
        invariant
            n == v@.len(),
            i <= n,
            v@.to_multiset() == samples@.to_multiset(),
            forall|a: int, b: int| 0 <= a < b < i ==> v@[a] <= v@[b],
            forall|a: int, b: int| 0 <= a < i <= b < n ==> v@[a] <= v@[b],
        decreases n - i,
    {
        let mut m: usize = i;
        let mut k: usize = i + 1;
        while k < n
            invariant
                n == v@.len(),
                i <= m < n,
                i < k <= n,
                forall|b: int| i <= b < k ==> v@[m as int] <= v@[b],
            decreases n - k,
        {
            if v[k] < v[m] {
                m = k;
            }
            k = k + 1;
        }
        let a = v[i];
        let b = v[m];
        let ghost before = v@;
        v[i] = b;
        v[m] = a;
        proof {
            let mid = before.update(i as int, b);
            assert(v@ == mid.update(m as int, a));
            vstd::seq_lib::to_multiset_update(before, i as int, b);
            vstd::seq_lib::to_multiset_update(mid, m as int, a);
            if m == i {
                assert(v@ =~= before);
            } else {
                assert(mid[m as int] == b);
                assert(before.contains(a)) by {
                    assert(before[i as int] == a);
                }
                vstd::seq_lib::to_multiset_contains(before, a);
                assert(v@.to_multiset() =~= before.to_multiset());
            }
        }
        i = i + 1;
    }
    v
}

/// The client tick adjusted by the tick offset: `raw_tick + tick_offset`,
/// computed as `i64` (a tick above `i64::MAX` wraps round into the
/// negatives first) and read back as `u64`.
pub fn adjusted_tick(raw_tick: u64, tick_offset: i64) -> (r: u64)
    requires
        i64::MIN <= (raw_tick as i64) + tick_offset <= i64::MAX,
    ensures
        r == ((raw_tick as i64) + tick_offset) as u64,
{
    let t: i64 = (raw_tick as i64) + tick_offset;
    t as u64
}

/// Advancing never moves the tick backward.
pub proof fn lemma_tick_monotone(t: u64)
    ensures
        t <= (if t == u64::MAX { u64::MAX } else { (t + 1) as u64 }),
{
}

} // verus!
