//! Bandwidth budgeting: per-client bandwidth enforcement, priority-based
//! message scheduling and adaptive rate reduction.

use vstd::prelude::*;
use std::collections::VecDeque;

verus! {

/// Unique identifier for a connected client.
pub type ClientId = u64;

/// Configures the maximum bandwidth allowed per client.
#[derive(Debug, Clone, Copy)]
pub struct BandwidthConfig {
    /// Maximum bytes the server will send per second (default: 125,000 = 1 Mbps).
    pub max_bytes_per_second: usize,
    /// Server tick rate in Hz.
    pub tick_rate: u32,
}

impl Default for BandwidthConfig {
    fn default() -> (r: Self)
        ensures
            r.max_bytes_per_second == 125_000,
            r.tick_rate == 60,
    {
        BandwidthConfig { max_bytes_per_second: 125_000, tick_rate: 60 }
    }
}

/// Bytes per tick of a configuration: the per-second budget divided by the
/// tick rate, rounded down.
pub open spec fn bytes_per_tick_spec(c: BandwidthConfig) -> nat {
    (c.max_bytes_per_second / (c.tick_rate as usize)) as nat
}

impl BandwidthConfig {
    /// Bytes the server may send to this client per tick.
    pub fn bytes_per_tick(&self) -> (r: usize)
        requires
            self.tick_rate > 0,
        ensures
            r == bytes_per_tick_spec(*self),
    {
        self.max_bytes_per_second / self.tick_rate as usize
    }
}

/// Tracks how much bandwidth a single client has consumed in the current
/// tick and keeps a rolling history of per-tick usage.
#[derive(Debug)]
pub struct ClientBandwidthTracker {
    /// Which client this tracker belongs to.
    pub client_id: ClientId,
    /// Budget configuration.
    pub config: BandwidthConfig,
    /// Bytes already sent during the current tick.
    pub bytes_sent_this_tick: usize,
    /// Per-tick send history (most recent at the back).
    pub bytes_sent_history: VecDeque<usize>,
    /// Maximum entries retained in the history (default: 600 = 10 s at 60 Hz).
    pub max_history: usize,
}

/// The history after archiving `used`: appended, and its oldest entry
/// dropped when that makes it longer than `max`.
pub open spec fn archived(history: Seq<usize>, used: usize, max: usize) -> Seq<usize> {
    let h = history.push(used);
    if h.len() > max {
        h.subrange(1, h.len() as int)
    } else {
        h
    }
}

/// The budget left when `used` of `budget` bytes are spent (never below 0).
pub open spec fn remaining_spec(budget: nat, used: nat) -> nat {
    if used <= budget {
        (budget - used) as nat
    } else {
        0
    }
}

impl ClientBandwidthTracker {
    /// Create a new tracker for `client_id` with the given config.
    pub fn new(client_id: ClientId, config: BandwidthConfig) -> (r: Self)
        ensures
            r.client_id == client_id,
            r.config == config,
            r.bytes_sent_this_tick == 0,
            r.bytes_sent_history@ == Seq::<usize>::empty(),
            r.max_history == 600,
    {
        ClientBandwidthTracker {
            client_id,
            config,
            bytes_sent_this_tick: 0,
            bytes_sent_history: VecDeque::new(),
            max_history: 600,
        }
    }

    /// How many bytes remain in this tick's budget.
    pub fn remaining_budget(&self) -> (r: usize)
        requires
            self.config.tick_rate > 0,
        ensures
            r == remaining_spec(bytes_per_tick_spec(self.config), self.bytes_sent_this_tick as nat),
    {
        self.config.bytes_per_tick().saturating_sub(self.bytes_sent_this_tick)
    }

    /// Record that `bytes` were sent to this client.
    pub fn consume(&mut self, bytes: usize)
        requires
            old(self).bytes_sent_this_tick + bytes <= usize::MAX,
        ensures
            final(self).bytes_sent_this_tick == old(self).bytes_sent_this_tick + bytes,
            final(self).client_id == old(self).client_id,
            final(self).config == old(self).config,
            final(self).bytes_sent_history@ == old(self).bytes_sent_history@,
            final(self).max_history == old(self).max_history,
    {
        self.bytes_sent_this_tick = self.bytes_sent_this_tick + bytes;
    }

    /// The largest per-tick usage in the history, or 0 when it is empty.
    pub open spec fn peak_tick(&self) -> nat {
        peak_of(self.bytes_sent_history@)
    }

    /// The usage of the last tick in the history, or 0 when it is empty.
    pub open spec fn last_tick(&self) -> nat {
        if self.bytes_sent_history@.len() == 0 {
            0
        } else {
            self.bytes_sent_history@.last() as nat
        }
    }

    /// Bytes per second of the last tick and of the busiest tick in the
    /// history: each tick's usage times the tick rate (0 for an empty
    /// history).
    pub fn usage_rates(&self) -> (r: (usize, usize))
        requires
            self.peak_tick() * self.config.tick_rate <= usize::MAX,
        ensures
            r.0 == self.last_tick() * self.config.tick_rate,
            r.1 == self.peak_tick() * self.config.tick_rate,
    {
        let tick_rate = self.config.tick_rate as usize;
        let n = self.bytes_sent_history.len();
        let mut peak: usize = 0;
        let mut i: usize = 0;
        while i < n
            invariant
                n == self.bytes_sent_history@.len(),
                i <= n,
                peak == peak_of(self.bytes_sent_history@.take(i as int)),
            decreases n - i,
        {
            proof {
                assert(self.bytes_sent_history@.take(i + 1).drop_last() =~= self.bytes_sent_history@.take(i as int));
            }
            let v = self.bytes_sent_history[i];
            if v > peak {
                peak = v;
            }
            i = i + 1;
        }
        proof {
            assert(self.bytes_sent_history@.take(n as int) =~= self.bytes_sent_history@);
            lemma_peak_bounds(self.bytes_sent_history@);
        }
        let last: usize = if n == 0 { 0 } else { self.bytes_sent_history[n - 1] };
        assert(last <= peak);
        assert(last * tick_rate <= peak * tick_rate) by (nonlinear_arith)
            requires last <= peak;
        (last * tick_rate, peak * tick_rate)
    }

    /// The total bytes of the ticks in the history; the average usage is
    /// this over the history's length.
    pub fn usage_sum(&self) -> (r: usize)
        requires
            usage_total(self.bytes_sent_history@) <= usize::MAX,
        ensures
            r == usage_total(self.bytes_sent_history@),
    {
        let n = self.bytes_sent_history.len();
        let mut sum: usize = 0;
        let mut i: usize = 0;
        while i < n
            invariant
                n == self.bytes_sent_history@.len(),
                i <= n,
                usage_total(self.bytes_sent_history@) <= usize::MAX,
                sum == usage_total(self.bytes_sent_history@.take(i as int)),
            decreases n - i,
        {
            proof {
                assert(self.bytes_sent_history@.take(i + 1).drop_last() =~= self.bytes_sent_history@.take(i as int));
                lemma_usage_total_prefix(self.bytes_sent_history@, i + 1);
            }
            sum = sum + self.bytes_sent_history[i];
            i = i + 1;
        }
        proof {
            assert(self.bytes_sent_history@.take(n as int) =~= self.bytes_sent_history@);
        }
        sum
    }

    /// Finish the current tick: archive its usage and reset the counter.
    pub fn end_tick(&mut self)
        ensures
            final(self).bytes_sent_this_tick == 0,
            final(self).bytes_sent_history@ == archived(
                old(self).bytes_sent_history@,
                old(self).bytes_sent_this_tick,
                old(self).max_history,
            ),
            final(self).client_id == old(self).client_id,
            final(self).config == old(self).config,
            final(self).max_history == old(self).max_history,
    {
        self.bytes_sent_history.push_back(self.bytes_sent_this_tick);
        if self.bytes_sent_history.len() > self.max_history {
            self.bytes_sent_history.pop_front();
        }
        self.bytes_sent_this_tick = 0;
    }
}

/// The history never grows past its limit once it is within it, and its
/// newest entry is the archived usage (unless the limit is 0).
pub proof fn lemma_history_bounded(history: Seq<usize>, used: usize, max: usize)
    requires
        history.len() <= max,
    ensures
        archived(history, used, max).len() <= max,
        max > 0 ==> archived(history, used, max).last() == used,
{
}

/// Priority levels for outgoing messages, most urgent first.
#[derive(Debug, Clone, Copy, PartialEq, Eq, Structural, PartialOrd, Ord, Hash)]
pub enum MessagePriority {
    /// The client's own authoritative position – never deferred.
    PlayerState,
    /// Entities within the client's interest area.
    NearbyEntities,
    /// Real-time block changes.
    VoxelEdits,
    /// Streamed terrain data.
    ChunkData,
    /// Text communication.
    Chat,
    /// Stats, debug info, and other non-critical data.
    Metadata,
}

/// The rank of a priority: 0 for the most urgent up to 5.
pub open spec fn rank(p: MessagePriority) -> nat {
    match p {
        MessagePriority::PlayerState => 0,
        MessagePriority::NearbyEntities => 1,
        MessagePriority::VoxelEdits => 2,
        MessagePriority::ChunkData => 3,
        MessagePriority::Chat => 4,
        MessagePriority::Metadata => 5,
    }
}

/// A message tagged with a priority and its serialised payload.
#[derive(Debug, Clone)]
pub struct PrioritizedMessage {
    /// Scheduling priority.
    pub priority: MessagePriority,
    /// Serialised payload bytes.
    pub data: Vec<u8>,
    /// Cached byte length of `data`.
    pub size: usize,
}

/// A minimal send-side abstraction so the budgeting logic can run without
/// a real connection.
pub trait MessageSender {
    /// The payloads handed to [`MessageSender::send`] so far, oldest first.
    spec fn sent_log(&self) -> Seq<Seq<u8>>;

    /// Send raw bytes to the client; the payload is appended to the log.
    fn send(&mut self, data: &[u8])
        ensures
            final(self).sent_log() == old(self).sent_log().push(data@),
    ;
}

/// A sender that records every payload it is handed, in order.
#[derive(Debug, Default)]
pub struct RecordingSender {
    /// The payloads sent so far, oldest first.
    pub sent: Vec<Vec<u8>>,
}

impl MessageSender for RecordingSender {
    closed spec fn sent_log(&self) -> Seq<Seq<u8>> {
        self.sent@.map_values(|v: Vec<u8>| v@)
    }

    fn send(&mut self, data: &[u8]) {
        let v = slice_to_vec(data);
        let ghost before = self.sent@;
        self.sent.push(v);
        assert(self.sent@.map_values(|v: Vec<u8>| v@) =~= before.map_values(|v: Vec<u8>| v@).push(data@));
    }
}

/// A copy of `data`.
fn slice_to_vec(data: &[u8]) -> (r: Vec<u8>)
    ensures
        r@ == data@,
{
    let mut r: Vec<u8> = Vec::new();
    let mut i: usize = 0;
    while i < data.len()
        invariant
            i <= data@.len(),
            r@ == data@.take(i as int),
        decreases data@.len() - i,
    {
        r.push(data[i]);
        i = i + 1;
        assert(r@ =~= data@.take(i as int));
    }
    assert(data@.take(i as int) =~= data@);
    r
}

/// The payloads of `msgs`, in order.
pub open spec fn payloads(msgs: Seq<PrioritizedMessage>) -> Seq<Seq<u8>> {
    msgs.map_values(|m: PrioritizedMessage| m.data@)
}

/// The messages of `s` with priority rank `r`, in their order in `s`.
pub open spec fn with_rank(s: Seq<PrioritizedMessage>, r: nat) -> Seq<PrioritizedMessage>
    decreases s.len(),
{
    if s.len() == 0 {
        Seq::empty()
    } else {
        let rest = with_rank(s.drop_last(), r);
        if rank(s.last().priority) == r {
            rest.push(s.last())
        } else {
            rest
        }
    }
}

/// `s` stably sorted by priority: all messages of rank 0 in their given
/// order, then those of rank 1, and so on.
pub open spec fn by_priority(s: Seq<PrioritizedMessage>) -> Seq<PrioritizedMessage> {
    with_rank(s, 0) + with_rank(s, 1) + with_rank(s, 2) + with_rank(s, 3) + with_rank(s, 4) + with_rank(s, 5)
}

/// Sending `msgs` in order against `budget` bytes of which `used` are
/// spent: a message goes out when the remaining budget covers its size and
/// is deferred otherwise. The deferred messages in order, and the bytes
/// spent in the end.
pub open spec fn send_plan(msgs: Seq<PrioritizedMessage>, budget: nat, used: nat) -> (Seq<PrioritizedMessage>, nat)
    decreases msgs.len(),
{
    if msgs.len() == 0 {
        (Seq::empty(), used)
    } else {
        let m = msgs[0];
        let rest = msgs.subrange(1, msgs.len() as int);
        if remaining_spec(budget, used) >= m.size {
            send_plan(rest, budget, (used + m.size) as nat)
        } else {
            let (d, u) = send_plan(rest, budget, used);
            (seq![m] + d, u)
        }
    }
}

/// The messages of `msgs` that go out, in order, when they are sent as in
/// [`send_plan`].
pub open spec fn sent_of(msgs: Seq<PrioritizedMessage>, budget: nat, used: nat) -> Seq<PrioritizedMessage>
    decreases msgs.len(),
{
    if msgs.len() == 0 {
        Seq::empty()
    } else {
        let m = msgs[0];
        let rest = msgs.subrange(1, msgs.len() as int);
        if remaining_spec(budget, used) >= m.size {
            seq![m] + sent_of(rest, budget, (used + m.size) as nat)
        } else {
            sent_of(rest, budget, used)
        }
    }
}

/// A tick never spends more than its budget (or, when it started over
/// budget, nothing more), and never less than was spent before.
pub proof fn lemma_send_plan_bound(msgs: Seq<PrioritizedMessage>, budget: nat, used: nat)
    ensures
        send_plan(msgs, budget, used).1 <= if used <= budget { budget } else { used },
        send_plan(msgs, budget, used).1 >= used,
    decreases msgs.len(),
{
    if msgs.len() > 0 {
        let m = msgs[0];
        let rest = msgs.subrange(1, msgs.len() as int);
        if remaining_spec(budget, used) >= m.size {
            lemma_send_plan_bound(rest, budget, (used + m.size) as nat);
        } else {
            lemma_send_plan_bound(rest, budget, used);
        }
    }
}

/// The rank of a priority.
fn priority_rank(p: MessagePriority) -> (r: u8)
    ensures
        r == rank(p),
{
    match p {
        MessagePriority::PlayerState => 0,
        MessagePriority::NearbyEntities => 1,
        MessagePriority::VoxelEdits => 2,
        MessagePriority::ChunkData => 3,
        MessagePriority::Chat => 4,
        MessagePriority::Metadata => 5,
    }
}

/// Moves the messages of `queue` into priority order (stable).
fn sort_by_priority(queue: &mut Vec<PrioritizedMessage>)
    ensures
        final(queue)@ == by_priority(old(queue)@),
{
    let ghost s = queue@;
    let mut items: Vec<PrioritizedMessage> = Vec::new();
    std::mem::swap(queue, &mut items);
    let mut b0: Vec<PrioritizedMessage> = Vec::new();
    let mut b1: Vec<PrioritizedMessage> = Vec::new();
    let mut b2: Vec<PrioritizedMessage> = Vec::new();
    let mut b3: Vec<PrioritizedMessage> = Vec::new();
    let mut b4: Vec<PrioritizedMessage> = Vec::new();
    let mut b5: Vec<PrioritizedMessage> = Vec::new();
    let ghost mut i: int = 0;
    while items.len() > 0
        invariant
            0 <= i <= s.len(),
            items@ == s.subrange(i, s.len() as int),
            b0@ == with_rank(s.take(i), 0),
            b1@ == with_rank(s.take(i), 1),
            b2@ == with_rank(s.take(i), 2),
            b3@ == with_rank(s.take(i), 3),
            b4@ == with_rank(s.take(i), 4),
            b5@ == with_rank(s.take(i), 5),
        decreases items@.len(),
    {
        let m = items.remove(0);
        proof {
            assert(s.take(i + 1).drop_last() =~= s.take(i));
            assert(s.take(i + 1).last() == s[i]);
        }
        let r = priority_rank(m.priority);
        if r == 0 {
            b0.push(m);
        } else if r == 1 {
            b1.push(m);
        } else if r == 2 {
            b2.push(m);
        } else if r == 3 {
            b3.push(m);
        } else if r == 4 {
            b4.push(m);
        } else {
            b5.push(m);
        }
        proof {
            i = i + 1;
            assert(items@ =~= s.subrange(i, s.len() as int));
        }
    }
    assert(s.take(i) =~= s);
    b0.append(&mut b1);
    b0.append(&mut b2);
    b0.append(&mut b3);
    b0.append(&mut b4);
    b0.append(&mut b5);
    *queue = b0;
}

/// Plans one tick for one client: takes the queue in priority order
/// (stable within a priority) and splits it into the messages that the
/// remaining budget covers, which are charged to the tick, and the others,
/// deferred. Returns `(sent, deferred)`, each in that order; the queue is
/// left empty.
pub fn plan_tick_messages(tracker: &mut ClientBandwidthTracker, queue: &mut Vec<PrioritizedMessage>) -> (r: (
    Vec<PrioritizedMessage>,
    Vec<PrioritizedMessage>,
))
    requires
        old(tracker).config.tick_rate > 0,
    ensures
        r.0@ == sent_of(
            by_priority(old(queue)@),
            bytes_per_tick_spec(old(tracker).config),
            old(tracker).bytes_sent_this_tick as nat,
        ),
        r.1@ == send_plan(
            by_priority(old(queue)@),
            bytes_per_tick_spec(old(tracker).config),
            old(tracker).bytes_sent_this_tick as nat,
        ).0,
        final(queue)@ == Seq::<PrioritizedMessage>::empty(),
        final(tracker).bytes_sent_this_tick == send_plan(
            by_priority(old(queue)@),
            bytes_per_tick_spec(old(tracker).config),
            old(tracker).bytes_sent_this_tick as nat,
        ).1,
        final(tracker).bytes_sent_history@ == old(tracker).bytes_sent_history@,
        final(tracker).client_id == old(tracker).client_id,
        final(tracker).config == old(tracker).config,
        final(tracker).max_history == old(tracker).max_history,
{
    sort_by_priority(queue);
    let ghost sorted = queue@;
    let ghost budget = bytes_per_tick_spec(tracker.config);
    let ghost used0 = tracker.bytes_sent_this_tick as nat;
    let mut items: Vec<PrioritizedMessage> = Vec::new();
    std::mem::swap(queue, &mut items);
    let mut sent: Vec<PrioritizedMessage> = Vec::new();
    let mut deferred: Vec<PrioritizedMessage> = Vec::new();
    let ghost mut i: int = 0;
    proof {
        lemma_send_plan_bound(sorted, budget, used0);
    }
    while items.len() > 0
        invariant
            0 <= i <= sorted.len(),
            items@ == sorted.subrange(i, sorted.len() as int),
            tracker.config == old(tracker).config,
            tracker.config.tick_rate > 0,
            tracker.client_id == old(tracker).client_id,
            tracker.max_history == old(tracker).max_history,
            tracker.bytes_sent_history@ == old(tracker).bytes_sent_history@,
            budget == bytes_per_tick_spec(tracker.config),
            queue@ == Seq::<PrioritizedMessage>::empty(),
            send_plan(sorted, budget, used0).0 == deferred@ + send_plan(
                items@,
                budget,
                tracker.bytes_sent_this_tick as nat,
            ).0,
            sent_of(sorted, budget, used0) == sent@ + sent_of(items@, budget, tracker.bytes_sent_this_tick as nat),
            send_plan(sorted, budget, used0).1 == send_plan(items@, budget, tracker.bytes_sent_this_tick as nat).1,
            tracker.bytes_sent_this_tick >= used0,
            tracker.bytes_sent_this_tick <= if used0 <= budget { budget } else { used0 },
        decreases items@.len(),
    {
        let message = items.remove(0);
        proof {
            assert(items@ =~= sorted.subrange(i + 1, sorted.len() as int));
            i = i + 1;
        }
        if tracker.remaining_budget() >= message.size {
            proof {
                lemma_send_plan_bound(items@, budget, (tracker.bytes_sent_this_tick + message.size) as nat);
            }
            tracker.consume(message.size);
            let ghost before = sent@;
            sent.push(message);
            proof {
                assert(sent@ + sent_of(items@, budget, tracker.bytes_sent_this_tick as nat) =~= before + (seq![message]
                    + sent_of(items@, budget, tracker.bytes_sent_this_tick as nat)));
            }
        } else {
            let ghost before = deferred@;
            deferred.push(message);
            proof {
                assert(deferred@ + send_plan(items@, budget, tracker.bytes_sent_this_tick as nat).0 =~= before + (seq![message]
                    + send_plan(items@, budget, tracker.bytes_sent_this_tick as nat).0));
            }
        }
    }
    assert(deferred@ =~= send_plan(sorted, budget, used0).0);
    assert(sent@ =~= sent_of(sorted, budget, used0));
    (sent, deferred)
}

/// Process the outgoing queue for one client during a single tick.
///
/// Messages are sent in priority order (stable within a priority) while
/// the remaining budget covers them; the others are returned, in that
/// order, deferred to the next tick. The queue is left empty and the
/// tick's usage is archived. Which messages go out is
/// [`plan_tick_messages`]; the payload of each of them is handed to
/// `sender.send`, in that order, and nothing else is.
pub fn send_tick_messages<S: MessageSender>(
    tracker: &mut ClientBandwidthTracker,
    queue: &mut Vec<PrioritizedMessage>,
    sender: &mut S,
) -> (deferred: Vec<PrioritizedMessage>)
    requires
        old(tracker).config.tick_rate > 0,
    ensures
        deferred@ == send_plan(
            by_priority(old(queue)@),
            bytes_per_tick_spec(old(tracker).config),
            old(tracker).bytes_sent_this_tick as nat,
        ).0,
        final(queue)@ == Seq::<PrioritizedMessage>::empty(),
        final(tracker).bytes_sent_this_tick == 0,
        final(tracker).bytes_sent_history@ == archived(
            old(tracker).bytes_sent_history@,
            send_plan(
                by_priority(old(queue)@),
                bytes_per_tick_spec(old(tracker).config),
                old(tracker).bytes_sent_this_tick as nat,
            ).1 as usize,
            old(tracker).max_history,
        ),
        final(tracker).client_id == old(tracker).client_id,
        final(tracker).config == old(tracker).config,
        final(tracker).max_history == old(tracker).max_history,
        final(sender).sent_log() == old(sender).sent_log() + payloads(
            sent_of(
                by_priority(old(queue)@),
                bytes_per_tick_spec(old(tracker).config),
                old(tracker).bytes_sent_this_tick as nat,
            ),
        ),
{
    let (sent, deferred) = plan_tick_messages(tracker, queue);
    let mut i: usize = 0;
    proof {
        assert(old(sender).sent_log() + payloads(sent@.take(0)) =~= old(sender).sent_log());
    }
    while i < sent.len()
        invariant
            i <= sent@.len(),
            sender.sent_log() == old(sender).sent_log() + payloads(sent@.take(i as int)),
        decreases sent@.len() - i,
    {
        sender.send(sent[i].data.as_slice());
        proof {
            assert(payloads(sent@.take(i + 1)) =~= payloads(sent@.take(i as int)).push(sent@[i as int].data@));
            assert(old(sender).sent_log() + payloads(sent@.take(i + 1)) =~= (old(sender).sent_log() + payloads(
                sent@.take(i as int),
            )).push(sent@[i as int].data@));
        }
        i = i + 1;
    }
    proof {
        assert(sent@.take(i as int) =~= sent@);
    }
    tracker.end_tick();
    deferred
}

/// Adapts the entity-update send interval based on measured RTT.
#[derive(Debug, Clone, Copy)]
pub struct AdaptiveRate {
    /// Send entity updates every N ticks (1 = every tick, max 4).
    pub entity_update_interval: u32,
    /// RTT (ms) above which rate reduction begins.
    pub rtt_threshold_ms: u64,
}

impl Default for AdaptiveRate {
    fn default() -> (r: Self)
        ensures
            r.entity_update_interval == 1,
            r.rtt_threshold_ms == 150,
    {
        AdaptiveRate { entity_update_interval: 1, rtt_threshold_ms: 150 }
    }
}

/// The interval chosen for an RTT sample: 4 above twice the threshold, 2
/// above the threshold, else 1.
pub open spec fn interval_for(rtt_ms: u64, threshold: u64) -> u32 {
    if rtt_ms > 2 * threshold {
        4
    } else if rtt_ms > threshold {
        2
    } else {
        1
    }
}

impl AdaptiveRate {
    /// Re-evaluate the send interval based on the latest RTT sample.
    pub fn adjust(&mut self, rtt_ms: u64)
        requires
            2 * old(self).rtt_threshold_ms <= u64::MAX,
        ensures
            final(self).entity_update_interval == interval_for(rtt_ms, old(self).rtt_threshold_ms),
            final(self).rtt_threshold_ms == old(self).rtt_threshold_ms,
    {
        if rtt_ms > self.rtt_threshold_ms * 2 {
            self.entity_update_interval = 4;
        } else if rtt_ms > self.rtt_threshold_ms {
            self.entity_update_interval = 2;
        } else {
            self.entity_update_interval = 1;
        }
    }

    /// Whether an entity update should be emitted on the given tick: the
    /// tick is a multiple of the interval (with interval 0, only tick 0).
    pub fn should_send_entity_update(&self, tick: u64) -> (r: bool)
        ensures
            r == if self.entity_update_interval == 0 {
                tick == 0
            } else {
                tick % (self.entity_update_interval as u64) == 0
            },
    {
        let n = self.entity_update_interval as u64;
        if n == 0 {
            tick == 0
        } else {
            tick % n == 0
        }
    }
}

/// The interval never falls outside 1..=4 and grows with the RTT.
pub proof fn lemma_interval_monotone(rtt_a: u64, rtt_b: u64, threshold: u64)
    requires
        rtt_a <= rtt_b,
    ensures
        1 <= interval_for(rtt_a, threshold) <= 4,
        interval_for(rtt_a, threshold) <= interval_for(rtt_b, threshold),
{
}

/// The sum of the entries of `s`.
pub open spec fn usage_total(s: Seq<usize>) -> nat
    decreases s.len(),
{
    if s.len() == 0 {
        0
    } else {
        usage_total(s.drop_last()) + s.last() as nat
    }
}

/// The entries of a prefix sum to no more than the whole.
proof fn lemma_usage_total_prefix(s: Seq<usize>, k: int)
    requires
        0 <= k <= s.len(),
    ensures
        usage_total(s.take(k)) <= usage_total(s),
    decreases s.len() - k,
{
    if k < s.len() {
        lemma_usage_total_prefix(s, k + 1);
        assert(s.take(k + 1).drop_last() =~= s.take(k));
    } else {
        assert(s.take(k) =~= s);
    }
}

/// The largest entry of `s`, or 0 when it is empty.
pub open spec fn peak_of(s: Seq<usize>) -> nat
    decreases s.len(),
{
    if s.len() == 0 {
        0
    } else {
        let p = peak_of(s.drop_last());
        if s.last() > p {
            s.last() as nat
        } else {
            p
        }
    }
}

/// Every entry, the last one included, is at most the peak.
proof fn lemma_peak_bounds(s: Seq<usize>)
    ensures
        forall|i: int| 0 <= i < s.len() ==> s[i] <= peak_of(s),
    decreases s.len(),
{
    if s.len() > 0 {
        lemma_peak_bounds(s.drop_last());
        assert forall|i: int| 0 <= i < s.len() implies s[i] <= peak_of(s) by {
            if i < s.len() - 1 {
                assert(s[i] == s.drop_last()[i]);
            }
        }
    }
}

/// Priorities rank in the order they are declared, most urgent first: one
/// priority outranks another exactly when it is declared before it, so
/// `PlayerState` outranks `NearbyEntities`, which outranks `VoxelEdits`,
/// then `ChunkData`, `Chat` and `Metadata`.
pub proof fn lemma_rank_follows_declaration(p: MessagePriority, q: MessagePriority)
    ensures
        rank(p) == p as u8,
        rank(p) < rank(q) <==> (p as u8) < (q as u8),
        rank(p) == rank(q) <==> p == q,
{
}

/// Whether the messages of `s` come in order of declared priority, most
/// urgent first.
pub open spec fn urgency_sorted(s: Seq<PrioritizedMessage>) -> bool {
    forall|i: int, j: int| #![trigger s[i], s[j]] 0 <= i < j < s.len() ==> (s[i].priority as u8) <= (s[j].priority as u8)
}

/// The queue put in priority order sends its messages most urgent first,
/// in the order the priorities are declared, and holds the same messages:
/// each message of `s` occurs as often in the sorted queue.
pub proof fn lemma_by_priority_most_urgent_first(s: Seq<PrioritizedMessage>)
    ensures
        urgency_sorted(by_priority(s)),
        by_priority(s).len() == s.len(),
{
    lemma_with_rank_ranks(s, 0);
    lemma_with_rank_ranks(s, 1);
    lemma_with_rank_ranks(s, 2);
    lemma_with_rank_ranks(s, 3);
    lemma_with_rank_ranks(s, 4);
    lemma_with_rank_ranks(s, 5);
    let a0 = with_rank(s, 0);
    let a1 = a0 + with_rank(s, 1);
    let a2 = a1 + with_rank(s, 2);
    let a3 = a2 + with_rank(s, 3);
    let a4 = a3 + with_rank(s, 4);
    let a5 = a4 + with_rank(s, 5);
    lemma_append_rank_block(a0, with_rank(s, 1), 1);
    lemma_append_rank_block(a1, with_rank(s, 2), 2);
    lemma_append_rank_block(a2, with_rank(s, 3), 3);
    lemma_append_rank_block(a3, with_rank(s, 4), 4);
    lemma_append_rank_block(a4, with_rank(s, 5), 5);
    assert forall|i: int, j: int| #![trigger a5[i], a5[j]] 0 <= i < j < a5.len() implies (a5[i].priority as u8) <= (a5[j].priority as u8) by {
        lemma_rank_follows_declaration(a5[i].priority, a5[j].priority);
    }
    lemma_with_rank_lengths(s);
}

/// Every message picked by [`with_rank`] has that rank.
proof fn lemma_with_rank_ranks(s: Seq<PrioritizedMessage>, r: nat)
    ensures
        forall|i: int| 0 <= i < with_rank(s, r).len() ==> rank(#[trigger] with_rank(s, r)[i].priority) == r,
    decreases s.len(),
{
    if s.len() > 0 {
        lemma_with_rank_ranks(s.drop_last(), r);
    }
}

/// Appending a block of messages all of rank `r` to a queue sorted by rank
/// whose ranks are below `r` keeps it sorted, with ranks at most `r`.
proof fn lemma_append_rank_block(a: Seq<PrioritizedMessage>, b: Seq<PrioritizedMessage>, r: nat)
    requires
        forall|i: int, j: int| 0 <= i < j < a.len() ==> rank(a[i].priority) <= rank(a[j].priority),
        forall|i: int| 0 <= i < a.len() ==> rank(#[trigger] a[i].priority) < r,
        forall|i: int| 0 <= i < b.len() ==> rank(#[trigger] b[i].priority) == r,
    ensures
        forall|i: int, j: int| 0 <= i < j < (a + b).len() ==> rank((a + b)[i].priority) <= rank((a + b)[j].priority),
        forall|i: int| 0 <= i < (a + b).len() ==> rank(#[trigger] (a + b)[i].priority) <= r,
{
    assert forall|i: int, j: int| 0 <= i < j < (a + b).len() implies rank((a + b)[i].priority) <= rank(
        (a + b)[j].priority,
    ) by {
        if j < a.len() {
        } else if i < a.len() {
            assert(rank(b[j - a.len()].priority) == r);
        } else {
            assert(rank(b[i - a.len()].priority) == r);
            assert(rank(b[j - a.len()].priority) == r);
        }
    }
    assert forall|i: int| 0 <= i < (a + b).len() implies rank(#[trigger] (a + b)[i].priority) <= r by {
        if i >= a.len() {
            assert(rank(b[i - a.len()].priority) == r);
        }
    }
}

/// The six rank blocks together hold as many messages as the queue.
proof fn lemma_with_rank_lengths(s: Seq<PrioritizedMessage>)
    ensures
        with_rank(s, 0).len() + with_rank(s, 1).len() + with_rank(s, 2).len() + with_rank(s, 3).len() + with_rank(
            s,
            4,
        ).len() + with_rank(s, 5).len() == s.len(),
    decreases s.len(),
{
    if s.len() > 0 {
        lemma_with_rank_lengths(s.drop_last());
    }
}

} // verus!
