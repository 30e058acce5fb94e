//! Chunk streaming: chunk identifiers, LZ4 compression of chunk payloads,
//! the wire message and the client-side chunk cache.

use vstd::prelude::*;
use std::collections::{HashMap, HashSet};

verus! {

broadcast use vstd::std_specs::hash::group_hash_axioms;

/// Unique identifier for a voxel chunk on the cubesphere grid.
#[derive(Debug, Clone, Copy, PartialEq, Eq, Structural, Hash)]
pub struct ChunkId {
    /// Cube face index (0–5).
    pub face: u8,
    /// Level-of-detail tier.
    pub lod: u8,
    /// Grid X coordinate.
    pub x: i32,
    /// Grid Y coordinate.
    pub y: i32,
    /// Grid Z coordinate.
    pub z: i32,
}

/// A chunk id packed into one integer: face and lod in the low bytes, then
/// the three coordinates, each offset by 2³¹ into 32 unsigned bits.
pub open spec fn chunk_key_spec(id: ChunkId) -> int {
    id.face + 0x100 * id.lod + 0x1_0000 * (id.x + 0x8000_0000) + 0x1_0000_0000_0000 * (id.y + 0x8000_0000)
        + 0x1_0000_0000_0000_0000_0000 * (id.z + 0x8000_0000)
}

/// The integer key of a chunk id.
pub fn chunk_key(id: ChunkId) -> (r: u128)
    ensures
        r == chunk_key_spec(id),
{
    let xo = (id.x as i64 + 0x8000_0000) as u128;
    let yo = (id.y as i64 + 0x8000_0000) as u128;
    let zo = (id.z as i64 + 0x8000_0000) as u128;
    assert(zo * 0x1_0000_0000_0000_0000_0000 <= 0xffff_ffff * 0x1_0000_0000_0000_0000_0000) by (nonlinear_arith)
        requires zo <= 0xffff_ffff;
    assert(yo * 0x1_0000_0000_0000 <= 0xffff_ffff * 0x1_0000_0000_0000) by (nonlinear_arith)
        requires yo <= 0xffff_ffff;
    assert(xo * 0x1_0000 <= 0xffff_ffff * 0x1_0000) by (nonlinear_arith)
        requires xo <= 0xffff_ffff;
    (id.face as u128) + (id.lod as u128) * 0x100 + xo * 0x1_0000 + yo * 0x1_0000_0000_0000 + zo
        * 0x1_0000_0000_0000_0000_0000
}

/// One digit of a mixed-radix number determines the digit and the rest.
proof fn lemma_digit(a1: int, r1: int, a2: int, r2: int, base: int)
    requires
        base > 0,
        0 <= a1 < base,
        0 <= a2 < base,
        a1 + base * r1 == a2 + base * r2,
    ensures
        a1 == a2,
        r1 == r2,
{
    assert(a1 == a2 && r1 == r2) by (nonlinear_arith)
        requires base > 0, 0 <= a1 < base, 0 <= a2 < base, a1 + base * r1 == a2 + base * r2;
}

/// Distinct chunk ids have distinct keys.
pub proof fn lemma_chunk_key_injective(a: ChunkId, b: ChunkId)
    requires
        chunk_key_spec(a) == chunk_key_spec(b),
    ensures
        a == b,
{
    let xa = a.x + 0x8000_0000;
    let ya = a.y + 0x8000_0000;
    let za = a.z + 0x8000_0000;
    let xb = b.x + 0x8000_0000;
    let yb = b.y + 0x8000_0000;
    let zb = b.z + 0x8000_0000;
    let ra3 = ya + 0x1_0000_0000 * za;
    let rb3 = yb + 0x1_0000_0000 * zb;
    let ra2 = xa + 0x1_0000_0000 * ra3;
    let rb2 = xb + 0x1_0000_0000 * rb3;
    let ra1 = a.lod + 0x100 * ra2;
    let rb1 = b.lod + 0x100 * rb2;
    assert(chunk_key_spec(a) == a.face + 0x100 * ra1) by (nonlinear_arith)
        requires ra1 == a.lod + 0x100 * ra2, ra2 == xa + 0x1_0000_0000 * ra3, ra3 == ya + 0x1_0000_0000 * za,
            xa == a.x + 0x8000_0000, ya == a.y + 0x8000_0000, za == a.z + 0x8000_0000;
    assert(chunk_key_spec(b) == b.face + 0x100 * rb1) by (nonlinear_arith)
        requires rb1 == b.lod + 0x100 * rb2, rb2 == xb + 0x1_0000_0000 * rb3, rb3 == yb + 0x1_0000_0000 * zb,
            xb == b.x + 0x8000_0000, yb == b.y + 0x8000_0000, zb == b.z + 0x8000_0000;
    lemma_digit(a.face as int, ra1, b.face as int, rb1, 0x100);
    lemma_digit(a.lod as int, ra2, b.lod as int, rb2, 0x100);
    lemma_digit(xa, ra3, xb, rb3, 0x1_0000_0000);
    lemma_digit(ya, za, yb, zb, 0x1_0000_0000);
}

/// The bytes `lz4_flex::compress_prepend_size` produces for `raw`.
pub uninterp spec fn lz4_compressed(raw: Seq<u8>) -> Seq<u8>;

/// What `lz4_flex::decompress_size_prepended` gives back for `bytes`:
/// the decompressed bytes, or `None` when it reports an error.
pub uninterp spec fn lz4_decompressed(bytes: Seq<u8>) -> Option<Seq<u8>>;

/// Calls `lz4_flex::compress_prepend_size`: the LZ4 block compression of
/// `raw` with its length prepended as a little-endian `u32`. The contract
/// names the result; the bytes themselves are not stated.
#[verifier::external_body]
fn lz4_compress(raw: &[u8]) -> (r: Vec<u8>)
    ensures
        r@ == lz4_compressed(raw@),
{
    lz4_flex::compress_prepend_size(raw)
}

/// Calls `lz4_flex::decompress_size_prepended`, turning its error into its
/// message. The contract names the result and states the round trip the
/// crate documents: bytes produced by `compress_prepend_size` for an input
/// whose length fits the `u32` prefix decompress to that input. The text of
/// an error message is not stated.
#[verifier::external_body]
fn lz4_decompress(compressed: &[u8]) -> (r: Result<Vec<u8>, String>)
    ensures
        r is Ok <==> lz4_decompressed(compressed@) is Some,
        r is Ok ==> r->Ok_0@ == lz4_decompressed(compressed@)->Some_0,
        forall|raw: Seq<u8>| #![trigger lz4_compressed(raw)] raw.len() <= u32::MAX && compressed@ == lz4_compressed(raw)
            ==> r is Ok && r->Ok_0@ == raw,
{
    match lz4_flex::decompress_size_prepended(compressed) {
        Ok(v) => Ok(v),
        Err(e) => Err(e.to_string()),
    }
}

/// Compress raw chunk voxel data with LZ4 (size-prepended block format).
pub fn compress_chunk(raw: &[u8]) -> (r: Vec<u8>)
    ensures
        r@ == lz4_compressed(raw@),
{
    lz4_compress(raw)
}

/// Error returned by [`decompress_chunk`].
#[derive(Debug, Clone, PartialEq, Eq)]
pub enum ChunkDecompressError {
    /// LZ4 decompression failed, with the decoder's message.
    Lz4(String),
}

/// Decompress LZ4-compressed chunk data; fails with
/// [`ChunkDecompressError::Lz4`] when the data is malformed.
pub fn decompress_chunk(compressed: &[u8]) -> (r: Result<Vec<u8>, ChunkDecompressError>)
    ensures
        r is Ok <==> lz4_decompressed(compressed@) is Some,
        r is Ok ==> r->Ok_0@ == lz4_decompressed(compressed@)->Some_0,
        forall|raw: Seq<u8>| #![trigger lz4_compressed(raw)] raw.len() <= u32::MAX && compressed@ == lz4_compressed(raw)
            ==> r is Ok && r->Ok_0@ == raw,
{
    match lz4_decompress(compressed) {
        Ok(v) => Ok(v),
        Err(msg) => Err(ChunkDecompressError::Lz4(msg)),
    }
}

/// Chunk data message sent from server to client.
#[derive(Debug, Clone)]
pub struct ChunkDataMessage {
    /// Which chunk this data belongs to.
    pub chunk_id: ChunkId,
    /// LZ4-compressed voxel data.
    pub compressed_data: Vec<u8>,
    /// Original uncompressed size in bytes.
    pub uncompressed_size: u32,
}

/// Configuration for the chunk streaming rate limiter.
#[derive(Debug, Clone, Copy)]
pub struct ChunkStreamConfig {
    /// Maximum compressed bytes to send per tick. Default: 65 536 (64 KiB).
    pub bytes_per_tick: usize,
    /// Maximum chunks that may be queued at once. Default: 256.
    pub max_queued_chunks: usize,
}

impl Default for ChunkStreamConfig {
    fn default() -> (r: Self)
        ensures
            r.bytes_per_tick == 65_536,
            r.max_queued_chunks == 256,
    {
        ChunkStreamConfig { bytes_per_tick: 65_536, max_queued_chunks: 256 }
    }
}

/// An entry in the per-client chunk send queue. `priority` orders the
/// entries: it stands for the chunk's distance, and the entry with the
/// smallest priority is sent first.
#[derive(Debug, Clone, Copy)]
pub struct ChunkSendEntry {
    /// Target chunk.
    pub chunk_id: ChunkId,
    /// Priority value: *lower* means sent earlier.
    pub priority: u64,
}

/// `m` is the position of the first entry of `q` with the smallest priority,
/// the entry that is sent next.
pub open spec fn is_first_min(q: Seq<ChunkSendEntry>, m: int) -> bool {
    &&& 0 <= m < q.len()
    &&& forall|j: int| 0 <= j < q.len() ==> q[m].priority <= #[trigger] q[j].priority
    &&& forall|j: int| 0 <= j < m ==> q[m].priority < #[trigger] q[j].priority
}

/// The position of the entry of `q` that is sent next.
pub open spec fn first_min(q: Seq<ChunkSendEntry>) -> int {
    choose|m: int| is_first_min(q, m)
}

/// A nonempty queue has exactly one next entry.
pub proof fn lemma_first_min_unique(q: Seq<ChunkSendEntry>, m: int)
    requires
        is_first_min(q, m),
    ensures
        first_min(q) == m,
{
    let c = first_min(q);
    assert(is_first_min(q, c));
    if c < m {
        assert(q[m].priority < q[c].priority);
        assert(q[c].priority <= q[m].priority);
    } else if m < c {
        assert(q[c].priority < q[m].priority);
        assert(q[m].priority <= q[c].priority);
    }
}

/// What a sent message says: the chunk, the compressed bytes and the
/// uncompressed size.
pub open spec fn message_view(msg: ChunkDataMessage) -> (ChunkId, Seq<u8>, u32) {
    (msg.chunk_id, msg.compressed_data@, msg.uncompressed_size)
}

/// The views of a list of messages.
pub open spec fn message_views(msgs: Seq<ChunkDataMessage>) -> Seq<(ChunkId, Seq<u8>, u32)> {
    msgs.map_values(|msg: ChunkDataMessage| message_view(msg))
}

/// One flush of a send queue: starting from the entries `q` with `budget`
/// bytes left, having sent something already exactly when `any`, the chunk
/// data lookups, in order, are `looked` (the chunk asked for and what came
/// back); the flush leaves the entries `rest` and sends `sent`.
///
/// Each round looks up the next entry (smallest priority, first among
/// equals). Missing data drops the entry. Data whose compressed size exceeds
/// what is left of the budget ends the flush, the entry staying queued,
/// unless nothing was sent yet; otherwise the entry is sent, the budget goes
/// down by its compressed size (not below zero), and a budget of zero ends
/// the flush. An empty queue ends it too.
pub open spec fn flushes(
    q: Seq<ChunkSendEntry>,
    budget: int,
    any: bool,
    looked: Seq<(ChunkId, Option<Vec<u8>>)>,
    rest: Seq<ChunkSendEntry>,
    sent: Seq<(ChunkId, Seq<u8>, u32)>,
) -> bool
    decreases looked.len(),
{
    if q.len() == 0 {
        looked.len() == 0 && rest == q && sent.len() == 0
    } else if looked.len() == 0 {
        false
    } else {
        let m = first_min(q);
        let e = q[m];
        &&& looked[0].0 == e.chunk_id
        &&& match looked[0].1 {
            None => flushes(q.remove(m), budget, any, looked.drop_first(), rest, sent),
            Some(raw) => {
                let c = lz4_compressed(raw@);
                if c.len() > budget && any {
                    looked.len() == 1 && rest == q && sent.len() == 0
                } else {
                    let left = if c.len() > budget {
                        0
                    } else {
                        budget - c.len()
                    };
                    &&& sent.len() > 0
                    &&& sent[0] == (e.chunk_id, c, raw@.len() as u32)
                    &&& if left == 0 {
                        looked.len() == 1 && rest == q.remove(m) && sent.len() == 1
                    } else {
                        flushes(q.remove(m), left, true, looked.drop_first(), rest, sent.drop_first())
                    }
                }
            },
        }
    }
}

/// Whether any message was sent.
pub open spec fn sent_any(msgs: Seq<ChunkDataMessage>) -> bool {
    msgs.len() > 0
}

/// Per-client queue of chunks awaiting transmission.
#[derive(Debug)]
pub struct ChunkSendQueue {
    /// Entries waiting to be sent, in no particular order; the smallest
    /// priority goes first.
    pub queue: Vec<ChunkSendEntry>,
    /// The [`chunk_key`]s of the chunks already sent to this client.
    pub sent: HashSet<u128>,
}

/// The position of the entry of a nonempty queue that is sent next.
fn first_min_index(q: &Vec<ChunkSendEntry>) -> (m: usize)
    requires
        q.len() > 0,
    ensures
        is_first_min(q@, m as int),
{
    let mut m: usize = 0;
    let mut i: usize = 1;
    while i < q.len()
        invariant
            0 <= m < i <= q.len(),
            forall|j: int| 0 <= j < i ==> q@[m as int].priority <= #[trigger] q@[j].priority,
            forall|j: int| 0 <= j < m ==> q@[m as int].priority < #[trigger] q@[j].priority,
        decreases q.len() - i,
    {
        if q[i].priority < q[m].priority {
            m = i;
        }
        i = i + 1;
    }
    m
}

impl ChunkSendQueue {
    /// An empty send queue.
    pub fn new() -> (r: Self)
        ensures
            r.queue@.len() == 0,
            r.sent@ == Set::<u128>::empty(),
    {
        ChunkSendQueue { queue: Vec::new(), sent: HashSet::new() }
    }

    /// Queues `entry` unless its chunk was already sent or the queue already
    /// holds `config.max_queued_chunks` entries.
    pub fn enqueue(&mut self, entry: ChunkSendEntry, config: &ChunkStreamConfig)
        ensures
            final(self).sent@ == old(self).sent@,
            old(self).sent@.contains(chunk_key_spec(entry.chunk_id) as u128) || old(self).queue@.len()
                >= config.max_queued_chunks ==> final(self).queue@ == old(self).queue@,
            !(old(self).sent@.contains(chunk_key_spec(entry.chunk_id) as u128) || old(self).queue@.len()
                >= config.max_queued_chunks) ==> final(self).queue@ == old(self).queue@.push(entry),
    {
        if self.sent.contains(&chunk_key(entry.chunk_id)) {
            return;
        }
        if self.queue.len() >= config.max_queued_chunks {
            return;
        }
        self.queue.push(entry);
    }

    /// Sends queued chunks in priority order, up to `config.bytes_per_tick`
    /// compressed bytes (the first one whatever its size), looking up each
    /// chunk's data with `chunk_data_fn`; chunks without data are dropped.
    /// The flush is described by [`flushes`] over the lookups made; every
    /// chunk sent is recorded as sent.
    pub fn flush_tick(&mut self, config: &ChunkStreamConfig, chunk_data_fn: impl Fn(&ChunkId) -> Option<Vec<u8>>) -> (r:
        Vec<ChunkDataMessage>)
        requires
            forall|id: &ChunkId| #[trigger] call_requires(chunk_data_fn, (id,)),
        ensures
            exists|looked: Seq<(ChunkId, Option<Vec<u8>>)>|
                #[trigger] flushes(
                    old(self).queue@,
                    config.bytes_per_tick as int,
                    false,
                    looked,
                    final(self).queue@,
                    message_views(r@),
                ) && forall|i: int| 0 <= i < looked.len() ==> call_ensures(chunk_data_fn, (&looked[i].0,), #[trigger] looked[i].1),
            forall|k: u128|
                #[trigger] final(self).sent@.contains(k) <==> (old(self).sent@.contains(k) || exists|i: int|
                    0 <= i < r@.len() && k == chunk_key_spec(#[trigger] r@[i].chunk_id)),
    {
        let mut budget: usize = config.bytes_per_tick;
        let mut messages: Vec<ChunkDataMessage> = Vec::new();
        let ghost q0 = self.queue@;
        let ghost sent0 = self.sent@;
        let ghost b0 = config.bytes_per_tick as int;
        let ghost mut looked: Seq<(ChunkId, Option<Vec<u8>>)> = Seq::empty();
        proof {
            assert forall|dr: Seq<(ChunkId, Option<Vec<u8>>)>, rest: Seq<ChunkSendEntry>, mr: Seq<(ChunkId, Seq<u8>, u32)>|
                #[trigger] flushes(self.queue@, budget as int, false, dr, rest, mr) implies flushes(
                q0,
                b0,
                false,
                looked + dr,
                rest,
                message_views(messages@) + mr,
            ) by {
                assert(looked + dr =~= dr);
                assert(message_views(messages@) + mr =~= mr);
            }
        }
        loop
            invariant_except_break
                forall|dr: Seq<(ChunkId, Option<Vec<u8>>)>, rest: Seq<ChunkSendEntry>, mr: Seq<(ChunkId, Seq<u8>, u32)>|
                    #[trigger] flushes(self.queue@, budget as int, sent_any(messages@), dr, rest, mr) ==> flushes(
                        q0,
                        b0,
                        false,
                        looked + dr,
                        rest,
                        message_views(messages@) + mr,
                    ),
            invariant
                b0 == config.bytes_per_tick as int,
                forall|i: int| 0 <= i < looked.len() ==> call_ensures(chunk_data_fn, (&looked[i].0,), #[trigger] looked[i].1),
                forall|id: &ChunkId| #[trigger] call_requires(chunk_data_fn, (id,)),
                forall|k: u128|
                    #[trigger] self.sent@.contains(k) <==> (sent0.contains(k) || exists|i: int|
                        0 <= i < messages@.len() && k == chunk_key_spec(#[trigger] messages@[i].chunk_id)),
            ensures
                flushes(q0, b0, false, looked, self.queue@, message_views(messages@)),
            decreases self.queue@.len(),
        {
            if self.queue.len() == 0 {
                proof {
                    let q = self.queue@;
                    assert(flushes(q, budget as int, sent_any(messages@), Seq::empty(), q, Seq::empty()));
                    assert(looked + Seq::<(ChunkId, Option<Vec<u8>>)>::empty() =~= looked);
                    assert(message_views(messages@) + Seq::<(ChunkId, Seq<u8>, u32)>::empty() =~= message_views(
                        messages@,
                    ));
                }
                break;
            }
            let m = first_min_index(&self.queue);
            let id = self.queue[m].chunk_id;
            let ghost q = self.queue@;
            let ghost any = sent_any(messages@);
            let ghost b = budget as int;
            proof {
                lemma_first_min_unique(q, m as int);
            }
            let data = chunk_data_fn(&id);
            let ghost x = (id, data);
            match data {
                None => {
                    self.queue.remove(m);
                    proof {
                        assert forall|dr: Seq<(ChunkId, Option<Vec<u8>>)>, rest: Seq<ChunkSendEntry>, mr: Seq<
                            (ChunkId, Seq<u8>, u32),
                        >| #[trigger] flushes(self.queue@, budget as int, any, dr, rest, mr) implies flushes(
                            q0,
                            b0,
                            false,
                            looked.push(x) + dr,
                            rest,
                            message_views(messages@) + mr,
                        ) by {
                            let d1 = seq![x] + dr;
                            assert(d1.drop_first() =~= dr);
                            assert(flushes(q, b, any, d1, rest, mr));
                            assert(looked + d1 =~= looked.push(x) + dr);
                        }
                        looked = looked.push(x);
                    }
                },
                Some(raw) => {
                    let compressed = compress_chunk(&raw);
                    if compressed.len() > budget && messages.len() > 0 {
                        proof {
                            let d1 = seq![x];
                            let none = Seq::<(ChunkId, Seq<u8>, u32)>::empty();
                            assert(flushes(q, b, any, d1, q, none));
                            assert(flushes(q0, b0, false, looked + d1, q, message_views(messages@) + none));
                            assert(looked + d1 =~= looked.push(x));
                            assert(message_views(messages@) + none =~= message_views(messages@));
                            looked = looked.push(x);
                        }
                        break;
                    }
                    self.queue.remove(m);
                    budget = budget.saturating_sub(compressed.len());
                    let size = raw.len() as u32;
                    let msg = ChunkDataMessage { chunk_id: id, compressed_data: compressed, uncompressed_size: size };
                    let ghost mv = message_view(msg);
                    let ghost msgs_before = messages@;
                    messages.push(msg);
                    self.sent.insert(chunk_key(id));
                    proof {
                        assert(message_views(messages@) =~= message_views(msgs_before).push(mv));
                        assert forall|k: u128|
                            #[trigger] self.sent@.contains(k) <==> (sent0.contains(k) || exists|i: int|
                                0 <= i < messages@.len() && k == chunk_key_spec(#[trigger] messages@[i].chunk_id)) by {
                            if self.sent@.contains(k) && k != chunk_key_spec(id) as u128 && !sent0.contains(k) {
                                let i = choose|i: int|
                                    0 <= i < msgs_before.len() && k == chunk_key_spec(#[trigger] msgs_before[i].chunk_id);
                                assert(messages@[i] == msgs_before[i]);
                            }
                            if k == chunk_key_spec(id) as u128 {
                                assert(messages@[msgs_before.len() as int].chunk_id == id);
                            }
                            if exists|i: int| 0 <= i < messages@.len() && k == chunk_key_spec(#[trigger] messages@[i].chunk_id) {
                                let i = choose|i: int| 0 <= i < messages@.len() && k == chunk_key_spec(#[trigger] messages@[i].chunk_id);
                                if i < msgs_before.len() {
                                    assert(messages@[i] == msgs_before[i]);
                                }
                            }
                        }
                    }
                    if budget == 0 {
                        proof {
                            let d1 = seq![x];
                            let m1 = seq![mv];
                            assert(m1.drop_first() =~= Seq::<(ChunkId, Seq<u8>, u32)>::empty());
                            assert(flushes(q, b, any, d1, self.queue@, m1));
                            assert(flushes(q0, b0, false, looked + d1, self.queue@, message_views(msgs_before) + m1));
                            assert(looked + d1 =~= looked.push(x));
                            assert(message_views(messages@) =~= message_views(msgs_before) + m1);
                            looked = looked.push(x);
                        }
                        break;
                    }
                    proof {
                        assert forall|dr: Seq<(ChunkId, Option<Vec<u8>>)>, rest: Seq<ChunkSendEntry>, mr: Seq<
                            (ChunkId, Seq<u8>, u32),
                        >| #[trigger] flushes(self.queue@, budget as int, true, dr, rest, mr) implies flushes(
                            q0,
                            b0,
                            false,
                            looked.push(x) + dr,
                            rest,
                            message_views(messages@) + mr,
                        ) by {
                            let d1 = seq![x] + dr;
                            let m1 = seq![mv] + mr;
                            assert(d1.drop_first() =~= dr);
                            assert(m1.drop_first() =~= mr);
                            assert(flushes(q, b, any, d1, rest, m1));
                            assert(looked + d1 =~= looked.push(x) + dr);
                            assert(message_views(msgs_before) + m1 =~= message_views(messages@) + mr);
                        }
                        looked = looked.push(x);
                    }
                },
            }
        }
        messages
    }
}

impl Default for ChunkSendQueue {
    fn default() -> (r: Self)
        ensures
            r.queue@.len() == 0,
            r.sent@ == Set::<u128>::empty(),
    {
        Self::new()
    }
}

/// Client-side cache of received chunk data.
#[derive(Debug)]
pub struct ClientChunkCache {
    /// Cached raw (decompressed) voxel data, keyed by the [`chunk_key`] of
    /// each chunk id.
    pub chunks: HashMap<u128, Vec<u8>>,
    /// Maximum number of chunks to keep in cache.
    pub max_cached: usize,
}

impl ClientChunkCache {
    /// An empty cache holding at most `max_cached` chunks.
    pub fn new(max_cached: usize) -> (r: Self)
        ensures
            r.chunks@ == Map::<u128, Vec<u8>>::empty(),
            r.max_cached == max_cached,
    {
        ClientChunkCache { chunks: HashMap::new(), max_cached }
    }

    /// Stores the data of chunk `id`. When the cache is at capacity and does
    /// not hold `id` yet, one cached chunk, whichever the map yields first,
    /// is evicted first.
    pub fn insert(&mut self, id: ChunkId, data: Vec<u8>)
        ensures
            final(self).max_cached == old(self).max_cached,
            old(self).chunks@.len() >= old(self).max_cached && !old(self).chunks@.contains_key(
                chunk_key_spec(id) as u128,
            ) && old(self).chunks@.len() > 0 ==> exists|evicted: u128|
                #[trigger] old(self).chunks@.contains_key(evicted) && final(self).chunks@ == old(self).chunks@.remove(
                    evicted,
                ).insert(chunk_key_spec(id) as u128, data),
            !(old(self).chunks@.len() >= old(self).max_cached && !old(self).chunks@.contains_key(
                chunk_key_spec(id) as u128,
            ) && old(self).chunks@.len() > 0) ==> final(self).chunks@ == old(self).chunks@.insert(
                chunk_key_spec(id) as u128,
                data,
            ),
    {
        let key = chunk_key(id);
        if self.chunks.len() >= self.max_cached && !self.chunks.contains_key(&key) {
            let mut first: Option<u128> = None;
            for k in it: self.chunks.keys()
                invariant_except_break
                    first is None,
                    it.index() == 0,
                ensures
                    first is Some ==> self.chunks@.contains_key(first->0),
                    first is None ==> self.chunks@.len() == 0,
            {
                proof {
                    assert(self.chunks@.dom().contains(*k));
                }
                first = Some(*k);
                break;
            }
            match first {
                Some(evict) => {
                    let ghost before = self.chunks@;
                    self.chunks.remove(&evict);
                    self.chunks.insert(key, data);
                    proof {
                        assert(before.contains_key(evict));
                        assert(self.chunks@ == before.remove(evict).insert(key, data));
                    }
                    return;
                },
                None => {},
            }
        }
        self.chunks.insert(key, data);
    }

    /// The cached data of chunk `id`.
    pub fn get(&self, id: &ChunkId) -> (r: Option<&Vec<u8>>)
        ensures
            match r {
                Some(v) => self.chunks@.contains_key(chunk_key_spec(*id) as u128) && *v == self.chunks@[chunk_key_spec(
                    *id,
                ) as u128],
                None => !self.chunks@.contains_key(chunk_key_spec(*id) as u128),
            },
    {
        self.chunks.get(&chunk_key(*id))
    }

    /// Whether chunk `id` is cached.
    pub fn contains(&self, id: &ChunkId) -> (r: bool)
        ensures
            r == self.chunks@.contains_key(chunk_key_spec(*id) as u128),
    {
        self.chunks.contains_key(&chunk_key(*id))
    }
}

} // verus!
