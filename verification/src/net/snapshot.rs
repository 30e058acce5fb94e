//! World state snapshots: headers, version checks, the snapshot schedule and
//! the tracking of chunks modified since the last snapshot.

use vstd::prelude::*;
use std::path::PathBuf;
use std::time::{Duration, Instant};
use crate::net::time::{instant_now, instant_elapsed, duration_from_secs, duration_at_least, duration_nanos};
use crate::net::chunk_streaming::{ChunkId, chunk_key, chunk_key_spec, lemma_chunk_key_injective};
use std::collections::HashMap;
use crate::net::replication::NetworkId;
use crate::math::units::{nat_to_decimal, push_decimal, push_char};

verus! {

broadcast use vstd::std_specs::hash::group_hash_axioms;

/// Current snapshot format version.
pub const CURRENT_SNAPSHOT_VERSION: u32 = 1;

/// Snapshot metadata header.
#[derive(Debug, Clone, Copy)]
pub struct SnapshotHeader {
    /// Format version for forward compatibility.
    pub version: u32,
    /// Monotonically increasing snapshot identifier.
    pub snapshot_id: u64,
    /// Server tick at which the snapshot was taken.
    pub server_tick: u64,
    /// Wall-clock Unix milliseconds.
    pub timestamp: u64,
    /// `true` if this snapshot only contains changes since the parent.
    pub is_incremental: bool,
    /// For incremental snapshots: the full snapshot this extends.
    pub parent_snapshot_id: Option<u64>,
}

/// A single chunk's voxel data within a snapshot.
#[derive(Debug, Clone)]
pub struct ChunkSnapshot {
    /// Which chunk this data belongs to.
    pub chunk_id: ChunkId,
    /// Compressed voxel data.
    pub voxel_data: Vec<u8>,
}

/// A single entity's replicated state within a snapshot.
#[derive(Debug, Clone)]
pub struct EntitySnapshot {
    /// The entity's network identifier.
    pub network_id: NetworkId,
    /// All replicated components as (tag, bytes) pairs.
    pub components: Vec<(String, Vec<u8>)>,
}

/// `std::path::PathBuf`.
#[verifier::external_type_specification]
#[verifier::external_body]
pub struct ExPathBuf(PathBuf);

/// `std::io::Error`.
#[verifier::external_type_specification]
#[verifier::external_body]
pub struct ExIoError(std::io::Error);

/// Calls `PathBuf::from` on a string; nothing is stated of the path.
#[verifier::external_body]
fn path_from(s: &str) -> PathBuf {
    PathBuf::from(s)
}

/// Configuration for snapshot persistence.
#[derive(Debug)]
pub struct SnapshotConfig {
    /// Interval between automatic snapshots. Default: 5 minutes.
    pub interval: Duration,
    /// Whether to use incremental snapshots. Default: `true`.
    pub incremental: bool,
    /// Directory to store snapshot files.
    pub snapshot_dir: PathBuf,
    /// Maximum number of snapshot files to retain. Default: 24.
    pub max_snapshots_retained: usize,
}

impl Default for SnapshotConfig {
    /// Five-minute incremental snapshots in `./snapshots/`, keeping 24.
    fn default() -> (r: Self)
        ensures
            r.incremental,
            r.max_snapshots_retained == 24,
    {
        SnapshotConfig {
            interval: duration_from_secs(300),
            incremental: true,
            snapshot_dir: path_from("./snapshots/"),
            max_snapshots_retained: 24,
        }
    }
}

/// Whether a snapshot is due once `elapsed` has passed since the last one:
/// at least the configured `interval` has.
pub open spec fn snapshot_due(elapsed: Duration, interval: Duration) -> bool {
    duration_nanos(elapsed) >= duration_nanos(interval)
}

/// Timer that tracks when the next snapshot should be taken.
#[derive(Debug)]
pub struct SnapshotTimer {
    /// When the last snapshot was taken.
    pub last_snapshot: Instant,
    /// Snapshot configuration.
    pub config: SnapshotConfig,
}

impl SnapshotTimer {
    /// Creates a new timer that considers a snapshot as just taken.
    pub fn new(config: SnapshotConfig) -> (r: Self)
        ensures
            r.config.incremental == config.incremental,
            r.config.max_snapshots_retained == config.max_snapshots_retained,
    {
        SnapshotTimer { last_snapshot: instant_now(), config }
    }

    /// Whether a snapshot is due when `elapsed` has passed since the last
    /// one: at least the configured interval.
    pub fn is_due_after(&self, elapsed: &Duration) -> (r: bool)
        ensures
            r == snapshot_due(*elapsed, self.config.interval),
    {
        duration_at_least(elapsed, &self.config.interval)
    }

    /// Returns `true` if at least the configured interval has elapsed since
    /// the last snapshot. The time elapsed is a reading of the clock, so the
    /// result is [`snapshot_due`] for some elapsed time.
    pub fn should_snapshot(&self) -> (r: bool)
        ensures
            exists|elapsed: Duration| #[trigger] snapshot_due(elapsed, self.config.interval) == r,
    {
        let elapsed = instant_elapsed(&self.last_snapshot);
        self.is_due_after(&elapsed)
    }

    /// Resets the timer to now (call after taking a snapshot); the
    /// configuration is kept. The new instant is a reading of the clock.
    pub fn reset(&mut self)
        ensures
            final(self).config == old(self).config,
    {
        self.last_snapshot = instant_now();
    }
}

/// Marking a series of chunks on a new tracker, then draining it, gives
/// back each marked chunk exactly once: the drained chunks are the set of
/// the marks, with no repeats, so there are as many as distinct marks; the
/// tracker is then empty, so a second drain gives nothing.
///
/// `held[i]` is the tracker's set of chunks after the first `i` marks:
/// [`DirtyChunkTracker::new`] holds none, each
/// [`DirtyChunkTracker::mark_dirty`] of `marks[i]` adds it, and
/// [`DirtyChunkTracker::drain`] returns `drained`, each held chunk once,
/// leaving `after`, from which a second drain returns `second`.
pub proof fn lemma_marks_then_drain(
    marks: Seq<ChunkId>,
    held: Seq<Set<ChunkId>>,
    drained: Seq<ChunkId>,
    after: Set<ChunkId>,
    second: Seq<ChunkId>,
)
    requires
        held.len() == marks.len() + 1,
        held[0] == Set::<ChunkId>::empty(),
        forall|i: int| 0 <= i < marks.len() ==> #[trigger] held[i + 1] == held[i].insert(marks[i]),
        drained.to_set() == held[marks.len() as int],
        drained.no_duplicates(),
        after == Set::<ChunkId>::empty(),
        second.to_set() == after,
        second.len() == after.len(),
    ensures
        drained.to_set() == marks.to_set(),
        drained.len() == marks.to_set().len(),
        second.len() == 0,
{
    lemma_held_after_marks(marks, held, marks.len() as int);
    assert(marks.take(marks.len() as int) =~= marks);
    drained.unique_seq_to_set();
}

/// After the first `n` marks the tracker holds the set of those marks.
proof fn lemma_held_after_marks(marks: Seq<ChunkId>, held: Seq<Set<ChunkId>>, n: int)
    requires
        held.len() == marks.len() + 1,
        held[0] == Set::<ChunkId>::empty(),
        forall|i: int| 0 <= i < marks.len() ==> #[trigger] held[i + 1] == held[i].insert(marks[i]),
        0 <= n <= marks.len(),
    ensures
        held[n] == marks.take(n).to_set(),
    decreases n,
{
    if n == 0 {
        assert(marks.take(0).to_set() =~= Set::<ChunkId>::empty());
    } else {
        lemma_held_after_marks(marks, held, n - 1);
        assert(held[(n - 1) + 1] == held[n - 1].insert(marks[n - 1]));
        assert(marks.take(n) =~= marks.take(n - 1).push(marks[n - 1]));
        assert(marks.take(n).to_set() =~= marks.take(n - 1).to_set().insert(marks[n - 1])) by {
            broadcast use vstd::seq_lib::group_seq_properties;
        }
    }
}

/// Tracks chunks modified since the last snapshot for incremental writes;
/// each chunk is held once, keyed by its [`chunk_key`].
#[derive(Debug)]
pub struct DirtyChunkTracker {
    dirty: HashMap<u128, ChunkId>,
}

impl View for DirtyChunkTracker {
    type V = Set<ChunkId>;

    closed spec fn view(&self) -> Set<ChunkId> {
        self.dirty@.dom().map(|k: u128| self.dirty@[k])
    }
}

impl DirtyChunkTracker {
    /// Every chunk is held under its own key.
    #[verifier::type_invariant]
    spec fn well_formed(&self) -> bool {
        forall|k: u128| #[trigger] self.dirty@.contains_key(k) ==> chunk_key_spec(self.dirty@[k]) == k
    }

    /// A chunk is held exactly when its key is; the held set has as many
    /// chunks as the map has keys.
    proof fn lemma_view(&self)
        requires
            self.well_formed(),
        ensures
            forall|c: ChunkId| #[trigger] self@.contains(c) <==> self.dirty@.contains_key(chunk_key_spec(c) as u128),
            self@.finite(),
            self@.len() == self.dirty@.len(),
            self@ == self.dirty@.values(),
    {
        let m = self.dirty@;
        let f = |k: u128| m[k];
        assert forall|c: ChunkId| #[trigger] self@.contains(c) <==> m.contains_key(chunk_key_spec(c) as u128) by {
            assert(0 <= chunk_key_spec(c) <= u128::MAX) by (nonlinear_arith);
            if m.contains_key(chunk_key_spec(c) as u128) {
                let k = chunk_key_spec(c) as u128;
                assert(chunk_key_spec(m[k]) == k);
                lemma_chunk_key_injective(m[k], c);
                assert(m.dom().contains(k) && f(k) == c);
            }
            if self@.contains(c) {
                let k = choose|k: u128| m.dom().contains(k) && f(k) == c;
                assert(chunk_key_spec(c) == k);
            }
        }
        assert(vstd::relations::injective_on(f, m.dom())) by {
            assert forall|a: u128, b: u128| m.dom().contains(a) && m.dom().contains(b) && #[trigger] f(a) == #[trigger] f(
                b,
            ) implies a == b by {
                assert(chunk_key_spec(m[a]) == a && chunk_key_spec(m[b]) == b);
            }
        }
        vstd::set_lib::lemma_map_size(m.dom(), m.dom().map(f), f);
        assert(self@ =~= m.values());
    }

    /// Creates an empty tracker.
    pub fn new() -> (r: Self)
        ensures
            r@ == Set::<ChunkId>::empty(),
    {
        let r = DirtyChunkTracker { dirty: HashMap::new() };
        assert(r@ =~= Set::<ChunkId>::empty());
        r
    }

    /// Marks a chunk as dirty (modified since last snapshot); marking it
    /// again changes nothing.
    pub fn mark_dirty(&mut self, chunk_id: ChunkId)
        ensures
            final(self)@ == old(self)@.insert(chunk_id),
    {
        proof {
            use_type_invariant(&*self);
            self.lemma_view();
        }
        let key = chunk_key(chunk_id);
        let mut m: HashMap<u128, ChunkId> = HashMap::new();
        std::mem::swap(&mut m, &mut self.dirty);
        m.insert(key, chunk_id);
        self.dirty = m;
        proof {
            assert(self.well_formed());
            self.lemma_view();
            assert(self@ =~= old(self)@.insert(chunk_id));
        }
    }

    /// Takes all dirty chunk ids, each once and in no particular order,
    /// leaving the tracker empty.
    pub fn drain(&mut self) -> (r: Vec<ChunkId>)
        ensures
            r@.to_set() == old(self)@,
            r@.no_duplicates(),
            r@.len() == old(self)@.len(),
            final(self)@ == Set::<ChunkId>::empty(),
    {
        proof {
            use_type_invariant(&*self);
            self.lemma_view();
        }
        let mut r: Vec<ChunkId> = Vec::new();
        for v in it: self.dirty.values()
            invariant
                it.seq().unref().to_set() == self.dirty@.values(),
                it.seq().len() == self.dirty@.dom().len(),
                r@ == it.seq().take(it.index() as int).unref(),
                it.index() == it.seq().len() ==> it.seq().take(it.index() as int) == it.seq(),
        {
            r.push(*v);
            proof {
                assert(it.seq().take(it.index() + 1) =~= it.seq().take(it.index() as int).push(v));
                assert(r@ =~= it.seq().take(it.index() + 1).unref());
            }
        }
        proof {
            assert(r@.to_set() == old(self)@);
            r@.lemma_no_dup_set_cardinality();
        }
        self.dirty = HashMap::new();
        proof {
            assert(self@ =~= Set::<ChunkId>::empty());
        }
        r
    }

    /// Returns the number of currently dirty chunks.
    pub fn len(&self) -> (r: usize)
        ensures
            r == self@.len(),
    {
        proof {
            use_type_invariant(self);
            self.lemma_view();
        }
        self.dirty.len()
    }

    /// Returns `true` if no chunks are dirty.
    pub fn is_empty(&self) -> (r: bool)
        ensures
            r == (self@.len() == 0),
    {
        proof {
            use_type_invariant(self);
            self.lemma_view();
        }
        self.dirty.len() == 0
    }
}

/// Errors that can occur during snapshot operations.
#[derive(Debug)]
pub enum SnapshotError {
    /// Snapshot file version is newer than supported.
    VersionTooNew {
        /// Version found in the file.
        found: u32,
        /// Maximum version this build supports.
        max_supported: u32,
    },
    /// I/O error reading or writing snapshot files.
    Io(std::io::Error),
    /// Serialization / deserialization error.
    Serialization(String),
}

/// `d` with `0`s in front to make it at least `width` characters long.
pub open spec fn zero_padded(d: Seq<char>, width: nat) -> Seq<char> {
    if d.len() >= width {
        d
    } else {
        Seq::new((width - d.len()) as nat, |_i: int| '0') + d
    }
}

/// The file name of a snapshot: `snapshot_`, the id as at least six decimal
/// digits, then `_inc.nbsnap` for an incremental snapshot or `_full.nbsnap`
/// for a full one.
pub open spec fn snapshot_file_name_spec(snapshot_id: nat, is_incremental: bool) -> Seq<char> {
    let kind = if is_incremental {
        seq!['i', 'n', 'c']
    } else {
        seq!['f', 'u', 'l', 'l']
    };
    seq!['s', 'n', 'a', 'p', 's', 'h', 'o', 't', '_'] + zero_padded(nat_to_decimal(snapshot_id), 6) + seq!['_'] + kind
        + seq!['.', 'n', 'b', 's', 'n', 'a', 'p']
}

/// The number of decimal digits of `n`, for the values below a million.
proof fn lemma_decimal_len(n: nat)
    ensures
        n < 10 ==> nat_to_decimal(n).len() == 1,
        10 <= n < 100 ==> nat_to_decimal(n).len() == 2,
        100 <= n < 1000 ==> nat_to_decimal(n).len() == 3,
        1000 <= n < 10000 ==> nat_to_decimal(n).len() == 4,
        10000 <= n < 100000 ==> nat_to_decimal(n).len() == 5,
        100000 <= n ==> nat_to_decimal(n).len() >= 6,
    decreases n,
{
    if n >= 10 {
        lemma_decimal_len(n / 10);
    }
}

/// Appends the characters of `t` to `s`.
fn push_chars(s: &mut String, t: &[char])
    ensures
        final(s)@ == old(s)@ + t@,
{
    let mut i: usize = 0;
    while i < t.len()
        invariant
            i <= t@.len(),
            s@ == old(s)@ + t@.take(i as int),
        decreases t@.len() - i,
    {
        push_char(s, t[i]);
        proof {
            assert(t@.take(i + 1) =~= t@.take(i as int).push(t@[i as int]));
        }
        i = i + 1;
    }
    proof {
        assert(t@.take(t@.len() as int) =~= t@);
    }
}

/// The file name under which a snapshot is written (see
/// [`snapshot_file_name_spec`]), e.g. `snapshot_000042_full.nbsnap`.
pub fn snapshot_file_name(snapshot_id: u64, is_incremental: bool) -> (r: String)
    ensures
        r@ == snapshot_file_name_spec(snapshot_id as nat, is_incremental),
{
    let mut s = String::new();
    push_chars(&mut s, &['s', 'n', 'a', 'p', 's', 'h', 'o', 't', '_']);
    let ghost prefix = s@;
    let zeros: usize = if snapshot_id < 10 {
        5
    } else if snapshot_id < 100 {
        4
    } else if snapshot_id < 1000 {
        3
    } else if snapshot_id < 10000 {
        2
    } else if snapshot_id < 100000 {
        1
    } else {
        0
    };
    let mut k: usize = 0;
    while k < zeros
        invariant
            k <= zeros,
            s@ == prefix + Seq::new(k as nat, |_i: int| '0'),
        decreases zeros - k,
    {
        push_char(&mut s, '0');
        proof {
            assert(Seq::new((k + 1) as nat, |_i: int| '0') =~= Seq::new(k as nat, |_i: int| '0').push('0'));
        }
        k = k + 1;
    }
    push_decimal(&mut s, snapshot_id as u128);
    proof {
        lemma_decimal_len(snapshot_id as nat);
        let d = nat_to_decimal(snapshot_id as nat);
        assert(Seq::new(zeros as nat, |_i: int| '0') + d =~= zero_padded(d, 6));
    }
    if is_incremental {
        push_chars(&mut s, &['_', 'i', 'n', 'c', '.', 'n', 'b', 's', 'n', 'a', 'p']);
    } else {
        push_chars(&mut s, &['_', 'f', 'u', 'l', 'l', '.', 'n', 'b', 's', 'n', 'a', 'p']);
    }
    proof {
        assert(s@ =~= snapshot_file_name_spec(snapshot_id as nat, is_incremental));
    }
    s
}

/// Validates that the snapshot version is supported: fails with
/// [`SnapshotError::VersionTooNew`] exactly when the header's version is
/// newer than [`CURRENT_SNAPSHOT_VERSION`].
pub fn check_version(header: &SnapshotHeader) -> (r: Result<(), SnapshotError>)
    ensures
        header.version <= CURRENT_SNAPSHOT_VERSION ==> r is Ok,
        header.version > CURRENT_SNAPSHOT_VERSION ==> (r matches Err(SnapshotError::VersionTooNew { found, max_supported })
            && found == header.version && max_supported == CURRENT_SNAPSHOT_VERSION),
{
    if header.version > CURRENT_SNAPSHOT_VERSION {
        return Err(SnapshotError::VersionTooNew { found: header.version, max_supported: CURRENT_SNAPSHOT_VERSION });
    }
    Ok(())
}

} // verus!
