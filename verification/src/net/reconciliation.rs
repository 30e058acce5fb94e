//! Server reconciliation: corrects client prediction when the server's
//! authoritative state diverges from the locally predicted state, by
//! rewinding to the server state and replaying the unconfirmed inputs.

use vstd::prelude::*;
use crate::net::prediction::{
    InputBuffer, InputEntry, PredictionState, MovementResult, simulate_movement, simulate_spec, after_discard,
};

verus! {

/// Threshold in millimetres below which corrections are smoothed visually
/// (0.5 m).
pub const SMALL_CORRECTION_THRESHOLD_MM: i64 = 500;

/// Server-authoritative state for a player at a given tick.
#[derive(Debug, Clone, Copy, PartialEq, Eq, Structural)]
pub struct AuthoritativePlayerState {
    /// The server tick this state corresponds to.
    pub tick: u64,
    /// Authoritative X position in millimetres.
    pub x: i64,
    /// Authoritative Y position in millimetres.
    pub y: i64,
    /// Authoritative Z position in millimetres.
    pub z: i64,
    /// Authoritative X velocity in mm/tick.
    pub vx: i64,
    /// Authoritative Y velocity in mm/tick.
    pub vy: i64,
    /// Authoritative Z velocity in mm/tick.
    pub vz: i64,
}

/// Returns `true` if two positions are identical (exact integer match).
pub fn positions_match(a: &PredictionState, server: &AuthoritativePlayerState) -> (r: bool)
    ensures
        r == (a.x == server.x && a.y == server.y && a.z == server.z),
{
    a.x == server.x && a.y == server.y && a.z == server.z
}

/// Result of a reconciliation step.
#[derive(Debug, Clone, Copy, PartialEq, Eq, Structural)]
pub struct ReconciliationResult {
    /// Whether a correction was applied.
    pub corrected: bool,
    /// The new predicted position after reconciliation.
    pub x: i64,
    /// The new predicted position after reconciliation.
    pub y: i64,
    /// The new predicted position after reconciliation.
    pub z: i64,
    /// The new predicted velocity after reconciliation.
    pub vx: i64,
    /// The new predicted velocity after reconciliation.
    pub vy: i64,
    /// The new predicted velocity after reconciliation.
    pub vz: i64,
}

/// The first entry of `s` for tick `tick`, if any.
pub open spec fn entry_for_tick(s: Seq<InputEntry>, tick: u64) -> Option<InputEntry>
    decreases s.len(),
{
    if s.len() == 0 {
        None
    } else if s[0].tick == tick {
        Some(s[0])
    } else {
        entry_for_tick(s.subrange(1, s.len() as int), tick)
    }
}

/// Replays the inputs of `s`, in order, from state `m`.
pub open spec fn replay(s: Seq<InputEntry>, m: MovementResult) -> MovementResult
    decreases s.len(),
{
    if s.len() == 0 {
        m
    } else {
        simulate_spec(replay(s.drop_last(), m), s.last().intent)
    }
}

/// Whether the prediction for the server's tick missed the server's
/// position (or there is none).
pub open spec fn needs_correction(s: Seq<InputEntry>, server: AuthoritativePlayerState) -> bool {
    match entry_for_tick(s, server.tick) {
        Some(e) => !(e.predicted_state.x == server.x && e.predicted_state.y == server.y && e.predicted_state.z
            == server.z),
        None => true,
    }
}

/// The server state as a movement state.
pub open spec fn server_motion(s: AuthoritativePlayerState) -> MovementResult {
    MovementResult { x: s.x, y: s.y, z: s.z, vx: s.vx, vy: s.vy, vz: s.vz }
}

/// The outcome of reconciling buffer entries `s` against `server`: the
/// server state when the prediction for its tick matched, else the server
/// state with the inputs left after the confirmed ones replayed on it.
pub open spec fn reconcile_spec(s: Seq<InputEntry>, server: AuthoritativePlayerState) -> ReconciliationResult {
    if !needs_correction(s, server) {
        ReconciliationResult {
            corrected: false,
            x: server.x,
            y: server.y,
            z: server.z,
            vx: server.vx,
            vy: server.vy,
            vz: server.vz,
        }
    } else {
        let m = replay(after_discard(s, server.tick), server_motion(server));
        ReconciliationResult { corrected: true, x: m.x, y: m.y, z: m.z, vx: m.vx, vy: m.vy, vz: m.vz }
    }
}

/// Finds the first entry for `tick`.
fn find_entry(buffer: &InputBuffer, tick: u64) -> (r: Option<InputEntry>)
    ensures
        r == entry_for_tick(buffer@, tick),
{
    let entries = buffer.entries();
    let mut i: usize = 0;
    assert(entries@.subrange(0, entries@.len() as int) =~= entries@);
    while i < entries.len()
        invariant
            entries@ == buffer@,
            i <= entries@.len(),
            entry_for_tick(entries@, tick) == entry_for_tick(entries@.subrange(i as int, entries@.len() as int), tick),
        decreases entries@.len() - i,
    {
        let e = entries[i];
        proof {
            let rest = entries@.subrange(i as int, entries@.len() as int);
            assert(rest[0] == e);
            assert(rest.subrange(1, rest.len() as int) =~= entries@.subrange(i as int + 1, entries@.len() as int));
        }
        if e.tick == tick {
            return Some(e);
        }
        i = i + 1;
    }
    None
}

/// Reconciles the client's predicted state against the server's
/// authoritative state: the confirmed entries (tick at most the server's)
/// are discarded; if the prediction for the server's tick matched, the
/// server state is returned uncorrected, else the remaining inputs are
/// replayed from the server state.
pub fn reconcile(server_state: &AuthoritativePlayerState, buffer: &mut InputBuffer) -> (r: ReconciliationResult)
    ensures
        r == reconcile_spec(old(buffer)@, *server_state),
        final(buffer)@ == after_discard(old(buffer)@, server_state.tick),
        final(buffer).capacity() == old(buffer).capacity(),
{
    let needs = match find_entry(buffer, server_state.tick) {
        Some(entry) => !positions_match(&entry.predicted_state, server_state),
        None => true,
    };
    buffer.discard_up_to(server_state.tick);
    if !needs {
        return ReconciliationResult {
            corrected: false,
            x: server_state.x,
            y: server_state.y,
            z: server_state.z,
            vx: server_state.vx,
            vy: server_state.vy,
            vz: server_state.vz,
        };
    }
    let mut m = MovementResult {
        x: server_state.x,
        y: server_state.y,
        z: server_state.z,
        vx: server_state.vx,
        vy: server_state.vy,
        vz: server_state.vz,
    };
    let entries = buffer.entries();
    let mut i: usize = 0;
    while i < entries.len()
        invariant
            i <= entries@.len(),
            m == replay(entries@.take(i as int), server_motion(*server_state)),
        decreases entries@.len() - i,
    {
        proof {
            assert(entries@.take(i as int + 1).drop_last() =~= entries@.take(i as int));
        }
        let e = entries[i];
        m = simulate_movement(m.x, m.y, m.z, m.vx, m.vy, m.vz, &e.intent);
        i = i + 1;
    }
    assert(entries@.take(i as int) =~= entries@);
    ReconciliationResult { corrected: true, x: m.x, y: m.y, z: m.z, vx: m.vx, vy: m.vy, vz: m.vz }
}

/// A prediction that matched the server's position is confirmed as is:
/// reconciling returns the server's state, uncorrected.
pub proof fn lemma_matching_prediction_not_corrected(s: Seq<InputEntry>, server: AuthoritativePlayerState, e: InputEntry)
    requires
        entry_for_tick(s, server.tick) == Some(e),
        e.predicted_state.x == server.x,
        e.predicted_state.y == server.y,
        e.predicted_state.z == server.z,
    ensures
        !reconcile_spec(s, server).corrected,
        reconcile_spec(s, server).x == server.x,
        reconcile_spec(s, server).y == server.y,
        reconcile_spec(s, server).z == server.z,
{
}

/// Replaying no inputs leaves the server state, so a correction with nothing
/// left to replay lands exactly on the server's position.
pub proof fn lemma_correction_without_inputs(s: Seq<InputEntry>, server: AuthoritativePlayerState)
    requires
        needs_correction(s, server),
        after_discard(s, server.tick).len() == 0,
    ensures
        reconcile_spec(s, server).corrected,
        reconcile_spec(s, server).x == server.x,
        reconcile_spec(s, server).y == server.y,
        reconcile_spec(s, server).z == server.z,
{
}

} // verus!
