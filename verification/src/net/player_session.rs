//! Player join and leave: connection messages, liveness tracking, spawning a
//! player, and saving and removing it.

use vstd::prelude::*;
use std::time::{Duration, Instant};
use crate::net::authority::{AuthoritativeWorld, PlayerState, find_spec};
use crate::net::replication::{NetworkId, ReplicationServerSystem};
use crate::net::time::{instant_now, instant_elapsed, duration_from_secs, duration_exceeds, duration_nanos};

verus! {

/// Current multiplayer protocol version.
pub const PROTOCOL_VERSION: u32 = 1;

/// Seconds without a heartbeat after which a client counts as disconnected.
pub const DEFAULT_TIMEOUT_SECS: u64 = 30;

/// Client-to-server connection request.
#[derive(Debug, Clone)]
pub struct ConnectionRequest {
    /// Human-readable player name.
    pub player_name: String,
    /// Authentication token (opaque string).
    pub auth_token: String,
    /// Protocol version the client speaks.
    pub protocol_version: u32,
}

/// Server-to-client authentication result.
#[derive(Debug, Clone)]
pub enum AuthResult {
    /// Connection accepted.
    Accepted {
        /// Assigned client identifier.
        client_id: u64,
        /// The player's network entity id.
        network_id: NetworkId,
    },
    /// Connection rejected.
    Rejected {
        /// Human-readable reason.
        reason: String,
    },
}

/// Client-to-server voluntary disconnect.
#[derive(Debug, Clone, Copy, PartialEq, Eq, Structural)]
pub struct DisconnectRequest {
    /// Why the client is disconnecting.
    pub reason: DisconnectReason,
}

/// Why a player left the server.
#[derive(Debug, Clone, Copy, PartialEq, Eq, Structural)]
pub enum DisconnectReason {
    /// The player quit.
    Voluntary,
    /// The server kicked the player.
    Kicked,
    /// The connection timed out.
    Timeout,
}

/// Whether a client counts as gone once `elapsed` has passed since its last
/// heartbeat: more than `timeout`.
pub open spec fn connection_timed_out(elapsed: Duration, timeout: Duration) -> bool {
    duration_nanos(elapsed) > duration_nanos(timeout)
}

/// Liveness of a connected client.
pub struct ConnectionState {
    /// Unique client identifier.
    pub client_id: u64,
    /// When the last heartbeat (or any message) arrived.
    pub last_heartbeat: Instant,
    /// How long to wait before the client counts as gone.
    pub timeout_duration: Duration,
}

impl ConnectionState {
    /// A connection that just heard from its client, with the default
    /// timeout of [`DEFAULT_TIMEOUT_SECS`] seconds.
    pub fn new(client_id: u64) -> (r: Self)
        ensures
            r.client_id == client_id,
    {
        ConnectionState {
            client_id,
            last_heartbeat: instant_now(),
            timeout_duration: duration_from_secs(DEFAULT_TIMEOUT_SECS),
        }
    }

    /// Whether the client counts as gone when `elapsed` has passed since
    /// its last heartbeat: more than the timeout.
    pub fn is_timed_out_after(&self, elapsed: &Duration) -> (r: bool)
        ensures
            r == connection_timed_out(*elapsed, self.timeout_duration),
    {
        duration_exceeds(elapsed, &self.timeout_duration)
    }

    /// Whether more than the timeout has passed since the last heartbeat.
    /// The time elapsed is a reading of the clock, so the result is
    /// [`connection_timed_out`] for some elapsed time.
    pub fn is_timed_out(&self) -> (r: bool)
        ensures
            exists|elapsed: Duration| #[trigger] connection_timed_out(elapsed, self.timeout_duration) == r,
    {
        let elapsed = instant_elapsed(&self.last_heartbeat);
        self.is_timed_out_after(&elapsed)
    }

    /// Records a heartbeat: the timeout starts again from now. The client
    /// and its timeout are kept; the new instant is a reading of the clock.
    pub fn record_heartbeat(&mut self)
        ensures
            final(self).client_id == old(self).client_id,
            final(self).timeout_duration == old(self).timeout_duration,
    {
        self.last_heartbeat = instant_now();
    }
}

/// Persisted player state, so that a player resumes where it left.
#[derive(Debug, Clone)]
pub struct PlayerSaveData {
    /// Player display name.
    pub player_name: String,
    /// Last known X position in millimetres.
    pub x: i64,
    /// Last known Y position in millimetres.
    pub y: i64,
    /// Last known Z position in millimetres.
    pub z: i64,
    /// Last server tick at which the player was online.
    pub last_seen_tick: u64,
}

/// The state a player spawns with: at its saved position if there is one,
/// else at the origin, facing straight ahead.
pub open spec fn spawn_state(client_id: u64, saved: Option<PlayerSaveData>) -> PlayerState {
    match saved {
        Some(s) => PlayerState { player_id: client_id, x: s.x, y: s.y, z: s.z, yaw_mrad: 0, pitch_mrad: 0 },
        None => PlayerState { player_id: client_id, x: 0, y: 0, z: 0, yaw_mrad: 0, pitch_mrad: 0 },
    }
}

/// Spawns a player in the authoritative world and registers its client for
/// replication. The player resumes at its saved position if `saved_state`
/// is given, else it starts at the origin. Returns the player's slot in the
/// world and its newly allocated network id.
pub fn spawn_player(
    world: &mut AuthoritativeWorld,
    replication: &mut ReplicationServerSystem,
    client_id: u64,
    saved_state: Option<&PlayerSaveData>,
) -> (r: (usize, NetworkId))
    requires
        old(replication).next_id() < u64::MAX,
    ensures
        r.1 == NetworkId(old(replication).next_id()),
        final(replication).next_id() == old(replication).next_id() + 1,
        final(replication).clients() == old(replication).clients().insert(client_id),
        old(replication).wf() ==> final(replication).wf(),
        r.0 == old(world)@.len(),
        final(world)@ == old(world)@.push(
            spawn_state(
                client_id,
                match saved_state {
                    Some(s) => Some(*s),
                    None => None,
                },
            ),
        ),
        final(world).tick_spec() == old(world).tick_spec(),
{
    let network_id = replication.allocate_network_id();
    let (x, y, z) = match saved_state {
        Some(save) => (save.x, save.y, save.z),
        None => (0, 0, 0),
    };
    let player_state = PlayerState { player_id: client_id, x, y, z, yaw_mrad: 0, pitch_mrad: 0 };
    let slot = world.spawn_player(player_state);
    replication.add_client(client_id);
    (slot, network_id)
}

/// Saves the state of a player before it disconnects; `None` when no player
/// has that id.
pub fn save_player_state(world: &AuthoritativeWorld, player_name: &str, player_id: u64) -> (r: Option<
    PlayerSaveData,
>)
    ensures
        match find_spec(world@, player_id) {
            None => r is None,
            Some(p) => r matches Some(d) && d.player_name@ == player_name@ && d.x == p.x && d.y == p.y && d.z == p.z
                && d.last_seen_tick == world.tick_spec(),
        },
{
    match world.find_player(player_id) {
        Some(ps) => Some(
            PlayerSaveData {
                player_name: player_name.to_owned(),
                x: ps.x,
                y: ps.y,
                z: ps.z,
                last_seen_tick: world.tick(),
            },
        ),
        None => None,
    }
}

/// Removes a player from the authoritative world and stops replicating to
/// its client; other clients learn of it through the usual despawn path.
/// `slot` is the player's slot as [`spawn_player`] returned it.
pub fn remove_player(
    world: &mut AuthoritativeWorld,
    replication: &mut ReplicationServerSystem,
    client_id: u64,
    slot: usize,
)
    ensures
        slot < old(world)@.len() ==> final(world)@ == old(world)@.remove(slot as int),
        slot >= old(world)@.len() ==> final(world)@ == old(world)@,
        final(world).tick_spec() == old(world).tick_spec(),
        final(replication).clients() == old(replication).clients().remove(client_id),
        final(replication).next_id() == old(replication).next_id(),
        old(replication).wf() ==> final(replication).wf(),
{
    world.despawn(slot);
    replication.remove_client(client_id);
}

} // verus!
