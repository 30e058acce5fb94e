use nebula::net::authority::{AuthoritativeWorld, PlayerState};
use nebula::net::interest::ClientInterestSet;
use nebula::net::player_session::{
    remove_player, save_player_state, spawn_player, ConnectionState, PlayerSaveData, DEFAULT_TIMEOUT_SECS,
    PROTOCOL_VERSION,
};
use nebula::net::replication::{NetworkId, ReplicationServerSystem};

/// The serialized components of a player entity, as the engine's world scan
/// hands them to replication.
fn player_components(net: NetworkId, ps: &PlayerState) -> Vec<(String, Vec<u8>)> {
    let mut state = Vec::new();
    state.extend_from_slice(&ps.player_id.to_le_bytes());
    state.extend_from_slice(&ps.x.to_le_bytes());
    state.extend_from_slice(&ps.y.to_le_bytes());
    state.extend_from_slice(&ps.z.to_le_bytes());
    vec![("NetworkId".to_string(), net.0.to_le_bytes().to_vec()), ("PlayerState".to_string(), state)]
}

/// The replicated entities of the world: every spawned player still in it.
fn scan(world: &AuthoritativeWorld, spawned: &[(NetworkId, u64)]) -> Vec<(u64, Vec<(String, Vec<u8>)>)> {
    spawned
        .iter()
        .filter_map(|(net, pid)| world.find_player(*pid).map(|ps| (net.0, player_components(*net, ps))))
        .collect()
}

fn join_player(
    world: &mut AuthoritativeWorld,
    repl: &mut ReplicationServerSystem,
    client_id: u64,
    saved: Option<&PlayerSaveData>,
) -> (usize, NetworkId) {
    spawn_player(world, repl, client_id, saved)
}

#[test]
fn test_join_spawns_entity_visible_to_others() {
    let mut world = AuthoritativeWorld::new();
    let mut repl = ReplicationServerSystem::new();
    let mut spawned = Vec::new();

    let (_entity_a, net_a) = join_player(&mut world, &mut repl, 1, None);
    spawned.push((net_a, 1));
    let _ = repl.replicate(&scan(&world, &spawned), world.tick());

    let (_entity_b, net_b) = join_player(&mut world, &mut repl, 2, None);
    spawned.push((net_b, 2));
    let msgs = repl.replicate(&scan(&world, &spawned), world.tick());

    let a_msgs = msgs.get(&1).expect("client A should have messages");
    assert!(
        a_msgs.spawns.iter().any(|s| s.network_id == net_b),
        "Client A must see spawn for client B (net_id={net_b:?})"
    );
    let b_msgs = msgs.get(&2).expect("client B should have messages");
    assert!(
        b_msgs.spawns.iter().any(|s| s.network_id == net_a),
        "Client B must see spawn for client A (net_id={net_a:?})"
    );
}

#[test]
fn test_leave_despawns_entity() {
    let mut world = AuthoritativeWorld::new();
    let mut repl = ReplicationServerSystem::new();
    let mut spawned = Vec::new();

    let (_ea, na) = join_player(&mut world, &mut repl, 1, None);
    spawned.push((na, 1));
    let (eb, nb) = join_player(&mut world, &mut repl, 2, None);
    spawned.push((nb, 2));
    let _ = repl.replicate(&scan(&world, &spawned), world.tick());

    remove_player(&mut world, &mut repl, 2, eb);

    world.advance_tick();
    let msgs = repl.replicate(&scan(&world, &spawned), world.tick());

    let a_msgs = msgs.get(&1).expect("client A messages");
    assert!(a_msgs.despawns.iter().any(|d| d.network_id == nb), "Client A must see despawn for client B");
    assert!(world.find_player(2).is_none());
}

#[test]
fn test_other_players_are_notified() {
    let mut world = AuthoritativeWorld::new();
    let mut repl = ReplicationServerSystem::new();
    let mut spawned = Vec::new();

    for cid in [1u64, 2, 3] {
        let (_, net) = join_player(&mut world, &mut repl, cid, None);
        spawned.push((net, cid));
    }
    let _ = repl.replicate(&scan(&world, &spawned), world.tick());

    let (_ed, net_d) = join_player(&mut world, &mut repl, 4, None);
    spawned.push((net_d, 4));
    let msgs = repl.replicate(&scan(&world, &spawned), world.tick());

    for cid in [1, 2, 3] {
        let m = msgs.get(&cid).unwrap_or_else(|| panic!("client {cid} msgs"));
        assert!(m.spawns.iter().any(|s| s.network_id == net_d), "Client {cid} must see spawn for D");
    }
}

#[test]
fn test_state_persists_across_rejoin() {
    let mut world = AuthoritativeWorld::new();
    let mut repl = ReplicationServerSystem::new();

    let (entity_a, _na) = join_player(&mut world, &mut repl, 1, None);

    if let Some(ps) = world.find_player_mut(1) {
        ps.x = 5000;
        ps.y = 3000;
        ps.z = 1000;
    }
    world.advance_tick();

    let save = save_player_state(&world, "Alice", 1).expect("save");
    remove_player(&mut world, &mut repl, 1, entity_a);
    assert!(world.find_player(1).is_none());

    let (_entity_a2, _na2) = join_player(&mut world, &mut repl, 1, Some(&save));
    let ps = world.find_player(1).expect("player should exist after rejoin");
    assert_eq!(ps.x, 5000);
    assert_eq!(ps.y, 3000);
    assert_eq!(ps.z, 1000);
    assert_eq!(save.player_name, "Alice");
}

// ---- further cases ----

#[test]
fn network_ids_count_up_from_one() {
    let mut repl = ReplicationServerSystem::new();
    assert_eq!(repl.allocate_network_id(), NetworkId(1));
    assert_eq!(repl.allocate_network_id(), NetworkId(2));
    assert_eq!(repl.allocate_network_id(), NetworkId(3));
}

#[test]
fn component_change_is_sent_once_and_only_the_changed_one() {
    let mut repl = ReplicationServerSystem::new();
    repl.add_client(7);
    let first = vec![(5u64, vec![("A".to_string(), vec![1u8]), ("B".to_string(), vec![2u8])])];
    let msgs = repl.replicate(&first, 1);
    let m = &msgs[&7];
    assert_eq!(m.spawns.len(), 1);
    assert_eq!(m.spawns[0].network_id, NetworkId(5));
    assert_eq!(m.spawns[0].components, first[0].1);
    assert!(m.updates.is_empty() && m.despawns.is_empty());

    let unchanged = repl.replicate(&first, 2);
    let m = &unchanged[&7];
    assert!(m.spawns.is_empty() && m.updates.is_empty() && m.despawns.is_empty());

    let second = vec![(5u64, vec![("A".to_string(), vec![1u8]), ("B".to_string(), vec![9u8])])];
    let msgs = repl.replicate(&second, 3);
    let m = &msgs[&7];
    assert_eq!(m.updates.len(), 1);
    assert_eq!(m.updates[0].tick, 3);
    assert_eq!(m.updates[0].changed_components, vec![("B".to_string(), vec![9u8])]);

    let gone: Vec<(u64, Vec<(String, Vec<u8>)>)> = Vec::new();
    let msgs = repl.replicate(&gone, 4);
    let m = &msgs[&7];
    assert_eq!(m.despawns.len(), 1);
    assert_eq!(m.despawns[0].network_id, NetworkId(5));
}

#[test]
fn later_entry_for_an_entity_wins() {
    let mut repl = ReplicationServerSystem::new();
    repl.add_client(1);
    let ents = vec![(3u64, vec![("A".to_string(), vec![1u8])]), (3u64, vec![("A".to_string(), vec![2u8])])];
    let msgs = repl.replicate(&ents, 1);
    assert_eq!(msgs[&1].spawns.len(), 1);
    assert_eq!(msgs[&1].spawns[0].components, vec![("A".to_string(), vec![2u8])]);
}

#[test]
fn removed_client_gets_no_messages() {
    let mut repl = ReplicationServerSystem::new();
    repl.add_client(1);
    repl.add_client(2);
    repl.remove_client(1);
    let msgs = repl.replicate(&vec![(9u64, Vec::new())], 1);
    assert!(!msgs.contains_key(&1));
    assert!(msgs.contains_key(&2));
}

#[test]
fn interest_transitions_and_advance() {
    let mut set = ClientInterestSet::new(4);
    set.current.insert(1);
    set.current.insert(2);
    let t = set.compute_transitions();
    assert_eq!(t.entered.len(), 2);
    assert!(t.exited.is_empty());
    set.advance();
    assert!(set.current.is_empty());
    assert!(set.previous.contains(&1) && set.previous.contains(&2));
    set.current.insert(2);
    set.current.insert(3);
    let t = set.compute_transitions();
    assert!(t.entered.contains(&3) && t.entered.len() == 1);
    assert!(t.exited.contains(&1) && t.exited.len() == 1);
}

#[test]
fn spawn_without_save_starts_at_origin() {
    let mut world = AuthoritativeWorld::new();
    let mut repl = ReplicationServerSystem::new();
    let (slot, net) = spawn_player(&mut world, &mut repl, 11, None);
    assert_eq!(slot, 0);
    assert_eq!(net, NetworkId(1));
    let ps = world.find_player(11).unwrap();
    assert_eq!((ps.x, ps.y, ps.z, ps.yaw_mrad, ps.pitch_mrad), (0, 0, 0, 0, 0));
    assert!(save_player_state(&world, "Bob", 12).is_none());
}

#[test]
fn fresh_connection_is_not_timed_out() {
    let c = ConnectionState::new(3);
    assert_eq!(c.client_id, 3);
    assert!(!c.is_timed_out());
    assert_eq!(c.timeout_duration.as_secs(), DEFAULT_TIMEOUT_SECS);
    assert_eq!(PROTOCOL_VERSION, 1);
}

#[test]
fn connection_times_out_only_after_more_than_the_timeout() {
    let mut c = ConnectionState::new(9);
    assert!(!c.is_timed_out_after(&std::time::Duration::from_secs(DEFAULT_TIMEOUT_SECS)));
    assert!(c.is_timed_out_after(&std::time::Duration::from_millis(DEFAULT_TIMEOUT_SECS * 1000 + 1)));
    c.last_heartbeat = std::time::Instant::now() - std::time::Duration::from_secs(DEFAULT_TIMEOUT_SECS + 1);
    assert!(c.is_timed_out());
    c.record_heartbeat();
    assert!(!c.is_timed_out());
    assert_eq!(c.client_id, 9);
    assert_eq!(c.timeout_duration.as_secs(), DEFAULT_TIMEOUT_SECS);
}
