use nebula::net::replication::{NetworkId, ReplicationClientSystem, ReplicationMessages, ReplicationServerSystem};

/// One replicated entity: its network id and its serialized components.
type Entity = (u64, Vec<(String, Vec<u8>)>);

fn position(x: i64, y: i64, z: i64) -> (String, Vec<u8>) {
    ("Position128".to_string(), postcard::to_allocvec(&(x, y, z)).unwrap())
}

fn mesh_handle(h: u32) -> (String, Vec<u8>) {
    ("MeshHandle".to_string(), postcard::to_allocvec(&h).unwrap())
}

fn component<'a>(comps: &'a [(String, Vec<u8>)], tag: &str) -> Option<&'a [u8]> {
    comps.iter().find(|(t, _)| t == tag).map(|(_, b)| b.as_slice())
}

fn client_position(client: &ReplicationClientSystem, id: NetworkId) -> (i64, i64, i64) {
    let comps = client.local_entity(id).unwrap();
    postcard::from_bytes(component(comps, "Position128").unwrap()).unwrap()
}

#[test]
fn test_entity_spawned_on_server_appears_on_client() {
    let mut server = ReplicationServerSystem::new();
    server.add_client(1);
    let net_id = server.allocate_network_id();
    let world: Vec<Entity> = vec![(net_id.0, vec![position(100, 200, 300), mesh_handle(42)])];

    let msgs = server.replicate(&world, 1);
    let client_msgs = &msgs[&1];
    assert_eq!(client_msgs.spawns.len(), 1);
    let spawn = &client_msgs.spawns[0];
    assert_eq!(spawn.network_id, net_id);
    assert_eq!(spawn.components.len(), 2);

    let mut client_sys = ReplicationClientSystem::new();
    client_sys.apply(client_msgs);
    assert_eq!(client_position(&client_sys, net_id), (100, 200, 300));
    let comps = client_sys.local_entity(net_id).unwrap();
    let mesh: u32 = postcard::from_bytes(component(comps, "MeshHandle").unwrap()).unwrap();
    assert_eq!(mesh, 42);
}

#[test]
fn test_component_change_replicates() {
    let mut server = ReplicationServerSystem::new();
    server.add_client(1);
    let net_id = server.allocate_network_id();
    let mut world: Vec<Entity> = vec![(net_id.0, vec![position(0, 0, 0), mesh_handle(1)])];
    let _ = server.replicate(&world, 1);

    world[0].1[0] = position(999, 0, 0);
    let msgs = server.replicate(&world, 2);
    let client_msgs = &msgs[&1];
    assert!(client_msgs.spawns.is_empty());
    assert_eq!(client_msgs.updates.len(), 1);
    let update = &client_msgs.updates[0];
    assert_eq!(update.network_id, net_id);
    assert_eq!(update.changed_components.len(), 1);
    assert_eq!(update.changed_components[0].0, "Position128");
}

#[test]
fn test_unchanged_components_not_sent() {
    let mut server = ReplicationServerSystem::new();
    server.add_client(1);
    let net_id = server.allocate_network_id();
    let world: Vec<Entity> = vec![(net_id.0, vec![position(1, 2, 3), mesh_handle(5)])];
    let _ = server.replicate(&world, 1);

    let msgs = server.replicate(&world, 2);
    let client_msgs = &msgs[&1];
    assert!(client_msgs.spawns.is_empty());
    assert!(client_msgs.updates.is_empty());
    assert!(client_msgs.despawns.is_empty());
}

#[test]
fn test_network_id_is_consistent() {
    let mut server = ReplicationServerSystem::new();
    server.add_client(1);
    let net_id = NetworkId(42);
    let mut world: Vec<Entity> = vec![(net_id.0, vec![position(10, 20, 30)])];

    let msgs = server.replicate(&world, 1);
    let mut client_sys = ReplicationClientSystem::new();
    client_sys.apply(&msgs[&1]);
    assert!(client_sys.local_entity(NetworkId(42)).is_some());
    assert_eq!(msgs[&1].spawns[0].network_id, NetworkId(42));

    let entry = world.iter_mut().find(|(id, _)| *id == 42).unwrap();
    entry.1[0] = position(999, 20, 30);
    let msgs = server.replicate(&world, 2);
    let client_msgs = &msgs[&1];
    assert_eq!(client_msgs.updates.len(), 1);
    assert_eq!(client_msgs.updates[0].network_id, NetworkId(42));
}

#[test]
fn test_despawn_replicates() {
    let mut server = ReplicationServerSystem::new();
    server.add_client(1);
    let net_id = server.allocate_network_id();
    let mut world: Vec<Entity> = vec![(net_id.0, vec![position(0, 0, 0)])];

    let msgs = server.replicate(&world, 1);
    let mut client_sys = ReplicationClientSystem::new();
    client_sys.apply(&msgs[&1]);
    assert!(client_sys.local_entity(net_id).is_some());

    world.clear();
    let msgs = server.replicate(&world, 2);
    let client_msgs = &msgs[&1];
    assert_eq!(client_msgs.despawns.len(), 1);
    assert_eq!(client_msgs.despawns[0].network_id, net_id);

    client_sys.apply(client_msgs);
    assert!(client_sys.local_entity(net_id).is_none());
}

#[test]
fn client_mirrors_server_over_several_ticks() {
    let mut server = ReplicationServerSystem::new();
    server.add_client(7);
    let a = server.allocate_network_id();
    let b = server.allocate_network_id();
    let mut client = ReplicationClientSystem::new();

    let mut world: Vec<Entity> = vec![(a.0, vec![position(1, 1, 1)]), (b.0, vec![position(2, 2, 2), mesh_handle(3)])];
    client.apply(&server.replicate(&world, 1)[&7]);
    assert_eq!(client_position(&client, a), (1, 1, 1));
    assert_eq!(client_position(&client, b), (2, 2, 2));

    // a moves, b is despawned, c appears
    world[0].1[0] = position(5, 6, 7);
    world.remove(1);
    let c = server.allocate_network_id();
    world.push((c.0, vec![mesh_handle(9)]));
    let tick2: ReplicationMessages = server.replicate(&world, 2).remove(&7).unwrap();
    assert_eq!(tick2.spawns.len(), 1);
    assert_eq!(tick2.updates.len(), 1);
    assert_eq!(tick2.despawns.len(), 1);
    assert_eq!(tick2.updates[0].tick, 2);
    client.apply(&tick2);
    assert_eq!(client_position(&client, a), (5, 6, 7));
    assert!(client.local_entity(b).is_none());
    let comps = client.local_entity(c).unwrap();
    assert_eq!(comps.len(), 1);

    // an update for an entity the client never saw is ignored
    let stray = ReplicationMessages {
        spawns: vec![],
        updates: vec![nebula::net::replication::EntityUpdate {
            network_id: NetworkId(99),
            tick: 3,
            changed_components: vec![position(0, 0, 0)],
        }],
        despawns: vec![],
    };
    client.apply(&stray);
    assert!(client.local_entity(NetworkId(99)).is_none());
}
