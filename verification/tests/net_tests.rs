use nebula::net::authority::{AuthoritativeWorld, ClientIntent, IntentValidationError, IntentValidator, PlayerState};
use nebula::net::budget::{
    plan_tick_messages, send_tick_messages, AdaptiveRate, BandwidthConfig, ClientBandwidthTracker, MessagePriority, RecordingSender,
    PrioritizedMessage,
};
use nebula::net::chat::{validate_chat_message, ChatRejection, RateTracker};
use nebula::net::chunk_streaming::{
    compress_chunk, decompress_chunk, ChunkId, ChunkSendEntry, ChunkSendQueue, ChunkStreamConfig,
};
use nebula::net::clock::{adjusted_tick, median_index, TickCounter};
use nebula::net::prediction::{client_prediction_step, InputBuffer, InputEntry, PredictionState, DEFAULT_BUFFER_SIZE};
use nebula::net::reconciliation::{reconcile, AuthoritativePlayerState};
use nebula::net::replication::NetworkId;
use nebula::net::snapshot::{
    check_version, snapshot_file_name, DirtyChunkTracker, SnapshotConfig, SnapshotError, SnapshotHeader, SnapshotTimer,
    CURRENT_SNAPSHOT_VERSION,
};
use nebula::net::voxel_edit::{
    apply_voxel_edit, validate_voxel_edit, EditRejection, PlayerPosition, ServerChunkStore, VoxelEditIntent,
    VoxelMaterial,
};
use std::time::{Duration, Instant};

// ---- bandwidth budget ----

/// The total number of bytes a recording sender was handed.
fn total_bytes(sender: &RecordingSender) -> usize {
    sender.sent.iter().map(|d| d.len()).sum()
}

fn make_msg(priority: MessagePriority, size: usize) -> PrioritizedMessage {
    PrioritizedMessage { priority, data: vec![0u8; size], size }
}

#[test]
fn test_bandwidth_stays_within_budget() {
    let config = BandwidthConfig { max_bytes_per_second: 10_000 * 60, tick_rate: 60 };
    let mut tracker = ClientBandwidthTracker::new(1, config);
    let mut queue: Vec<PrioritizedMessage> = (0..20).map(|_| make_msg(MessagePriority::ChunkData, 1_000)).collect();
    let mut sender = RecordingSender::default();
    let deferred = send_tick_messages(&mut tracker, &mut queue, &mut sender);
    assert_eq!(total_bytes(&sender), 10_000);
    assert_eq!(deferred.len(), 10);
}

#[test]
fn test_high_priority_messages_always_sent() {
    let config = BandwidthConfig { max_bytes_per_second: 5_000 * 60, tick_rate: 60 };
    let mut tracker = ClientBandwidthTracker::new(1, config);
    let mut queue = vec![make_msg(MessagePriority::PlayerState, 1_000)];
    for _ in 0..5 {
        queue.push(make_msg(MessagePriority::ChunkData, 1_000));
    }
    let mut sender = RecordingSender::default();
    let deferred = send_tick_messages(&mut tracker, &mut queue, &mut sender);
    assert_eq!(total_bytes(&sender), 5_000);
    assert_eq!(deferred.len(), 1);
    assert_eq!(deferred[0].priority, MessagePriority::ChunkData);
}

#[test]
fn test_low_priority_deferred_when_budget_exceeded() {
    let config = BandwidthConfig { max_bytes_per_second: 3_000 * 60, tick_rate: 60 };
    let mut tracker = ClientBandwidthTracker::new(1, config);
    let mut queue: Vec<PrioritizedMessage> =
        (0..3).map(|_| make_msg(MessagePriority::NearbyEntities, 1_000)).collect();
    queue.push(make_msg(MessagePriority::Chat, 500));
    queue.push(make_msg(MessagePriority::Chat, 500));
    let mut sender = RecordingSender::default();
    let deferred = send_tick_messages(&mut tracker, &mut queue, &mut sender);
    assert_eq!(total_bytes(&sender), 3_000);
    assert_eq!(deferred.len(), 2);
    assert!(deferred.iter().all(|m| m.priority == MessagePriority::Chat));
}

#[test]
fn test_per_client_tracking_is_accurate() {
    let config = BandwidthConfig { max_bytes_per_second: 100_000 * 60, tick_rate: 60 };
    let mut tracker = ClientBandwidthTracker::new(1, config);
    let expected: Vec<usize> = (1..=10).map(|i| i * 100).collect();
    for &bytes in &expected {
        tracker.consume(bytes);
        tracker.end_tick();
    }
    assert_eq!(tracker.bytes_sent_history.len(), 10);
    let history: Vec<usize> = tracker.bytes_sent_history.iter().copied().collect();
    assert_eq!(history, expected);

    let mean = expected.iter().sum::<usize>() as f64 / 10.0;
    let average_usage = tracker.usage_sum() as f64 / tracker.bytes_sent_history.len() as f64;
    assert!((average_usage - mean).abs() < f64::EPSILON);
}

#[test]
fn test_adaptive_rate_reduction_works() {
    let mut rate = AdaptiveRate::default();
    assert_eq!(rate.rtt_threshold_ms, 150);
    rate.adjust(100);
    assert_eq!(rate.entity_update_interval, 1);
    rate.adjust(200);
    assert_eq!(rate.entity_update_interval, 2);
    rate.adjust(350);
    assert_eq!(rate.entity_update_interval, 4);
    rate.adjust(80);
    assert_eq!(rate.entity_update_interval, 1);
}

#[test]
fn send_order_is_stable_within_priority() {
    let config = BandwidthConfig { max_bytes_per_second: 60 * 60, tick_rate: 60 };
    let mut tracker = ClientBandwidthTracker::new(7, config);
    let mut queue = vec![
        make_msg(MessagePriority::Metadata, 10),
        make_msg(MessagePriority::Chat, 30),
        make_msg(MessagePriority::Chat, 40),
        make_msg(MessagePriority::PlayerState, 20),
    ];
    let mut sender = RecordingSender::default();
    let deferred = send_tick_messages(&mut tracker, &mut queue, &mut sender);
    // Budget 60: PlayerState (20) and the first Chat (30) fit, then the
    // second Chat (40) does not, then Metadata (10) still fits.
    assert_eq!(total_bytes(&sender), 60);
    assert_eq!(deferred.len(), 1);
    assert_eq!(deferred[0].size, 40);
    assert!(queue.is_empty());
    assert_eq!(tracker.bytes_sent_history.back().copied(), Some(60));
    assert_eq!(tracker.bytes_sent_this_tick, 0);
}

#[test]
fn remaining_budget_and_history_limit() {
    let config = BandwidthConfig { max_bytes_per_second: 600, tick_rate: 60 };
    assert_eq!(config.bytes_per_tick(), 10);
    let mut tracker = ClientBandwidthTracker::new(1, config);
    tracker.consume(25);
    assert_eq!(tracker.remaining_budget(), 0);
    tracker.max_history = 2;
    for _ in 0..5 {
        tracker.end_tick();
    }
    assert_eq!(tracker.bytes_sent_history.len(), 2);
    let rate = AdaptiveRate { entity_update_interval: 4, rtt_threshold_ms: 150 };
    assert!(rate.should_send_entity_update(8));
    assert!(!rate.should_send_entity_update(9));
}

// ---- snapshots ----

#[test]
fn test_version_mismatch_handled() {
    let header = SnapshotHeader {
        version: CURRENT_SNAPSHOT_VERSION + 1,
        snapshot_id: 1,
        server_tick: 100,
        timestamp: 1_000_000,
        is_incremental: false,
        parent_snapshot_id: None,
    };
    let result = check_version(&header);
    assert!(result.is_err());
    let err = result.unwrap_err();
    assert!(
        matches!(err, SnapshotError::VersionTooNew { found, max_supported }
            if found == CURRENT_SNAPSHOT_VERSION + 1 && max_supported == CURRENT_SNAPSHOT_VERSION),
        "expected VersionTooNew, got: {err:?}"
    );
}

#[test]
fn current_version_is_accepted() {
    let header = SnapshotHeader {
        version: CURRENT_SNAPSHOT_VERSION,
        snapshot_id: 1,
        server_tick: 100,
        timestamp: 1_000_000,
        is_incremental: true,
        parent_snapshot_id: Some(0),
    };
    assert!(check_version(&header).is_ok());
}

#[test]
fn test_snapshot_interval_is_configurable() {
    let config = SnapshotConfig { interval: Duration::from_millis(1000), ..Default::default() };
    let timer = SnapshotTimer { last_snapshot: Instant::now(), config };
    assert!(!timer.should_snapshot());
    let timer_old = SnapshotTimer {
        last_snapshot: Instant::now() - Duration::from_millis(1100),
        config: SnapshotConfig { interval: Duration::from_millis(1000), ..Default::default() },
    };
    assert!(timer_old.should_snapshot());
}

#[test]
fn dirty_tracker_holds_each_chunk_once() {
    let mut t = DirtyChunkTracker::new();
    assert!(t.is_empty());
    let a = ChunkId { face: 0, lod: 0, x: 1, y: 2, z: 3 };
    let b = ChunkId { face: 1, lod: 0, x: 1, y: 2, z: 3 };
    t.mark_dirty(a);
    t.mark_dirty(b);
    t.mark_dirty(a);
    assert_eq!(t.len(), 2);
    let drained = t.drain();
    assert_eq!(drained.len(), 2);
    assert!(drained.contains(&a) && drained.contains(&b));
    assert!(t.is_empty());
    assert!(t.drain().is_empty());
}

// ---- voxel edits ----

fn test_chunk_id() -> ChunkId {
    ChunkId { face: 0, lod: 0, x: 0, y: 0, z: 0 }
}

fn setup_store(chunk_id: ChunkId, fill: VoxelMaterial) -> ServerChunkStore {
    let mut store = ServerChunkStore::new();
    store.load_chunk(chunk_id, fill);
    store
}

const AIR: VoxelMaterial = VoxelMaterial(0);
const STONE: VoxelMaterial = VoxelMaterial(1);
const DIRT: VoxelMaterial = VoxelMaterial(2);

#[test]
fn test_valid_edit_is_applied_and_broadcast() {
    let cid = test_chunk_id();
    let mut store = setup_store(cid, AIR);
    let player = PlayerPosition { x: 500, y: 500, z: 500 };
    let intent = VoxelEditIntent::Place {
        chunk_id: cid,
        local_x: 0,
        local_y: 0,
        local_z: 0,
        material: STONE,
        source_inventory_slot: 0,
    };
    assert!(validate_voxel_edit(&player, &intent, &store).is_ok());
    let event = apply_voxel_edit(&intent, &mut store, NetworkId(1), 10);
    assert_eq!(event.new_material, STONE);
    assert_eq!(event.tick, 10);
    assert_eq!(event.editor_network_id, NetworkId(1));
    assert_eq!(store.get_voxel(&cid, 0, 0, 0), Some(STONE));
}

#[test]
fn test_invalid_edit_is_rejected() {
    let cid = ChunkId { face: 0, lod: 0, x: 100, y: 100, z: 100 };
    let store = setup_store(cid, AIR);
    let player = PlayerPosition { x: 0, y: 0, z: 0 };
    let intent = VoxelEditIntent::Place {
        chunk_id: cid,
        local_x: 5,
        local_y: 5,
        local_z: 5,
        material: STONE,
        source_inventory_slot: 0,
    };
    let err = validate_voxel_edit(&player, &intent, &store).unwrap_err();
    assert_eq!(err, EditRejection::OutOfRange);
}

#[test]
fn test_edit_modifies_correct_voxel() {
    let cid = test_chunk_id();
    let mut store = setup_store(cid, AIR);
    let player = PlayerPosition { x: 5000, y: 10000, z: 3000 };
    let intent = VoxelEditIntent::Place {
        chunk_id: cid,
        local_x: 5,
        local_y: 10,
        local_z: 3,
        material: STONE,
        source_inventory_slot: 0,
    };
    validate_voxel_edit(&player, &intent, &store).unwrap();
    apply_voxel_edit(&intent, &mut store, NetworkId(1), 1);
    assert_eq!(store.get_voxel(&cid, 5, 10, 3), Some(STONE));
    assert_eq!(store.get_voxel(&cid, 4, 10, 3), Some(AIR));
    assert_eq!(store.get_voxel(&cid, 5, 11, 3), Some(AIR));
    assert_eq!(store.get_voxel(&cid, 5, 10, 4), Some(AIR));
}

#[test]
fn test_concurrent_edits_dont_conflict() {
    let cid = test_chunk_id();
    let mut store = setup_store(cid, AIR);
    let player = PlayerPosition { x: 500, y: 500, z: 500 };
    let intent_a = VoxelEditIntent::Place {
        chunk_id: cid,
        local_x: 2,
        local_y: 2,
        local_z: 2,
        material: STONE,
        source_inventory_slot: 0,
    };
    let intent_b = VoxelEditIntent::Place {
        chunk_id: cid,
        local_x: 2,
        local_y: 2,
        local_z: 2,
        material: DIRT,
        source_inventory_slot: 1,
    };
    assert!(validate_voxel_edit(&player, &intent_a, &store).is_ok());
    apply_voxel_edit(&intent_a, &mut store, NetworkId(1), 1);
    let err = validate_voxel_edit(&player, &intent_b, &store).unwrap_err();
    assert_eq!(err, EditRejection::Obstructed);
    assert_eq!(store.get_voxel(&cid, 2, 2, 2), Some(STONE));
}

#[test]
fn edit_rejections_in_order() {
    let cid = test_chunk_id();
    let mut store = setup_store(cid, AIR);
    let player = PlayerPosition { x: 0, y: 0, z: 0 };
    let out = VoxelEditIntent::Remove { chunk_id: cid, local_x: 32, local_y: 0, local_z: 1 };
    assert_eq!(
        validate_voxel_edit(&player, &out, &store),
        Err(EditRejection::PositionOutOfBounds { x: 32, y: 0, z: 1 })
    );
    let other = ChunkId { face: 3, lod: 0, x: 0, y: 0, z: 0 };
    let unloaded = VoxelEditIntent::Remove { chunk_id: other, local_x: 0, local_y: 0, local_z: 0 };
    assert_eq!(validate_voxel_edit(&player, &unloaded, &store), Err(EditRejection::ChunkNotLoaded));
    let remove_air = VoxelEditIntent::Remove { chunk_id: cid, local_x: 1, local_y: 1, local_z: 1 };
    assert_eq!(validate_voxel_edit(&player, &remove_air, &store), Err(EditRejection::AlreadyEmpty));
    let ev = apply_voxel_edit(&remove_air, &mut store, NetworkId(9), 3);
    assert_eq!(ev.new_material, AIR);
    assert!(store.is_loaded(&cid));
    assert!(!store.is_loaded(&other));
    assert_eq!(store.get_voxel(&other, 0, 0, 0), None);
    assert_eq!(intent_chunk(&remove_air), cid);
}

fn intent_chunk(i: &VoxelEditIntent) -> ChunkId {
    i.chunk_id()
}

// ---- chunk streaming ----

#[test]
fn test_chunk_data_decompresses_correctly() {
    let raw: Vec<u8> = (0..4096).map(|i| (i % 256) as u8).collect();
    let compressed = compress_chunk(&raw);
    let decompressed = decompress_chunk(&compressed).unwrap();
    assert_eq!(decompressed, raw);
}

#[test]
fn compression_shrinks_repetitive_data_and_rejects_garbage() {
    let raw = vec![42u8; 4096];
    let compressed = compress_chunk(&raw);
    assert!(compressed.len() < raw.len());
    let varied: Vec<u8> = (0..4096u32).map(|i| (i * 7 % 251) as u8).collect();
    let packed = compress_chunk(&varied);
    assert!(decompress_chunk(&packed[..packed.len() / 2]).is_err());
    let config = ChunkStreamConfig::default();
    assert_eq!(config.bytes_per_tick, 65_536);
    assert_eq!(config.max_queued_chunks, 256);
}

fn make_chunk_id(face: u8, x: i32, y: i32, z: i32) -> ChunkId {
    ChunkId { face, lod: 0, x, y, z }
}

#[test]
fn test_nearby_chunk_is_sent_to_client() {
    let config = ChunkStreamConfig::default();
    let mut queue = ChunkSendQueue::new();
    let id = make_chunk_id(0, 1, 2, 3);
    queue.enqueue(ChunkSendEntry { chunk_id: id, priority: 200 }, &config);
    assert_eq!(queue.queue.len(), 1);
    let raw = vec![42u8; 1024];
    let messages = queue.flush_tick(&config, |_| Some(raw.clone()));
    assert_eq!(messages.len(), 1);
    assert_eq!(messages[0].chunk_id, id);
    assert_eq!(messages[0].uncompressed_size, 1024);
}

#[test]
fn test_distant_chunk_is_not_sent() {
    let config = ChunkStreamConfig::default();
    let queue = ChunkSendQueue::new();
    let id = make_chunk_id(0, 99, 99, 99);
    let interest_radius = 500.0_f64;
    let distance = 2000.0_f64;
    let mut q = queue;
    if distance <= interest_radius {
        q.enqueue(ChunkSendEntry { chunk_id: id, priority: 2000 }, &config);
    }
    let messages = q.flush_tick(&config, |_| Some(vec![0u8; 512]));
    assert!(messages.is_empty());
}

#[test]
fn test_priority_ordering_is_by_distance() {
    let config = ChunkStreamConfig { bytes_per_tick: 1_000_000, max_queued_chunks: 256 };
    let mut queue = ChunkSendQueue::new();
    let a = ChunkSendEntry { chunk_id: make_chunk_id(0, 1, 0, 0), priority: 100 };
    let b = ChunkSendEntry { chunk_id: make_chunk_id(0, 2, 0, 0), priority: 300 };
    let c = ChunkSendEntry { chunk_id: make_chunk_id(0, 3, 0, 0), priority: 50 };
    queue.enqueue(a, &config);
    queue.enqueue(b, &config);
    queue.enqueue(c, &config);
    let messages = queue.flush_tick(&config, |_| Some(vec![0u8; 64]));
    assert_eq!(messages.len(), 3);
    assert_eq!(messages[0].chunk_id, make_chunk_id(0, 3, 0, 0));
    assert_eq!(messages[1].chunk_id, make_chunk_id(0, 1, 0, 0));
    assert_eq!(messages[2].chunk_id, make_chunk_id(0, 2, 0, 0));
}

#[test]
fn test_rate_limiting_prevents_bandwidth_spike() {
    let config = ChunkStreamConfig { bytes_per_tick: 10_000, max_queued_chunks: 256 };
    let mut queue = ChunkSendQueue::new();
    let raw: Vec<u8> = (0..5000).map(|i| (i * 7 % 256) as u8).collect();
    let compressed_size = compress_chunk(&raw).len();
    for i in 0..50 {
        queue.enqueue(ChunkSendEntry { chunk_id: make_chunk_id(0, i, 0, 0), priority: i as u64 }, &config);
    }
    let messages = queue.flush_tick(&config, |_| Some(raw.clone()));
    let max_expected = (10_000 / compressed_size).max(1);
    assert!(
        messages.len() <= max_expected + 1,
        "sent {} messages but expected at most {} (compressed_size={})",
        messages.len(),
        max_expected + 1,
        compressed_size,
    );
    assert!(!queue.queue.is_empty());
}

#[test]
fn send_queue_skips_sent_full_and_missing_chunks() {
    let config = ChunkStreamConfig { bytes_per_tick: 1_000_000, max_queued_chunks: 2 };
    let mut queue = ChunkSendQueue::new();
    let a = make_chunk_id(0, 1, 0, 0);
    let b = make_chunk_id(0, 2, 0, 0);
    let c = make_chunk_id(0, 3, 0, 0);
    queue.enqueue(ChunkSendEntry { chunk_id: a, priority: 5 }, &config);
    queue.enqueue(ChunkSendEntry { chunk_id: b, priority: 1 }, &config);
    queue.enqueue(ChunkSendEntry { chunk_id: c, priority: 0 }, &config);
    assert_eq!(queue.queue.len(), 2);
    // data for `b` is missing: it is dropped, `a` is sent
    let messages = queue.flush_tick(&config, |id| if *id == b { None } else { Some(vec![1u8; 10]) });
    assert_eq!(messages.len(), 1);
    assert_eq!(messages[0].chunk_id, a);
    assert_eq!(messages[0].compressed_data, compress_chunk(&[1u8; 10]));
    assert!(queue.queue.is_empty());
    // `a` was sent, so it is not queued again
    queue.enqueue(ChunkSendEntry { chunk_id: a, priority: 0 }, &config);
    assert!(queue.queue.is_empty());
    queue.enqueue(ChunkSendEntry { chunk_id: b, priority: 0 }, &config);
    assert_eq!(queue.queue.len(), 1);
}

#[test]
fn send_queue_first_chunk_goes_even_over_budget() {
    let config = ChunkStreamConfig { bytes_per_tick: 1, max_queued_chunks: 8 };
    let mut queue = ChunkSendQueue::new();
    queue.enqueue(ChunkSendEntry { chunk_id: make_chunk_id(1, 0, 0, 0), priority: 2 }, &config);
    queue.enqueue(ChunkSendEntry { chunk_id: make_chunk_id(2, 0, 0, 0), priority: 3 }, &config);
    let messages = queue.flush_tick(&config, |_| Some(vec![9u8; 100]));
    assert_eq!(messages.len(), 1);
    assert_eq!(messages[0].chunk_id, make_chunk_id(1, 0, 0, 0));
    assert_eq!(queue.queue.len(), 1);
}

// ---- clock ----

#[test]
fn tick_counter_advances_and_saturates() {
    let mut t = TickCounter::new(true);
    assert_eq!(t.tick, 0);
    t.advance();
    assert_eq!(t.tick, 1);
    t.tick = u64::MAX;
    t.advance();
    assert_eq!(t.tick, u64::MAX);
    assert!(t.is_server);
}

// ---- chat rate limiting ----

#[test]
fn rate_tracker_limits_messages_in_window() {
    let mut t = RateTracker::new(2, Duration::from_secs(60));
    assert!(t.allow());
    assert!(t.allow());
    assert!(!t.allow());
    assert_eq!(t.timestamps.len(), 2);
    let mut closed = RateTracker::new(0, Duration::from_secs(60));
    assert!(!closed.allow());
    assert!(closed.timestamps.is_empty());
}

// ---- authority, prediction, reconciliation ----

fn move_intent(dx: i64, dy: i64, dz: i64) -> ClientIntent {
    ClientIntent::Move { player_id: 1, dx, dy, dz }
}

fn zero_state() -> PredictionState {
    PredictionState { x: 0, y: 0, z: 0, vx: 0, vy: 0, vz: 0, tick: 0 }
}

fn player(id: u64, x: i64, y: i64, z: i64) -> PlayerState {
    PlayerState { player_id: id, x, y, z, yaw_mrad: 0, pitch_mrad: 0 }
}

#[test]
fn test_authoritative_world_spawn_and_find() {
    let mut world = AuthoritativeWorld::new();
    assert_eq!(world.tick(), 0);
    assert_eq!(world.player_count(), 0);
    world.spawn_player(player(42, 1000, 2000, 3000));
    assert_eq!(world.player_count(), 1);
    let ps = world.find_player(42).expect("player 42 should exist");
    assert_eq!(ps.x, 1000);
    assert_eq!(ps.y, 2000);
    assert_eq!(ps.z, 3000);
    assert!(world.find_player(999).is_none());
    world.advance_tick();
    assert_eq!(world.tick(), 1);
}

#[test]
fn test_intent_validator_rejects_speed_hack() {
    let mut world = AuthoritativeWorld::new();
    world.spawn_player(player(1, 0, 0, 0));
    assert!(IntentValidator::validate(&move_intent(100, 0, 0), &world).is_ok());
    let err = IntentValidator::validate(&move_intent(10_000, 10_000, 10_000), &world).unwrap_err();
    assert!(matches!(err, IntentValidationError::MoveTooFast { .. }));
}

#[test]
fn test_intent_validator_rejects_out_of_range() {
    let mut world = AuthoritativeWorld::new();
    world.spawn_player(player(1, 0, 0, 0));
    let near_place = ClientIntent::PlaceVoxel { player_id: 1, voxel_type: 1, x: 1000, y: 0, z: 0 };
    assert!(IntentValidator::validate(&near_place, &world).is_ok());
    let far_place = ClientIntent::PlaceVoxel { player_id: 1, voxel_type: 1, x: 100_000, y: 0, z: 0 };
    let err = IntentValidator::validate(&far_place, &world).unwrap_err();
    assert!(matches!(err, IntentValidationError::OutOfRange { .. }));
    let air_place = ClientIntent::PlaceVoxel { player_id: 1, voxel_type: 0, x: 0, y: 0, z: 0 };
    let err = IntentValidator::validate(&air_place, &world).unwrap_err();
    assert!(matches!(err, IntentValidationError::InvalidVoxelType(0)));
}

#[test]
fn validation_reports_floor_distances() {
    let mut world = AuthoritativeWorld::new();
    world.spawn_player(player(1, 0, 0, 0));
    assert_eq!(
        IntentValidator::validate(&move_intent(300, 400, 0), &world),
        Err(IntentValidationError::MoveTooFast { distance: 500, max: 200 })
    );
    assert_eq!(
        IntentValidator::validate(&move_intent(150, 150, 0), &world),
        Err(IntentValidationError::MoveTooFast { distance: 212, max: 200 })
    );
    let brk = ClientIntent::BreakVoxel { player_id: 1, x: 6000, y: 8000, z: 0 };
    assert_eq!(
        IntentValidator::validate(&brk, &world),
        Err(IntentValidationError::OutOfRange { distance: 10_000, max: 5_000 })
    );
    let unknown = ClientIntent::Interact { player_id: 2, target_entity: 7 };
    assert_eq!(IntentValidator::validate(&unknown, &world), Err(IntentValidationError::UnknownPlayer(2)));
    assert_eq!(unknown.player_id(), 2);
}

#[test]
fn validate_and_apply_moves_and_rotates() {
    let mut world = AuthoritativeWorld::new();
    world.spawn_player(player(1, i64::MAX - 10, 0, 0));
    IntentValidator::validate_and_apply(&move_intent(100, -5, 0), &mut world).unwrap();
    let p = *world.find_player(1).unwrap();
    assert_eq!((p.x, p.y, p.z), (i64::MAX, -5, 0));
    let rot = ClientIntent::Rotate { player_id: 1, yaw_mrad: i32::MAX, pitch_mrad: 2 };
    IntentValidator::validate_and_apply(&rot, &mut world).unwrap();
    IntentValidator::validate_and_apply(&rot, &mut world).unwrap();
    let p = *world.find_player(1).unwrap();
    assert_eq!(p.yaw_mrad, i32::MAX.wrapping_add(i32::MAX));
    assert_eq!(p.pitch_mrad, 4);
    assert!(IntentValidator::validate_and_apply(&move_intent(1000, 0, 0), &mut world).is_err());
    assert_eq!(world.find_player(1).unwrap().y, -5);
}

#[test]
fn test_local_input_applies_immediately() {
    let mut buffer = InputBuffer::new(DEFAULT_BUFFER_SIZE);
    let state = client_prediction_step(&zero_state(), 1, move_intent(100, 0, 0), &mut buffer);
    assert_eq!(state.x, 100);
    assert_eq!(state.y, 0);
    assert_eq!(state.z, 0);
    assert_eq!(state.tick, 1);
}

#[test]
fn test_prediction_buffer_stores_states() {
    let mut buffer = InputBuffer::new(DEFAULT_BUFFER_SIZE);
    let mut current = zero_state();
    for tick in 1..=5 {
        current = client_prediction_step(&current, tick, move_intent(10, 20, 30), &mut buffer);
    }
    assert_eq!(buffer.len(), 5);
    for (i, entry) in buffer.entries().iter().enumerate() {
        assert_eq!(entry.tick, (i + 1) as u64);
        assert_eq!(entry.predicted_state.x, 10 * (i as i64 + 1));
    }
}

#[test]
fn test_predicted_position_advances_each_tick() {
    let mut buffer = InputBuffer::new(DEFAULT_BUFFER_SIZE);
    let mut current = zero_state();
    let mut prev_z = i64::MIN;
    for tick in 1..=10 {
        current = client_prediction_step(&current, tick, move_intent(0, 0, 50), &mut buffer);
        assert!(current.z > prev_z);
        prev_z = current.z;
    }
}

#[test]
fn test_prediction_matches_server_for_simple_movement() {
    let mut world = AuthoritativeWorld::new();
    world.spawn_player(player(1, 0, 0, 0));
    let mut buffer = InputBuffer::new(DEFAULT_BUFFER_SIZE);
    let mut current = zero_state();
    for tick in 1..=5 {
        let intent = move_intent(100, -50, 25);
        current = client_prediction_step(&current, tick, intent.clone(), &mut buffer);
        IntentValidator::validate_and_apply(&intent, &mut world).unwrap();
    }
    let server = world.find_player(1).unwrap();
    assert_eq!(current.x, server.x);
    assert_eq!(current.y, server.y);
    assert_eq!(current.z, server.z);
}

#[test]
fn test_buffer_size_is_bounded() {
    let mut buffer = InputBuffer::new(64);
    for tick in 0..100u64 {
        buffer.push(InputEntry {
            tick,
            intent: move_intent(1, 0, 0),
            predicted_state: PredictionState { x: tick as i64, y: 0, z: 0, vx: 1, vy: 0, vz: 0, tick },
        });
    }
    assert_eq!(buffer.len(), 64);
    assert_eq!(buffer.entries().front().unwrap().tick, 36);
    assert_eq!(buffer.entries_after(90).len(), 9);
}

#[test]
fn test_re_simulation_produces_correct_state() {
    let mut buffer = InputBuffer::new(128);
    let mut current = PredictionState { x: 0, y: 0, z: 0, vx: 0, vy: 0, vz: 0, tick: 10 };
    for tick in 11..=13 {
        current = client_prediction_step(&current, tick, move_intent(1000, 0, 0), &mut buffer);
    }
    assert_eq!(current.x, 3000);
    let server = AuthoritativePlayerState { tick: 10, x: 0, y: 0, z: 0, vx: 0, vy: 0, vz: 0 };
    let result = reconcile(&server, &mut buffer);
    assert_eq!(result.x, 3000);
    assert_eq!(result.y, 0);
    assert_eq!(result.z, 0);
}

#[test]
fn test_inputs_after_correction_are_preserved() {
    let mut buffer = InputBuffer::new(128);
    let mut current = PredictionState { x: 500, y: 0, z: 0, vx: 100, vy: 0, vz: 0, tick: 5 };
    for tick in 6..=10 {
        current = client_prediction_step(&current, tick, move_intent(100, 0, 0), &mut buffer);
    }
    assert_eq!(buffer.len(), 5);
    let server = AuthoritativePlayerState { tick: 5, x: 200, y: 0, z: 0, vx: 0, vy: 0, vz: 0 };
    let result = reconcile(&server, &mut buffer);
    assert!(result.corrected);
    assert_eq!(result.x, 700);
}

#[test]
fn test_reconciliation_happens_in_one_frame() {
    let mut buffer = InputBuffer::new(128);
    let mut current = zero_state();
    for tick in 1..=64 {
        current = client_prediction_step(&current, tick, move_intent(10, 5, 3), &mut buffer);
    }
    let server = AuthoritativePlayerState { tick: 0, x: 999, y: 0, z: 0, vx: 0, vy: 0, vz: 0 };
    let result = reconcile(&server, &mut buffer);
    assert!(result.corrected);
    assert_eq!(result.x, 1639);
    let _ = current;
}

#[test]
fn matching_prediction_is_not_corrected() {
    let mut buffer = InputBuffer::new(128);
    let mut current = zero_state();
    for tick in 1..=3 {
        current = client_prediction_step(&current, tick, move_intent(5, 0, 0), &mut buffer);
    }
    let server = AuthoritativePlayerState { tick: 2, x: 10, y: 0, z: 0, vx: 5, vy: 0, vz: 0 };
    let result = reconcile(&server, &mut buffer);
    assert!(!result.corrected);
    assert_eq!(result.x, 10);
    assert_eq!(buffer.len(), 1);
    assert_eq!(current.x, 15);
}

// ---- chat validation ----

#[test]
fn test_message_length_limit_enforced() {
    let mut tracker = RateTracker::new(5, Duration::from_secs(10));
    let content = "x".repeat(600);
    assert_eq!(validate_chat_message(500, &mut tracker, &content), Err(ChatRejection::TooLong));
}

#[test]
fn test_rate_limiting_prevents_spam() {
    let mut tracker = RateTracker::new(5, Duration::from_secs(10));
    for _ in 0..5 {
        assert!(validate_chat_message(500, &mut tracker, "msg").is_ok());
    }
    assert_eq!(validate_chat_message(500, &mut tracker, "msg"), Err(ChatRejection::RateLimited));
}

#[test]
fn chat_whitespace_only_is_empty_and_not_counted() {
    let mut tracker = RateTracker::new(1, Duration::from_secs(10));
    assert_eq!(validate_chat_message(500, &mut tracker, " \t\n "), Err(ChatRejection::Empty));
    assert_eq!(validate_chat_message(500, &mut tracker, ""), Err(ChatRejection::Empty));
    assert_eq!(tracker.timestamps.len(), 0);
    assert!(validate_chat_message(500, &mut tracker, "  hi  ").is_ok());
    assert_eq!(validate_chat_message(500, &mut tracker, "again"), Err(ChatRejection::RateLimited));
}

#[test]
fn chat_length_counts_bytes_at_the_limit() {
    let mut tracker = RateTracker::new(5, Duration::from_secs(10));
    assert!(validate_chat_message(4, &mut tracker, "abcd").is_ok());
    assert_eq!(validate_chat_message(4, &mut tracker, "abcde"), Err(ChatRejection::TooLong));
    // two chars, four bytes
    assert!(validate_chat_message(4, &mut tracker, "\u{e9}\u{e9}").is_ok());
    assert_eq!(validate_chat_message(3, &mut tracker, "\u{e9}\u{e9}"), Err(ChatRejection::TooLong));
}

#[test]
fn snapshot_file_names_pad_the_id_to_six_digits() {
    assert_eq!(snapshot_file_name(42, false), "snapshot_000042_full.nbsnap");
    assert_eq!(snapshot_file_name(7, true), "snapshot_000007_inc.nbsnap");
    assert_eq!(snapshot_file_name(123456, true), "snapshot_123456_inc.nbsnap");
    assert_eq!(snapshot_file_name(1234567, false), "snapshot_1234567_full.nbsnap");
    assert_eq!(snapshot_file_name(0, false), "snapshot_000000_full.nbsnap");
}

#[test]
fn usage_rates_scale_last_and_peak_ticks() {
    let mut t = ClientBandwidthTracker::new(3, BandwidthConfig { max_bytes_per_second: 125_000, tick_rate: 60 });
    assert_eq!(t.usage_rates(), (0, 0));
    t.consume(100);
    t.end_tick();
    t.consume(400);
    t.end_tick();
    t.consume(250);
    t.end_tick();
    assert_eq!(t.usage_rates(), (250 * 60, 400 * 60));
}

#[test]
fn snapshot_due_exactly_at_the_interval() {
    let config = SnapshotConfig { interval: Duration::from_millis(1000), ..Default::default() };
    let mut timer = SnapshotTimer { last_snapshot: Instant::now() - Duration::from_secs(5), config };
    assert!(!timer.is_due_after(&Duration::from_millis(999)));
    assert!(timer.is_due_after(&Duration::from_millis(1000)));
    assert!(timer.is_due_after(&Duration::from_millis(1001)));
    assert!(timer.should_snapshot());
    timer.reset();
    assert!(!timer.should_snapshot());
    assert_eq!(timer.config.interval, Duration::from_millis(1000));
    assert_eq!(SnapshotConfig::default().interval, Duration::from_secs(300));
}

#[test]
fn rate_tracker_ages_stamps_by_the_clock() {
    let mut t = RateTracker::new(1, Duration::ZERO);
    assert!(t.allow());
    let recorded = t.timestamps[0];
    while Instant::now() <= recorded {}
    // the stamp is now older than a zero-length window, so it is evicted
    assert!(t.allow());
    assert_eq!(t.timestamps.len(), 1);
    assert!(t.timestamps[0] > recorded);
}

#[test]
fn rate_tracker_evicts_exactly_the_stamps_older_than_the_window() {
    let start = Instant::now();
    let mut t = RateTracker::new(2, Duration::from_secs(10));
    t.timestamps.push_back(start);
    t.timestamps.push_back(start + Duration::from_secs(5));
    // At start + 12 s the first stamp is 12 s old (evicted), the second 7 s (kept).
    let now = start + Duration::from_secs(12);
    let ages = vec![Duration::from_secs(12), Duration::from_secs(7)];
    assert!(t.allow_at(now, &ages));
    assert_eq!(t.timestamps.len(), 2);
    assert_eq!(t.timestamps[0], start + Duration::from_secs(5));
    assert_eq!(t.timestamps[1], now);
    // A stamp exactly as old as the window stays; the limit is reached.
    let ages = vec![Duration::from_secs(10), Duration::from_secs(3)];
    assert!(!t.allow_at(now + Duration::from_secs(3), &ages));
    assert_eq!(t.timestamps.len(), 2);
}

#[test]
fn plan_splits_queue_in_priority_order() {
    let config = BandwidthConfig { max_bytes_per_second: 2_500 * 60, tick_rate: 60 };
    let mut tracker = ClientBandwidthTracker::new(4, config);
    let mut queue = vec![
        make_msg(MessagePriority::Chat, 500),
        make_msg(MessagePriority::ChunkData, 2_000),
        make_msg(MessagePriority::PlayerState, 1_000),
        make_msg(MessagePriority::Metadata, 400),
    ];
    let (sent, deferred) = plan_tick_messages(&mut tracker, &mut queue);
    let sent_p: Vec<MessagePriority> = sent.iter().map(|m| m.priority).collect();
    let def_p: Vec<MessagePriority> = deferred.iter().map(|m| m.priority).collect();
    assert_eq!(sent_p, vec![MessagePriority::PlayerState, MessagePriority::Chat, MessagePriority::Metadata]);
    assert_eq!(def_p, vec![MessagePriority::ChunkData]);
    assert_eq!(tracker.bytes_sent_this_tick, 1_900);
    assert!(queue.is_empty());
}

#[test]
fn sender_receives_exactly_the_planned_payloads_in_order() {
    let config = BandwidthConfig { max_bytes_per_second: 2_500 * 60, tick_rate: 60 };
    let mut tracker = ClientBandwidthTracker::new(4, config);
    let mut queue = vec![
        PrioritizedMessage { priority: MessagePriority::Chat, data: vec![1; 500], size: 500 },
        PrioritizedMessage { priority: MessagePriority::ChunkData, data: vec![2; 2_000], size: 2_000 },
        PrioritizedMessage { priority: MessagePriority::PlayerState, data: vec![3; 1_000], size: 1_000 },
    ];
    let mut sender = RecordingSender::default();
    let deferred = send_tick_messages(&mut tracker, &mut queue, &mut sender);
    assert_eq!(sender.sent, vec![vec![3u8; 1_000], vec![1u8; 500]]);
    assert_eq!(deferred.len(), 1);
    assert_eq!(deferred[0].data, vec![2u8; 2_000]);
}

#[test]
fn median_index_picks_the_middle_of_the_sorted_samples() {
    assert_eq!(median_index(&vec![]), None);
    let samples: Vec<u128> = vec![50, 200, 48, 52, 500, 49, 51];
    let i = median_index(&samples).unwrap();
    assert_eq!(samples[i], 51);
    let even: Vec<u128> = vec![40, 10, 30, 20];
    assert_eq!(even[median_index(&even).unwrap()], 30);
    let repeated: Vec<u128> = vec![7, 7, 3, 7];
    assert_eq!(repeated[median_index(&repeated).unwrap()], 7);
}

#[test]
fn adjusted_tick_adds_the_offset() {
    assert_eq!(adjusted_tick(100, -3), 97);
    assert_eq!(adjusted_tick(100, 5), 105);
    assert_eq!(adjusted_tick(2, -5), (-3i64) as u64);
}
