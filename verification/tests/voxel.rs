use geosia::voxel::decorators::place_tree;
use geosia::coordinates::{AbsBlockPos, AbsChunkPos, Direction, InChunkPos};
use geosia::entity::Entity;
use geosia::voxel::chunk::{BlockEntry, Chunk};
use geosia::voxel::chunk_map::ChunkMap;
use geosia::voxel::generator::flat::{FlatGenerator, FlatGeneratorError, FlatLayer};
use geosia::voxel::generator::VoxelGenerator;
use geosia::voxel::persistence::empty::EmptyPersistenceLayer;
use geosia::voxel::persistence::generator::GeneratorPersistenceLayer;
use geosia::voxel::persistence::memory::MemoryPersistenceLayer;
use geosia::voxel::persistence::savefile::{
    commands_before_shutdown, split_read_results, DatabaseThreadCommand, ReadChunkResult, SavefileCommandQueue,
};
use geosia::voxel::persistence::{ChunkPersistenceLayer, ChunkPersistenceLayerStats};
use geosia::voxel::plugin::{
    block_action_target, chunks_to_request, perform_block_action, refresh_player_revisions,
    server_system_process_chunk_loading, server_system_process_chunk_sending, set_loaded_block, BlockActionKind,
    ChunkLoader, LoadedChunk, PersistentVoxelStorage, VoxelPosition, VoxelUniverse, CHUNK_LOAD_RADIUS,
    CHUNK_PACKET_QUEUE_LENGTH,
};

fn ipos(x: i32, y: i32, z: i32) -> InChunkPos {
    InChunkPos::try_new(x, y, z).unwrap()
}

fn cpos(x: i32, y: i32, z: i32) -> AbsChunkPos {
    AbsChunkPos::new(x, y, z)
}

#[test]
fn plugin_constants() {
    assert_eq!(CHUNK_PACKET_QUEUE_LENGTH, 20);
    assert_eq!(CHUNK_LOAD_RADIUS, 6);
}

#[test]
fn chunk_put_changes_only_one_block() {
    let air = BlockEntry::new(0, 0);
    let stone = BlockEntry::new(2, 7);
    let mut c = Chunk::new(air, ());
    assert!(c.is_complete());
    c.put(ipos(1, 2, 3), stone);
    assert_eq!(c.get(ipos(1, 2, 3)), stone);
    assert_eq!(c.get(ipos(3, 2, 1)), air);
    assert_eq!(c.get(ipos(0, 0, 0)), air);
    let copy = c.duplicate();
    assert_eq!(copy.get(ipos(1, 2, 3)), stone);
}

#[test]
fn chunk_fill_layer_fills_one_height() {
    let air = BlockEntry::new(0, 0);
    let dirt = BlockEntry::new(3, 0);
    let mut c = Chunk::new(air, ());
    c.fill_layer(5, dirt);
    assert_eq!(c.get(ipos(0, 5, 0)), dirt);
    assert_eq!(c.get(ipos(31, 5, 31)), dirt);
    assert_eq!(c.get(ipos(0, 4, 0)), air);
    assert_eq!(c.get(ipos(0, 6, 31)), air);
}

#[test]
fn chunk_map_insert_get_remove() {
    let mut m: ChunkMap<u32> = ChunkMap::new();
    assert_eq!(m.len(), 0);
    m.insert(cpos(0, 0, 0), 1);
    m.insert(cpos(1, 0, 0), 2);
    m.insert(cpos(0, 0, 0), 3);
    assert_eq!(m.len(), 2);
    assert_eq!(m.get(&cpos(0, 0, 0)), Some(&3));
    assert!(m.contains_key(&cpos(1, 0, 0)));
    assert!(!m.insert_if_absent(cpos(1, 0, 0), 9));
    assert_eq!(m.get(&cpos(1, 0, 0)), Some(&2));
    assert!(m.insert_if_absent(cpos(2, 0, 0), 9));
    let keys = m.keys();
    assert_eq!(keys.len(), 3);
    assert_eq!(m.remove(&cpos(1, 0, 0)), Some(2));
    assert_eq!(m.remove(&cpos(1, 0, 0)), None);
    assert_eq!(m.len(), 2);
}

fn layers() -> Vec<FlatLayer> {
    vec![
        FlatLayer { block_type: BlockEntry::new(1, 0), thickness: 2 },
        FlatLayer { block_type: BlockEntry::new(2, 0), thickness: 3 },
    ]
}

#[test]
fn flat_generator_refuses_bad_layers() {
    assert!(matches!(FlatGenerator::new(0, Vec::new()), Err(FlatGeneratorError::EmptyLayers)));
    let bad = vec![
        FlatLayer { block_type: BlockEntry::new(1, 0), thickness: 2 },
        FlatLayer { block_type: BlockEntry::new(2, 0), thickness: 0 },
    ];
    assert!(matches!(FlatGenerator::new(0, bad), Err(FlatGeneratorError::NonPositiveThickness)));
}

#[test]
fn flat_generator_layer_heights() {
    let g = FlatGenerator::new(0, layers()).unwrap();
    assert_eq!(g.layer_for(-100).block_type.id, 1);
    assert_eq!(g.layer_for(0).block_type.id, 1);
    assert_eq!(g.layer_for(1).block_type.id, 1);
    assert_eq!(g.layer_for(2).block_type.id, 2);
    assert_eq!(g.layer_for(4).block_type.id, 2);
    assert_eq!(g.layer_for(1000).block_type.id, 2);
}

#[test]
fn flat_generator_fills_chunks_by_height() {
    let g = FlatGenerator::new(0, layers()).unwrap();
    let c = g.generate_chunk(cpos(0, 0, 0), ());
    assert_eq!(c.get(ipos(0, 0, 0)).id, 1);
    assert_eq!(c.get(ipos(5, 1, 9)).id, 1);
    assert_eq!(c.get(ipos(5, 2, 9)).id, 2);
    assert_eq!(c.get(ipos(31, 31, 31)).id, 2);
    let below = g.generate_chunk(cpos(0, -1, 0), ());
    assert_eq!(below.get(ipos(0, 31, 0)).id, 1);
}

#[test]
fn empty_layer_serves_fresh_chunks_in_order() {
    let fill = BlockEntry::new(4, 0);
    let mut l = EmptyPersistenceLayer::new(fill, ());
    l.request_load(&[cpos(1, 0, 0), cpos(2, 0, 0)]);
    assert_eq!(
        l.stats(),
        ChunkPersistenceLayerStats { loads_queued: 0, saves_queued: 0, responses_queued: 2 }
    );
    let first = l.try_dequeue_responses(1);
    assert_eq!(first.len(), 1);
    assert_eq!(first[0].0, cpos(1, 0, 0));
    assert_eq!(first[0].1.as_ref().unwrap().get(ipos(3, 3, 3)), fill);
    let rest = l.try_dequeue_responses(10);
    assert_eq!(rest.len(), 1);
    assert_eq!(rest[0].0, cpos(2, 0, 0));
    assert!(l.try_dequeue_responses(10).is_empty());
}

#[test]
fn memory_layer_serves_saved_chunks_and_generates_the_rest() {
    let air = BlockEntry::new(0, 0);
    let gold = BlockEntry::new(9, 0);
    let mut l = MemoryPersistenceLayer::new(EmptyPersistenceLayer::new(air, ()));
    let mut saved = Chunk::new(air, ());
    saved.put(ipos(0, 0, 0), gold);
    l.request_save(vec![(cpos(0, 0, 0), saved)]);
    l.request_load(&[cpos(0, 0, 0), cpos(5, 5, 5)]);
    let got = l.try_dequeue_responses(10);
    assert_eq!(got.len(), 2);
    let stored = got.iter().find(|r| r.0 == cpos(0, 0, 0)).unwrap();
    assert_eq!(stored.1.as_ref().unwrap().get(ipos(0, 0, 0)), gold);
    let fresh = got.iter().find(|r| r.0 == cpos(5, 5, 5)).unwrap();
    assert_eq!(fresh.1.as_ref().unwrap().get(ipos(0, 0, 0)), air);
}

#[test]
fn memory_layer_later_saves_win() {
    let air = BlockEntry::new(0, 0);
    let mut l = MemoryPersistenceLayer::new(EmptyPersistenceLayer::new(air, ()));
    let mut a = Chunk::new(air, ());
    a.put(ipos(0, 0, 0), BlockEntry::new(1, 0));
    let mut b = Chunk::new(air, ());
    b.put(ipos(0, 0, 0), BlockEntry::new(2, 0));
    l.request_save(vec![(cpos(0, 0, 0), a), (cpos(0, 0, 0), b)]);
    l.request_load(&[cpos(0, 0, 0)]);
    let got = l.try_dequeue_responses(1);
    assert_eq!(got[0].1.as_ref().unwrap().get(ipos(0, 0, 0)).id, 2);
}

#[test]
fn generator_layer_dedups_cancels_and_generates() {
    let g = FlatGenerator::new(0, layers()).unwrap();
    let mut l = GeneratorPersistenceLayer::new(g, ());
    l.request_load(&[cpos(0, 0, 0), cpos(1, 0, 0), cpos(0, 0, 0)]);
    l.request_load(&[cpos(2, 0, 0)]);
    assert_eq!(l.stats().loads_queued, 3);
    l.cancel_load(&[cpos(1, 0, 0)]);
    assert_eq!(l.stats().loads_queued, 2);
    let got = l.try_dequeue_responses(1);
    assert_eq!(got.len(), 1);
    assert_eq!(got[0].0, cpos(0, 0, 0));
    assert_eq!(got[0].1.as_ref().unwrap().get(ipos(0, 0, 0)).id, 1);
    let rest = l.try_dequeue_responses(5);
    assert_eq!(rest.len(), 1);
    assert_eq!(rest[0].0, cpos(2, 0, 0));
    assert_eq!(l.stats().loads_queued, 0);
}

#[test]
fn generator_layer_refuses_positions_outside_the_world() {
    let g = FlatGenerator::new(0, layers()).unwrap();
    let mut l = GeneratorPersistenceLayer::new(g, ());
    l.request_load(&[cpos(i32::MAX, 0, 0), cpos(67108863, -67108864, 0)]);
    let got = l.try_dequeue_responses(2);
    assert!(got[0].1.is_err());
    assert!(got[1].1.is_ok());
}

fn loads(cmd: &DatabaseThreadCommand) -> Option<Vec<AbsChunkPos>> {
    match cmd {
        DatabaseThreadCommand::Load(v) => Some(v.clone()),
        _ => None,
    }
}

#[test]
fn savefile_queue_coalesces_and_cancels() {
    let air = BlockEntry::new(0, 0);
    let mut q = SavefileCommandQueue::new();
    q.request_load(&[cpos(0, 0, 0)]);
    q.request_load(&[cpos(1, 0, 0), cpos(2, 0, 0)]);
    q.request_save(vec![(cpos(7, 0, 0), Chunk::new(air, ()))]);
    q.request_save(vec![(cpos(8, 0, 0), Chunk::new(air, ()))]);
    q.request_load(&[cpos(3, 0, 0)]);
    q.request_load(&[]);
    q.cancel_load(&[cpos(1, 0, 0), cpos(3, 0, 0)]);
    let cmds = q.take_commands();
    assert_eq!(cmds.len(), 3);
    assert_eq!(loads(&cmds[0]).unwrap(), vec![cpos(0, 0, 0), cpos(2, 0, 0)]);
    match &cmds[1] {
        DatabaseThreadCommand::Save(v) => assert_eq!(v.len(), 2),
        _ => panic!("expected the merged saves"),
    }
    assert_eq!(loads(&cmds[2]).unwrap(), Vec::<AbsChunkPos>::new());
    assert!(q.take_commands().is_empty());
}

#[test]
fn savefile_shutdown_drops_loads_keeps_saves() {
    let air = BlockEntry::new(0, 0);
    let mut q = SavefileCommandQueue::new();
    q.request_load(&[cpos(0, 0, 0)]);
    q.request_save(vec![(cpos(7, 0, 0), Chunk::new(air, ()))]);
    q.shutdown();
    let cmds = q.take_commands();
    assert_eq!(cmds.len(), 2);
    assert!(matches!(cmds[0], DatabaseThreadCommand::Save(_)));
    assert!(matches!(cmds[1], DatabaseThreadCommand::Shutdown));
}

#[test]
fn database_thread_stops_at_shutdown() {
    let cmds = vec![
        DatabaseThreadCommand::Load(vec![cpos(0, 0, 0)]),
        DatabaseThreadCommand::Shutdown,
        DatabaseThreadCommand::Load(vec![cpos(1, 0, 0)]),
    ];
    let (run, stopped) = commands_before_shutdown(cmds);
    assert!(stopped);
    assert_eq!(run.len(), 1);
    let (run, stopped) = commands_before_shutdown(vec![DatabaseThreadCommand::Load(vec![])]);
    assert!(!stopped);
    assert_eq!(run.len(), 1);
}

#[test]
fn database_read_results_are_split() {
    let results = vec![
        ReadChunkResult::Present(cpos(0, 0, 0), vec![1, 2]),
        ReadChunkResult::Missing(cpos(1, 0, 0)),
        ReadChunkResult::Present(cpos(2, 0, 0), vec![3]),
        ReadChunkResult::Missing(cpos(3, 0, 0)),
    ];
    let (present, missing) = split_read_results(results);
    assert_eq!(present, vec![(cpos(0, 0, 0), vec![1, 2]), (cpos(2, 0, 0), vec![3])]);
    assert_eq!(missing, vec![cpos(1, 0, 0), cpos(3, 0, 0)]);
}

#[test]
fn loader_requests_its_cube_in_order() {
    let loaded: ChunkMap<LoadedChunk> = ChunkMap::new();
    let mut live: ChunkMap<()> = ChunkMap::new();
    live.insert(cpos(0, 0, 0), ());
    let loaders = [(ChunkLoader { radius: 1 }, VoxelPosition(AbsBlockPos::new(0, 0, 0)))];
    let r = chunks_to_request(&loaded, &live, &loaders);
    assert_eq!(r.len(), 26);
    assert_eq!(r[0], cpos(-1, -1, -1));
    assert_eq!(r[25], cpos(1, 1, 1));
    assert!(!r.contains(&cpos(0, 0, 0)));
    for w in r.windows(2) {
        assert!((w[0].x, w[0].y, w[0].z) < (w[1].x, w[1].y, w[1].z));
    }
    let none = [(ChunkLoader { radius: 0 }, VoxelPosition(AbsBlockPos::new(0, 0, 0)))];
    assert!(chunks_to_request(&loaded, &live, &none).is_empty());
}

#[test]
fn chunk_loading_round_trip_through_empty_storage() {
    let fill = BlockEntry::new(1, 0);
    let mut universe = VoxelUniverse::new();
    let mut storage = PersistentVoxelStorage::new(EmptyPersistenceLayer::new(fill, ()));
    let loaders = [(ChunkLoader { radius: 1 }, VoxelPosition(AbsBlockPos::new(40, 0, 0)))];
    let requested = server_system_process_chunk_loading(&mut universe, &mut storage, &loaders);
    assert_eq!(requested.len(), 27);
    assert_eq!(universe.loaded_chunks.len(), 0);
    let again = server_system_process_chunk_loading(&mut universe, &mut storage, &loaders);
    assert!(again.is_empty());
    assert_eq!(universe.loaded_chunks.len(), 27);
    assert_eq!(storage.live_requests.len(), 0);
    let loaded = universe.loaded_chunks.get(&cpos(1, 0, 0)).unwrap();
    assert_eq!(loaded.revision, 0);
    assert_eq!(loaded.chunk.get(ipos(0, 0, 0)), fill);
}

#[test]
fn chunks_are_sent_once_per_revision() {
    let mut universe = VoxelUniverse::new();
    universe.loaded_chunks.insert(
        cpos(0, 0, 0),
        LoadedChunk { chunk: Chunk::new(BlockEntry::new(0, 0), ()), revision: 0, player_held_revisions: Vec::new() },
    );
    let (a, b) = (Entity(1), Entity(2));
    let first = server_system_process_chunk_sending(&mut universe, &[a, b]);
    assert_eq!(first.len(), 1);
    assert_eq!(first[0].1, vec![a, b]);
    assert!(server_system_process_chunk_sending(&mut universe, &[a, b]).is_empty());
    set_loaded_block(&mut universe, AbsBlockPos::new(0, 0, 0), BlockEntry::new(3, 0)).unwrap();
    let after_change = server_system_process_chunk_sending(&mut universe, &[b]);
    assert_eq!(after_change.len(), 1);
    assert_eq!(after_change[0].1, vec![b]);
}

#[test]
fn refreshing_revisions_forgets_disconnected_players() {
    let mut held = vec![(Entity(1), 3), (Entity(2), 5)];
    let send = refresh_player_revisions(&mut held, 5, &[Entity(2), Entity(3)]);
    assert_eq!(send, vec![Entity(3)]);
    assert_eq!(held, vec![(Entity(2), 5), (Entity(3), 5)]);
}

#[test]
fn block_action_targets() {
    let hit = AbsBlockPos::new(4, 5, 6);
    assert_eq!(block_action_target(hit, Direction::YPlus, BlockActionKind::PlaceBlock), AbsBlockPos::new(4, 6, 6));
    assert_eq!(block_action_target(hit, Direction::YPlus, BlockActionKind::BreakBlock), hit);
}

#[test]
fn block_actions_edit_loaded_chunks_and_save_them() {
    let air = BlockEntry::new(0, 0);
    let mut universe = VoxelUniverse::new();
    universe.loaded_chunks.insert(
        cpos(-1, 0, 0),
        LoadedChunk { chunk: Chunk::new(air, ()), revision: 4, player_held_revisions: Vec::new() },
    );
    let mut layer = MemoryPersistenceLayer::new(EmptyPersistenceLayer::new(air, ()));
    // placing against the +x face of block (-2, 0, 0) targets (-1, 0, 0), in chunk (-1, 0, 0)
    let placed = perform_block_action(
        &mut universe,
        Some(&mut layer),
        AbsBlockPos::new(-2, 0, 0),
        Direction::XPlus,
        BlockActionKind::PlaceBlock,
        7,
        0,
    );
    assert!(placed);
    let chunk = universe.loaded_chunks.get(&cpos(-1, 0, 0)).unwrap();
    assert_eq!(chunk.revision, 5);
    assert_eq!(chunk.chunk.get(ipos(31, 0, 0)), BlockEntry::new(7, 0));
    layer.request_load(&[cpos(-1, 0, 0)]);
    let saved = layer.try_dequeue_responses(1);
    assert_eq!(saved[0].1.as_ref().unwrap().get(ipos(31, 0, 0)).id, 7);

    let broken = perform_block_action::<MemoryPersistenceLayer<EmptyPersistenceLayer>>(
        &mut universe,
        None,
        AbsBlockPos::new(-1, 0, 0),
        Direction::XPlus,
        BlockActionKind::BreakBlock,
        7,
        0,
    );
    assert!(broken);
    assert_eq!(universe.loaded_chunks.get(&cpos(-1, 0, 0)).unwrap().chunk.get(ipos(31, 0, 0)), air);

    // a block in a chunk that is not loaded changes nothing
    assert!(set_loaded_block(&mut universe, AbsBlockPos::new(100, 0, 0), air).is_none());
}

#[test]
fn trees_have_a_trunk_and_a_crown() {
    let air = BlockEntry::new(0, 0);
    let log = BlockEntry::new(1, 0);
    let leaves = BlockEntry::new(2, 0);
    let mut c = Chunk::new(air, ());
    place_tree(&mut c, ipos(5, 0, 5), 8, log, leaves, 0);
    assert_eq!(c.get(ipos(5, 0, 5)), log);
    assert_eq!(c.get(ipos(5, 5, 5)), log);
    assert_eq!(c.get(ipos(5, 7, 5)), log);
    assert_eq!(c.get(ipos(6, 5, 5)), leaves);
    assert_eq!(c.get(ipos(5, 8, 5)), leaves);
    assert_eq!(c.get(ipos(5, 9, 5)), leaves);
    assert_eq!(c.get(ipos(5, 10, 5)), air);
    assert_eq!(c.get(ipos(9, 5, 5)), leaves);
    assert_eq!(c.get(ipos(9, 5, 9)), air);
    assert_eq!(c.get(ipos(6, 4, 5)), leaves);
    assert_eq!(c.get(ipos(6, 3, 5)), air);
}

#[test]
fn trees_are_clipped_to_the_chunk_and_keep_existing_blocks() {
    let air = BlockEntry::new(0, 0);
    let stone = BlockEntry::new(3, 0);
    let log = BlockEntry::new(1, 0);
    let leaves = BlockEntry::new(2, 0);
    let mut c = Chunk::new(air, ());
    c.put(ipos(1, 5, 0), stone);
    place_tree(&mut c, ipos(0, 0, 0), 8, log, leaves, 0);
    assert_eq!(c.get(ipos(1, 5, 0)), stone);
    assert_eq!(c.get(ipos(2, 5, 0)), leaves);
    let mut top = Chunk::new(air, ());
    place_tree(&mut top, ipos(0, 30, 0), 8, log, leaves, 0);
    assert_eq!(top.get(ipos(0, 30, 0)), log);
    assert_eq!(top.get(ipos(0, 31, 0)), log);
    assert_eq!(top.get(ipos(1, 31, 0)), air);
}

#[test]
fn chunks_carry_their_extra_data() {
    let g = FlatGenerator::new(0, layers()).unwrap();
    let c = g.generate_chunk(cpos(0, 0, 0), 42u8);
    assert_eq!(*c.extra_data(), 42);
    assert_eq!(c.get(ipos(0, 0, 0)).id, 1);

    let mut empty = EmptyPersistenceLayer::new(BlockEntry::new(4, 0), 7u8);
    empty.request_load(&[cpos(1, 0, 0)]);
    let got = empty.try_dequeue_responses(1);
    assert_eq!(*got[0].1.as_ref().unwrap().extra_data(), 7);

    let mut generated = GeneratorPersistenceLayer::new(FlatGenerator::new(0, layers()).unwrap(), 9u8);
    generated.request_load(&[cpos(0, 0, 0)]);
    let got = generated.try_dequeue_responses(1);
    assert_eq!(*got[0].1.as_ref().unwrap().extra_data(), 9);

    let mut memory = MemoryPersistenceLayer::new(EmptyPersistenceLayer::new(BlockEntry::new(0, 0), 1u8));
    memory.request_save(vec![(cpos(3, 0, 0), Chunk::new(BlockEntry::new(2, 0), 5u8))]);
    memory.request_load(&[cpos(3, 0, 0), cpos(4, 0, 0)]);
    let got = memory.try_dequeue_responses(2);
    let saved = got.iter().find(|r| r.0 == cpos(3, 0, 0)).unwrap();
    assert_eq!(*saved.1.as_ref().unwrap().extra_data(), 5);
    let fresh = got.iter().find(|r| r.0 == cpos(4, 0, 0)).unwrap();
    assert_eq!(*fresh.1.as_ref().unwrap().extra_data(), 1);
}
