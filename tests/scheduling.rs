use gc_core::bootstrap::{build_world, run_default_schedule, run_ticks, SimWorld, WorldOptions};
use gc_core::components::{Agent, AssignedJob, DesignationLifecycle, DesignationState, Entity, Inventory, ItemEntity, ItemType};
use gc_core::designations::{designation_dedup_system, designation_to_jobs_system, DesignationBundle, DesignationConfig, MineDesignation};
use gc_core::jobs::{
    add_job, job_assignment_system, mine_job_execution_system, take_next_job,
    ActiveJobs, ItemSpawnQueue, Job, JobBoard, JobId, JobKind,
};
use gc_core::stockpiles::StockpileBundle;
use gc_core::systems::{
    advance_time, auto_haul_system, confine_to_map, hauling_execution_system, mining_execution_system, movement,
    step_toward, stream_seed, DeterministicRng, MovementConfig, Time,
};
use gc_core::world::{GameMap, Position, TileKind, Velocity};
use rand::rngs::StdRng;
use rand::Rng;
use std::collections::HashSet;

fn draw_id(rng: &mut StdRng) -> JobId {
    let mut bytes = [0u8; 16];
    rng.fill(&mut bytes);
    JobId::from_bytes(bytes)
}

fn designation(x: i32, y: i32) -> DesignationBundle {
    DesignationBundle { pos: Position(x, y), kind: MineDesignation, lifecycle: DesignationLifecycle::default() }
}

fn demo_world(width: u32, height: u32, seed: u64, wall: (i32, i32)) -> SimWorld {
    let mut map = GameMap::new(width, height);
    map.set_tile(wall.0, wall.1, TileKind::Wall);
    let mut world = build_world(map, DeterministicRng::new(seed), WorldOptions { populate_demo_scene: true, tick_ms: 100 });
    world.designations.push(designation(wall.0, wall.1));
    world
}

fn assert_jobs_unique(world: &SimWorld) {
    let mut held = HashSet::new();
    for a in &world.agents {
        if let Some(id) = a.job.0 {
            assert!(held.insert(id), "job handed to two agents");
        }
    }
    let mut on_board = HashSet::new();
    for j in &world.board.0 {
        assert!(on_board.insert(j.id), "two board jobs share an id");
        assert!(!world.active.jobs.contains_key(&j.id.0), "job both on the board and active");
    }
}

#[test]
fn time_resource_creation() {
    let time = Time::new(16);
    assert_eq!(time.ticks, 0);
    assert_eq!(time.tick_ms, 16);
}

#[test]
fn time_resource_with_different_tick_rates() {
    assert_eq!(Time::new(8).tick_ms, 8);
    assert_eq!(Time::new(33).tick_ms, 33);
}

#[test]
fn deterministic_rng_creation() {
    assert_eq!(DeterministicRng::new(42).master_seed, 42);
}

#[test]
fn deterministic_rng_different_seeds() {
    assert_ne!(DeterministicRng::new(42).master_seed, DeterministicRng::new(123).master_seed);
}

#[test]
fn stream_seeds_mix_and_offset() {
    assert_eq!(stream_seed(42, 1), 42 * 0x9e3779b9 + 1);
    assert_eq!(stream_seed(u64::MAX, 3), u64::MAX.wrapping_mul(0x9e3779b9).wrapping_add(3));
}

#[test]
fn advance_time_system() {
    let mut time = Time::new(16);
    assert_eq!(time.ticks, 0);
    advance_time(&mut time);
    assert_eq!(time.ticks, 1);
    advance_time(&mut time);
    assert_eq!(time.ticks, 2);
    assert_eq!(time.tick_ms, 16);
}

#[test]
fn movement_system_basic() {
    let mut a = Agent::new(Position(5, 5), false, false);
    a.vel = Some(Velocity(1, 1));
    let mut agents = vec![a];
    movement(&mut agents);
    assert_eq!(agents[0].pos, Position(6, 6));
}

#[test]
fn movement_system_no_velocity() {
    let mut agents = vec![Agent::new(Position(5, 5), false, false)];
    movement(&mut agents);
    assert_eq!(agents[0].pos, Position(5, 5));
}

#[test]
fn confine_to_map_system() {
    let map = GameMap::new(10, 10);
    let mut agents = vec![Agent::new(Position(-1, 15), false, false)];
    let mut items = vec![ItemEntity::stone_at(Position(12, -4))];
    let mut ds = vec![designation(10, 3)];
    let mut stockpiles = vec![StockpileBundle::new(9, 9, 11, 11)];
    confine_to_map(&map, &mut agents, &mut items, &mut ds, &mut stockpiles);
    assert_eq!(agents[0].pos, Position(0, 9));
    assert_eq!(items[0].pos, Position(9, 0));
    assert_eq!(ds[0].pos, Position(9, 3));
    assert_eq!(stockpiles[0].position, Position(9, 9));
    assert_eq!(stockpiles[0].bounds.max_x, 11);
}

#[test]
fn step_toward_moves_horizontally_first() {
    assert_eq!(step_toward(0, 0, 3, 3), (1, 0));
    assert_eq!(step_toward(3, 0, 3, 3), (3, 1));
    assert_eq!(step_toward(3, 3, 3, 3), (3, 3));
    assert_eq!(step_toward(5, 5, 2, 1), (4, 5));
    assert_eq!(step_toward(2, 5, 2, 1), (2, 4));
}

#[test]
fn designation_to_jobs_system_basic() {
    let mut board = JobBoard::default();
    let mut rng = DeterministicRng::new(42);
    let mut ds = vec![designation(10, 15)];
    designation_to_jobs_system(&DesignationConfig { auto_jobs: true }, &mut board, &mut rng, &mut ds);
    assert!(!board.0.is_empty());
}

#[test]
fn add_job_draws_from_job_stream() {
    let mut board = JobBoard::default();
    let mut rng = DeterministicRng::new(42);
    let id = add_job(&mut board, JobKind::Mine { x: 1, y: 2 }, &mut rng.job_rng);
    let mut fresh = DeterministicRng::new(42);
    assert_eq!(id, draw_id(&mut fresh.job_rng));
    assert_eq!(board.0.len(), 1);
    assert_eq!(board.0[0].id, id);
}

#[test]
fn job_id_reads_bytes_big_endian() {
    let mut bytes = [0u8; 16];
    bytes[15] = 1;
    bytes[0] = 2;
    assert_eq!(JobId::from_bytes(bytes).0, (2u128 << 120) + 1);
}

#[test]
fn take_next_job_is_last_in_first_out() {
    let mut board = JobBoard::default();
    let mut rng = DeterministicRng::new(1);
    add_job(&mut board, JobKind::Mine { x: 1, y: 1 }, &mut rng.job_rng);
    let second = add_job(&mut board, JobKind::Mine { x: 2, y: 2 }, &mut rng.job_rng);
    assert_eq!(take_next_job(&mut board).map(|j| j.id), Some(second));
    assert_eq!(board.0.len(), 1);
    take_next_job(&mut board);
    assert!(take_next_job(&mut board).is_none());
}

#[test]
fn job_assignment_system_basic() {
    let mut board = JobBoard::default();
    let mut active = ActiveJobs::default();
    let mut rng = DeterministicRng::new(42);
    let job_id = draw_id(&mut rng.job_rng);
    board.0.push(Job { id: job_id, kind: JobKind::Mine { x: 10, y: 10 } });
    let mut agents = vec![Agent::new(Position(9, 9), true, false)];
    job_assignment_system(&mut board, &mut active, &mut agents);
    assert_eq!(agents[0].job.0, Some(job_id));
    assert!(board.0.is_empty());
    assert!(active.jobs.contains_key(&job_id.0));
}

#[test]
fn assignment_matches_kind_to_capability_one_per_class() {
    let mut board = JobBoard::default();
    let mut active = ActiveJobs::default();
    let mut rng = DeterministicRng::new(3);
    let haul = draw_id(&mut rng.job_rng);
    let mine1 = draw_id(&mut rng.job_rng);
    let mine2 = draw_id(&mut rng.job_rng);
    board.0.push(Job { id: haul, kind: JobKind::Haul { from: (0, 0), to: (1, 1) } });
    board.0.push(Job { id: mine1, kind: JobKind::Mine { x: 1, y: 1 } });
    board.0.push(Job { id: mine2, kind: JobKind::Mine { x: 2, y: 2 } });
    let mut agents = vec![
        Agent::new(Position(0, 0), true, true),
        Agent::new(Position(0, 0), true, false),
        Agent::new(Position(0, 0), true, false),
        Agent::new(Position(0, 0), false, true),
    ];
    job_assignment_system(&mut board, &mut active, &mut agents);
    assert_eq!(agents[0].job.0, Some(mine1));
    assert_eq!(agents[1].job.0, None);
    assert_eq!(agents[2].job.0, None);
    assert_eq!(agents[3].job.0, Some(haul));
    assert_eq!(board.0.len(), 1);
    assert_eq!(board.0[0].id, mine2);
}

#[test]
fn mining_job_assignment_system() {
    let mut board = JobBoard::default();
    let mut active = ActiveJobs::default();
    let mut rng = DeterministicRng::new(42);
    let job_id = draw_id(&mut rng.job_rng);
    board.0.push(Job { id: job_id, kind: JobKind::Mine { x: 5, y: 5 } });
    let mut agents = vec![Agent::new(Position(5, 5), true, false)];
    gc_core::jobs::mining_job_assignment_system(&mut board, &mut active, &mut agents);
    assert!(!active.jobs.is_empty());
}

#[test]
fn mining_assignment_serves_every_idle_miner() {
    let mut board = JobBoard::default();
    let mut active = ActiveJobs::default();
    let mut rng = DeterministicRng::new(5);
    for i in 0..3 {
        add_job(&mut board, JobKind::Mine { x: i, y: i }, &mut rng.job_rng);
    }
    let mut agents = vec![
        Agent::new(Position(0, 0), true, true),
        Agent::new(Position(0, 0), false, true),
        Agent::new(Position(0, 0), true, false),
    ];
    gc_core::jobs::mining_job_assignment_system(&mut board, &mut active, &mut agents);
    assert!(agents[0].job.0.is_some());
    assert!(agents[1].job.0.is_none());
    assert!(agents[2].job.0.is_some());
    assert_eq!(board.0.len(), 1);
    assert_eq!(active.jobs.len(), 2);
    assert_ne!(agents[0].job.0, agents[2].job.0);
}

fn miner_with_job(pos: Position, map_wall: bool, target: (i32, i32)) -> (GameMap, ActiveJobs, Vec<Agent>, JobId) {
    let mut map = GameMap::new(20, 20);
    if map_wall {
        map.set_tile(target.0, target.1, TileKind::Wall);
    }
    let mut rng = DeterministicRng::new(42);
    let job_id = draw_id(&mut rng.job_rng);
    let mut active = ActiveJobs::default();
    active.jobs.insert(job_id.0, Job { id: job_id, kind: JobKind::Mine { x: target.0, y: target.1 } });
    let mut miner = Agent::new(pos, true, false);
    miner.job = AssignedJob(Some(job_id));
    (map, active, vec![miner], job_id)
}

#[test]
fn mining_execution_system_basic() {
    let (mut map, mut active, mut agents, _) = miner_with_job(Position(10, 10), true, (10, 10));
    let mut items: Vec<ItemEntity> = Vec::new();
    let mut queue = ItemSpawnQueue::default();
    mining_execution_system(&mut map, &mut queue, &mut active, &mut agents, &mut items);
    assert!(queue.requests.is_empty());
    assert_eq!(map.get_tile(10, 10), Some(TileKind::Floor));
    assert_eq!(items.len(), 1);
    assert_eq!(items[0].pos, Position(10, 10));
    assert!(agents[0].job.0.is_none());
}

#[test]
fn mine_job_converts_wall_to_floor() {
    let (mut map, mut active, mut agents, job_id) = miner_with_job(Position(4, 6), true, (5, 5));
    let mut queue = ItemSpawnQueue::default();
    mine_job_execution_system(&mut map, &mut queue, &mut active, &mut agents);
    assert_eq!(map.get_tile(5, 5), Some(TileKind::Floor));
    assert_eq!(queue.requests.len(), 1);
    assert_eq!(queue.requests[0].item_type, ItemType::Stone);
    assert_eq!(queue.requests[0].position, (5, 5));
    assert!(!active.jobs.contains_key(&job_id.0));
    assert!(agents[0].job.0.is_none());
}

#[test]
fn mine_job_does_not_affect_non_wall_tiles() {
    let (mut map, mut active, mut agents, job_id) = miner_with_job(Position(5, 5), false, (5, 5));
    let mut queue = ItemSpawnQueue::default();
    for _ in 0..5 {
        mine_job_execution_system(&mut map, &mut queue, &mut active, &mut agents);
    }
    assert_eq!(map.get_tile(5, 5), Some(TileKind::Floor));
    assert_eq!(queue.requests.len(), 0);
    assert_eq!(agents[0].job.0, Some(job_id));
    assert!(active.jobs.contains_key(&job_id.0));
}

#[test]
fn mining_out_of_reach_waits() {
    let (mut map, mut active, mut agents, job_id) = miner_with_job(Position(7, 5), true, (5, 5));
    let mut queue = ItemSpawnQueue::default();
    mine_job_execution_system(&mut map, &mut queue, &mut active, &mut agents);
    assert_eq!(map.get_tile(5, 5), Some(TileKind::Wall));
    assert!(queue.requests.is_empty());
    assert_eq!(agents[0].job.0, Some(job_id));
}

#[test]
fn missing_job_frees_the_miner() {
    let (mut map, _active, mut agents, _) = miner_with_job(Position(5, 5), true, (5, 5));
    let mut empty = ActiveJobs::default();
    let mut queue = ItemSpawnQueue::default();
    mine_job_execution_system(&mut map, &mut queue, &mut empty, &mut agents);
    assert!(agents[0].job.0.is_none());
    assert_eq!(map.get_tile(5, 5), Some(TileKind::Wall));
    assert!(queue.requests.is_empty());
}

#[test]
fn miner_gets_assigned_mine_jobs() {
    let mut world = demo_world(10, 10, 42, (5, 5));
    world.agents.truncate(1);
    world.agents[0].pos = Position(1, 1);
    for _ in 0..5 {
        run_default_schedule(&mut world);
    }
    assert!(world.agents[0].job.0.is_some());
    assert_eq!(world.map.get_tile(5, 5), Some(TileKind::Wall));
}

#[test]
fn mining_without_wall_does_nothing() {
    let mut map = GameMap::new(10, 10);
    let mut board = JobBoard::default();
    let mut active = ActiveJobs::default();
    let mut rng = DeterministicRng::new(42);
    let mut agents = vec![Agent::new(Position(4, 5), true, false)];
    let mut ds = vec![designation(5, 5)];
    let mut items: Vec<ItemEntity> = Vec::new();
    designation_dedup_system(&mut ds);
    designation_to_jobs_system(&DesignationConfig { auto_jobs: true }, &mut board, &mut rng, &mut ds);
    job_assignment_system(&mut board, &mut active, &mut agents);
    let mut queue = ItemSpawnQueue::default();
    mining_execution_system(&mut map, &mut queue, &mut active, &mut agents, &mut items);
    assert_eq!(map.get_tile(5, 5), Some(TileKind::Floor), "Should remain floor");
    assert_eq!(items.len(), 0, "Should still have no items - no wall to mine");
}

fn carrier_with_haul(pos: Position, holding: Option<Entity>, from: (i32, i32), to: (i32, i32)) -> (ActiveJobs, Vec<Agent>, JobId) {
    let mut rng = DeterministicRng::new(42);
    let job_id = draw_id(&mut rng.job_rng);
    let mut active = ActiveJobs::default();
    active.jobs.insert(job_id.0, Job { id: job_id, kind: JobKind::Haul { from, to } });
    let mut carrier = Agent::new(pos, false, true);
    carrier.job = AssignedJob(Some(job_id));
    carrier.inventory = Inventory(holding);
    (active, vec![carrier], job_id)
}

#[test]
fn hauling_execution_system_basic() {
    let (mut active, mut agents, _) = carrier_with_haul(Position(5, 5), None, (5, 5), (10, 10));
    let mut items = vec![ItemEntity::stone_at(Position(5, 5))];
    hauling_execution_system(&mut active, None, &mut agents, &mut items);
    assert_eq!(agents[0].inventory.0, Some(Entity(0)));
    assert_eq!(agents[0].pos, Position(5, 5));
}

#[test]
fn stepwise_carrier_walks_then_drops() {
    let (mut active, mut agents, job_id) = carrier_with_haul(Position(2, 2), None, (3, 2), (3, 4));
    let mut items = vec![ItemEntity::stone_at(Position(3, 2))];
    let stepwise = Some(MovementConfig::default());
    hauling_execution_system(&mut active, stepwise, &mut agents, &mut items);
    assert_eq!(agents[0].pos, Position(3, 2));
    assert_eq!(agents[0].inventory.0, Some(Entity(0)));
    hauling_execution_system(&mut active, stepwise, &mut agents, &mut items);
    assert_eq!(agents[0].pos, Position(3, 3));
    assert_eq!(items[0].pos, Position(3, 2));
    hauling_execution_system(&mut active, stepwise, &mut agents, &mut items);
    assert_eq!(agents[0].pos, Position(3, 4));
    assert_eq!(items[0].pos, Position(3, 4));
    assert!(agents[0].inventory.0.is_none());
    assert!(agents[0].job.0.is_none());
    assert!(!active.jobs.contains_key(&job_id.0));
}

#[test]
fn walking_carrier_keeps_its_item() {
    let (mut active, mut agents, _) = carrier_with_haul(Position(2, 2), Some(Entity(0)), (2, 2), (6, 2));
    let mut items = vec![ItemEntity::stone_at(Position(2, 2)), ItemEntity::stone_at(Position(3, 2))];
    hauling_execution_system(&mut active, Some(MovementConfig::default()), &mut agents, &mut items);
    assert_eq!(agents[0].pos, Position(3, 2));
    assert_eq!(agents[0].inventory.0, Some(Entity(0)));
    assert_eq!(items[1].pos, Position(3, 2));
}

#[test]
fn immediate_delivery_without_stepwise_setting() {
    let (mut active, mut agents, job_id) = carrier_with_haul(Position(0, 0), None, (3, 2), (7, 7));
    let mut items = vec![ItemEntity::stone_at(Position(3, 2))];
    hauling_execution_system(&mut active, None, &mut agents, &mut items);
    assert_eq!(agents[0].pos, Position(7, 7));
    assert_eq!(items[0].pos, Position(7, 7));
    assert!(agents[0].job.0.is_none());
    assert!(!active.jobs.contains_key(&job_id.0));
}

#[test]
fn carrier_with_missing_job_is_freed() {
    let (_active, mut agents, _) = carrier_with_haul(Position(4, 4), Some(Entity(0)), (1, 1), (8, 8));
    let mut empty = ActiveJobs::default();
    let mut items = vec![ItemEntity::stone_at(Position(1, 1))];
    hauling_execution_system(&mut empty, Some(MovementConfig::default()), &mut agents, &mut items);
    assert!(agents[0].job.0.is_none());
    assert_eq!(agents[0].pos, Position(4, 4));
    assert_eq!(agents[0].inventory.0, Some(Entity(0)));
    assert_eq!(items[0].pos, Position(1, 1));
}

#[test]
fn single_tick_haul_waits_when_nothing_to_pick() {
    let (mut active, mut agents, job_id) = carrier_with_haul(Position(0, 0), None, (3, 2), (7, 7));
    let mut items = vec![ItemEntity::stone_at(Position(5, 5))];
    hauling_execution_system(&mut active, None, &mut agents, &mut items);
    assert_eq!(agents[0].pos, Position(0, 0));
    assert_eq!(agents[0].job.0, Some(job_id));
    assert!(active.jobs.contains_key(&job_id.0));
    assert_eq!(items[0].pos, Position(5, 5));
}

#[test]
fn held_item_is_not_picked_again() {
    let mut rng = DeterministicRng::new(11);
    let mut active = ActiveJobs::default();
    let mut agents = Vec::new();
    for holding in [Some(Entity(0)), None] {
        let id = draw_id(&mut rng.job_rng);
        active.jobs.insert(id.0, Job { id, kind: JobKind::Haul { from: (4, 4), to: (9, 9) } });
        let mut c = Agent::new(Position(4, 4), false, true);
        c.job = AssignedJob(Some(id));
        c.inventory = Inventory(holding);
        agents.push(c);
    }
    let mut items = vec![ItemEntity::stone_at(Position(4, 4))];
    hauling_execution_system(&mut active, Some(MovementConfig::default()), &mut agents, &mut items);
    assert_eq!(agents[0].inventory.0, Some(Entity(0)));
    assert_eq!(agents[1].inventory.0, None);
}

#[test]
fn one_item_is_matched_once_per_tick() {
    let mut rng = DeterministicRng::new(9);
    let mut active = ActiveJobs::default();
    let mut agents = Vec::new();
    for _ in 0..2 {
        let id = draw_id(&mut rng.job_rng);
        active.jobs.insert(id.0, Job { id, kind: JobKind::Haul { from: (4, 4), to: (8, 8) } });
        let mut c = Agent::new(Position(4, 4), false, true);
        c.job = AssignedJob(Some(id));
        agents.push(c);
    }
    let mut items = vec![ItemEntity::stone_at(Position(4, 4))];
    hauling_execution_system(&mut active, Some(MovementConfig::default()), &mut agents, &mut items);
    assert_eq!(agents[0].inventory.0, Some(Entity(0)));
    assert_eq!(agents[1].inventory.0, None);
}

#[test]
fn auto_haul_targets_nearest_stockpile_once() {
    let mut board = JobBoard::default();
    let mut rng = DeterministicRng::new(42);
    let mut items = vec![ItemEntity::stone_at(Position(1, 1))];
    let stockpiles = vec![StockpileBundle::new(9, 9, 11, 11), StockpileBundle::new(0, 3, 2, 5)];
    auto_haul_system(&mut board, &mut rng, &mut items, &stockpiles);
    assert_eq!(board.0.len(), 1);
    assert_eq!(board.0[0].kind, JobKind::Haul { from: (1, 1), to: (1, 4) });
    assert!(!items[0].fresh);
    auto_haul_system(&mut board, &mut rng, &mut items, &stockpiles);
    assert_eq!(board.0.len(), 1);
}

#[test]
fn auto_haul_without_stockpile_posts_nothing() {
    let mut board = JobBoard::default();
    let mut rng = DeterministicRng::new(42);
    let mut items = vec![ItemEntity::stone_at(Position(1, 1))];
    auto_haul_system(&mut board, &mut rng, &mut items, &Vec::new());
    assert!(board.0.is_empty());
}

#[test]
fn deterministic_rng_stream_independence() {
    let mut rng1 = DeterministicRng::new(42);
    let mut rng2 = DeterministicRng::new(42);
    let _val1 = rng1.mapgen_rng.gen::<u32>();
    let _val2 = rng1.mapgen_rng.gen::<u32>();
    assert_eq!(rng1.job_rng.gen::<u32>(), rng2.job_rng.gen::<u32>());
}

#[test]
fn deterministic_rng_consistent_sequences() {
    let mut rng1 = DeterministicRng::new(42);
    let mut rng2 = DeterministicRng::new(42);
    let seq1: Vec<u32> = (0..10).map(|_| rng1.mapgen_rng.gen()).collect();
    let seq2: Vec<u32> = (0..10).map(|_| rng2.mapgen_rng.gen()).collect();
    assert_eq!(seq1, seq2, "Identical seeds should produce identical sequences");
    let job_vals1: Vec<u32> = (0..5).map(|_| rng1.job_rng.gen()).collect();
    let job_vals2: Vec<u32> = (0..5).map(|_| rng2.job_rng.gen()).collect();
    assert_eq!(job_vals1, job_vals2, "Job RNG streams should also be identical");
}

#[test]
fn two_runs_with_the_same_seed_agree() {
    let build = || {
        let mut w = demo_world(20, 20, 42, (5, 5));
        w.map.set_tile(6, 5, TileKind::Wall);
        w.designations.push(designation(6, 5));
        w.designations.push(designation(5, 5));
        w
    };
    let mut a = build();
    let mut b = build();
    let da = run_ticks(&mut a, 30);
    let db = run_ticks(&mut b, 30);
    assert_eq!(da.len(), 30);
    assert_eq!(da, db);
    assert_eq!(a.map.tiles, b.map.tiles);
    assert_eq!(a.agents, b.agents);
    assert_eq!(a.items, b.items);
    let c = {
        let mut c = demo_world(20, 20, 43, (5, 5));
        c.map.set_tile(6, 5, TileKind::Wall);
        c.designations.push(designation(6, 5));
        c.designations.push(designation(5, 5));
        c
    };
    let mut c = c;
    let dc = run_ticks(&mut c, 30);
    assert_ne!(da, dc);
}

#[test]
fn scenario_seed_42_mine_then_haul_to_stockpile() {
    let mut world = demo_world(10, 10, 42, (5, 5));
    run_default_schedule(&mut world);
    assert_eq!(world.designations[0].lifecycle.0, DesignationState::Consumed);
    assert_eq!(world.board.0.len() + world.active.jobs.len(), 1);
    run_default_schedule(&mut world);
    assert_eq!(world.map.get_tile(5, 5), Some(TileKind::Floor));
    assert_eq!(world.items.len(), 1);
    assert_eq!(world.items[0].item.item_type, ItemType::Stone);
    assert_eq!(world.items[0].pos, Position(5, 5));
    for _ in 0..8 {
        run_default_schedule(&mut world);
    }
    assert_eq!(world.items.len(), 1);
    assert_eq!(world.items[0].pos, Position(9, 9));
    assert!(world.stockpiles[0].bounds.contains(world.items[0].pos.0, world.items[0].pos.1));
    assert!(world.agents.iter().all(|a| a.job.0.is_none()));
    assert!(world.agents.iter().all(|a| a.inventory.0.is_none()));
    assert!(world.board.0.is_empty());
    assert!(world.active.jobs.is_empty());
    assert_eq!(world.time.ticks, 10);
}

#[test]
fn stepwise_haul_round_trip() {
    let mut world = demo_world(20, 20, 42, (5, 5));
    let mut ticks = 0;
    while ticks < 40 {
        run_default_schedule(&mut world);
        assert_jobs_unique(&world);
        ticks += 1;
    }
    assert_eq!(world.map.get_tile(5, 5), Some(TileKind::Floor));
    assert_eq!(world.items.len(), 1);
    assert_eq!(world.items[0].pos, Position(10, 10));
    assert!(world.agents.iter().all(|a| a.job.0.is_none() && a.inventory.0.is_none()));
    assert!(world.board.0.is_empty());
    assert!(world.active.jobs.is_empty());
}

#[test]
fn many_workers_never_share_a_job() {
    let mut map = GameMap::new(16, 16);
    let mut world = build_world(map.clone(), DeterministicRng::new(7), WorldOptions { populate_demo_scene: true, tick_ms: 50 });
    for x in 2..8 {
        map.set_tile(x, 3, TileKind::Wall);
        world.map.set_tile(x, 3, TileKind::Wall);
        world.designations.push(designation(x, 3));
        world.designations.push(designation(x, 3));
    }
    for i in 0..4 {
        world.agents.push(Agent::new(Position(i + 2, 4), true, false));
        world.agents.push(Agent::new(Position(i, 0), false, true));
    }
    for _ in 0..60 {
        run_default_schedule(&mut world);
        assert_jobs_unique(&world);
    }
    let mined = (2..8).filter(|&x| world.map.get_tile(x, 3) == Some(TileKind::Floor)).count();
    assert!(mined > 0);
    assert_eq!(world.items.len(), mined);
}
