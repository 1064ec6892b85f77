//! The whole simulation state and its fixed per-tick schedule.
use vstd::prelude::*;
use crate::components::{Agent, ItemEntity};
use crate::designations::{
    active_mine_kinds, consume_spec, dedup_spec, designation_dedup_system, designation_to_jobs_system,
    job_kinds, DesignationBundle, DesignationConfig,
};
use crate::jobs::{
    jobs_unique, lemma_assign_keeps_unique, lemma_post_fresh_keeps_unique, lemma_release_keeps_unique, mentions,
    releases, MineRun, mine_turn,
    assign_pass, job_assignment_system, mine_all, mine_job_execution_system, process_item_spawn_queue_system,
    spawned_item, stone_request, ActiveJobs, AgentClass, ItemSpawnQueue, ItemSpawnRequest, Job, JobBoard, JobId,
    JobKind, Roster,
};
use crate::stockpiles::StockpileBundle;
use crate::systems::{
    advance_time, apply_moves, auto_haul_system, completed_ids, confine_to_map, confined, drop_move,
    fresh_haul_kinds, haul_plan, hauled_agent, hauling_execution_system, immediate_move, move_fits, moved, movement,
    held_items, pick_seq, settled, stepwise_of, DeterministicRng, MovementConfig, Time,
};
use crate::world::{GameMap, Position, TileKind};

verus! {

/// What to put in a new world besides the core resources.
#[derive(Debug, Clone, Copy, PartialEq, Eq, Structural)]
pub struct WorldOptions {
    /// Add a miner and a carrier at (5, 5) and a stockpile over (9..=11, 9..=11).
    pub populate_demo_scene: bool,
    /// Nominal tick length in milliseconds.
    pub tick_ms: u64,
}

impl WorldOptions {
    /// No demo scene, 100 ms ticks.
    pub fn default_options() -> (r: WorldOptions)
        ensures
            !r.populate_demo_scene,
            r.tick_ms == 100,
    {
        WorldOptions { populate_demo_scene: false, tick_ms: 100 }
    }
}

/// The complete simulation state, threaded through every system.
#[derive(Debug)]
pub struct SimWorld {
    pub map: GameMap,
    pub board: JobBoard,
    pub active: ActiveJobs,
    pub spawn_queue: ItemSpawnQueue,
    pub designation_config: DesignationConfig,
    pub movement_config: Option<MovementConfig>,
    pub time: Time,
    pub rng: DeterministicRng,
    pub agents: Vec<Agent>,
    pub items: Vec<ItemEntity>,
    pub designations: Vec<DesignationBundle>,
    pub stockpiles: Vec<StockpileBundle>,
}

/// Everything of a world but the inner state of its entropy streams.
pub struct WorldView {
    pub tiles: Seq<TileKind>,
    pub width: u32,
    pub height: u32,
    pub board: Seq<Job>,
    pub active: Map<u128, Job>,
    pub queue: Seq<ItemSpawnRequest>,
    pub auto_jobs: bool,
    pub movement: Option<MovementConfig>,
    pub time: Time,
    pub master_seed: u64,
    pub agents: Seq<Agent>,
    pub items: Seq<ItemEntity>,
    pub designations: Seq<DesignationBundle>,
    pub stockpiles: Seq<StockpileBundle>,
}

pub open spec fn job_ids(b: Seq<Job>) -> Seq<JobId> {
    b.map_values(|j: Job| j.id)
}

/// Jobs pairing each id with the kind at the same place.
pub open spec fn jobs_of(ids: Seq<JobId>, kinds: Seq<JobKind>) -> Seq<Job> {
    Seq::new(kinds.len(), |i: int| Job { id: ids[i], kind: kinds[i] })
}

/// Designations clamped onto the map.
pub open spec fn clamped_designations(v: WorldView) -> Seq<DesignationBundle> {
    v.designations.map_values(|d: DesignationBundle| DesignationBundle { pos: confined(d.pos, v.width, v.height), ..d })
}

/// Stockpile centres clamped onto the map.
pub open spec fn clamped_stockpiles(v: WorldView) -> Seq<StockpileBundle> {
    v.stockpiles.map_values(|p: StockpileBundle| StockpileBundle { position: confined(p.position, v.width, v.height), ..p })
}

/// How many ids a tick draws for conversion before it draws for auto-haul.
pub open spec fn conversions(v: WorldView) -> int {
    if v.auto_jobs {
        active_mine_kinds(dedup_spec(clamped_designations(v))).len() as int
    } else {
        0
    }
}

/// A tick up to (and including) the materialisation of spawned items,
/// given the ids conversion draws: movement, clamp to the map, dedup,
/// conversion, assignment, mining, hauling, materialisation.
pub open spec fn tick_core(v: WorldView, ids1: Seq<JobId>) -> WorldView {
    let agents1 = v.agents.map_values(|a: Agent| moved(a));
    let agents2 = agents1.map_values(|a: Agent| Agent { pos: confined(a.pos, v.width, v.height), ..a });
    let items2 = v.items.map_values(|e: ItemEntity| ItemEntity { pos: confined(e.pos, v.width, v.height), ..e });
    let des3 = dedup_spec(clamped_designations(v));
    let des4 = if v.auto_jobs { consume_spec(des3) } else { des3 };
    let board4 = if v.auto_jobs { v.board + jobs_of(ids1, active_mine_kinds(des3)) } else { v.board };
    let r5: Roster = assign_pass(assign_pass((board4, v.active, agents2), AgentClass::Miners), AgentClass::Carriers);
    let m6 = mine_all((v.tiles, r5.1, r5.2, Seq::<(i32, i32)>::empty()), v.width, v.height, r5.2.len() as nat);
    let queue6 = v.queue + m6.3.map_values(|c: (i32, i32)| stone_request(c));
    let n = m6.2.len();
    let plans = m6.2.map_values(|a: Agent| haul_plan(a, m6.1, stepwise_of(v.movement)));
    let picks = pick_seq(items2, held_items(m6.2), plans, n);
    let agents7 = Seq::new(n, |i: int| hauled_agent(m6.2[i], plans[i], picks[i]));
    let items7 = apply_moves(
        apply_moves(items2, Seq::new(n, |i: int| drop_move(plans[i]))),
        Seq::new(n, |i: int| immediate_move(plans[i], picks[i])),
    );
    let active7 = m6.1.remove_keys(completed_ids(plans, picks, n as int));
    WorldView {
        tiles: m6.0,
        board: r5.0,
        active: active7,
        queue: Seq::empty(),
        agents: agents7,
        items: items7 + queue6.map_values(|r: ItemSpawnRequest| spawned_item(r)),
        designations: des4,
        stockpiles: clamped_stockpiles(v),
        ..v
    }
}

/// One tick of the default schedule, given the job ids it draws (those of
/// conversion, then those of auto-haul): `tick_core`, then auto-haul, then
/// the clock.
pub open spec fn tick_spec(v: WorldView, drawn: Seq<JobId>) -> WorldView {
    let k = conversions(v);
    let c = tick_core(v, drawn.take(k));
    WorldView {
        board: c.board + jobs_of(drawn.skip(k), fresh_haul_kinds(c.items, c.stockpiles)),
        items: c.items.map_values(|e: ItemEntity| settled(e)),
        time: Time { ticks: (v.time.ticks + 1) as u64, ..v.time },
        ..c
    }
}

/// How many ids the auto-haul step of a tick draws.
pub open spec fn haul_draws(v: WorldView, drawn: Seq<JobId>) -> int {
    let c = tick_core(v, drawn.take(conversions(v)));
    fresh_haul_kinds(c.items, c.stockpiles).len() as int
}

pub open spec fn roster_of(v: WorldView) -> Roster {
    (v.board, v.active, v.agents)
}

/// The ids a tick draws are distinct and occur nowhere in the world yet.
pub open spec fn fresh_draws(v: WorldView, drawn: Seq<JobId>) -> bool {
    &&& forall|i: int, j: int| 0 <= i < j < drawn.len() ==> drawn[i] != drawn[j]
    &&& forall|i: int| 0 <= i < drawn.len() ==> !mentions(roster_of(v), #[trigger] drawn[i])
}

proof fn lemma_mine_all_releases(board: Seq<Job>, m: MineRun, w: u32, h: u32, n: nat)
    requires
        n <= m.2.len(),
    ensures
        releases((board, m.1, m.2), (board, mine_all(m, w, h, n).1, mine_all(m, w, h, n).2)),
    decreases n,
{
    if n > 0 {
        lemma_mine_all_releases(board, m, w, h, (n - 1) as nat);
        let p = mine_all(m, w, h, (n - 1) as nat);
        let q = mine_turn(p, w, h, n - 1);
        assert(q == mine_all(m, w, h, n));
        assert(releases((board, m.1, m.2), (board, p.1, p.2)));
        assert(q.2.len() == p.2.len());
        assert forall|a: int| 0 <= a < q.2.len() implies (#[trigger] q.2[a]).job.0 == m.2[a].job.0 || q.2[a].job.0 is None by {
            assert(q.2[a].job.0 == p.2[a].job.0 || q.2[a].job.0 is None);
            assert(p.2[a].job.0 == m.2[a].job.0 || p.2[a].job.0 is None);
        }
        assert forall|key: u128| #[trigger] q.1.contains_key(key) implies m.1.contains_key(key) by {
            assert(p.1.contains_key(key));
            let t: Roster = (board, p.1, p.2);
            assert(t.1.contains_key(key));
        }
    }
}

/// A tick whose drawn ids are fresh keeps job ids unique: no job is handed
/// to two agents, and no job is both on the board and in the registry.
pub proof fn lemma_tick_keeps_jobs_unique(v: WorldView, drawn: Seq<JobId>)
    requires
        jobs_unique(roster_of(v)),
        fresh_draws(v, drawn),
        drawn.len() == conversions(v) + haul_draws(v, drawn),
    ensures
        jobs_unique(roster_of(tick_spec(v, drawn))),
{
    let k = conversions(v);
    let ids1 = drawn.take(k);
    let agents1 = v.agents.map_values(|a: Agent| moved(a));
    let agents2 = agents1.map_values(|a: Agent| Agent { pos: confined(a.pos, v.width, v.height), ..a });
    let s2: Roster = (v.board, v.active, agents2);
    lemma_release_keeps_unique(roster_of(v), s2);
    let des3 = dedup_spec(clamped_designations(v));
    let kinds1 = active_mine_kinds(des3);
    let posted = if v.auto_jobs { jobs_of(ids1, kinds1) } else { Seq::empty() };
    let board4 = if v.auto_jobs { v.board + jobs_of(ids1, kinds1) } else { v.board };
    assert(board4 == v.board + posted);
    assert forall|i: int| 0 <= i < posted.len() implies (#[trigger] posted[i]).id == drawn[i] by {}
    lemma_post_fresh_keeps_unique(s2, posted);
    let s4: Roster = (board4, v.active, agents2);
    let s5a = assign_pass(s4, AgentClass::Miners);
    lemma_assign_keeps_unique(s4, AgentClass::Miners);
    let r5 = assign_pass(s5a, AgentClass::Carriers);
    lemma_assign_keeps_unique(s5a, AgentClass::Carriers);
    let m6 = mine_all((v.tiles, r5.1, r5.2, Seq::<(i32, i32)>::empty()), v.width, v.height, r5.2.len() as nat);
    lemma_mine_all_releases(r5.0, (v.tiles, r5.1, r5.2, Seq::<(i32, i32)>::empty()), v.width, v.height, r5.2.len() as nat);
    let s6: Roster = (r5.0, m6.1, m6.2);
    lemma_release_keeps_unique(r5, s6);
    let c = tick_core(v, ids1);
    let s7: Roster = (r5.0, c.active, c.agents);
    assert(c.board == r5.0);
    assert(releases(s6, s7));
    lemma_release_keeps_unique(s6, s7);
    let t = tick_spec(v, drawn);
    let posted2 = jobs_of(drawn.skip(k), fresh_haul_kinds(c.items, c.stockpiles));
    assert(t.board == s7.0 + posted2);
    assert forall|i: int| 0 <= i < posted2.len() implies !mentions(s7, (#[trigger] posted2[i]).id) by {
        let id = posted2[i].id;
        assert(id == drawn[k + i]);
        if mentions(s7, id) {
            assert(mentions(s4, id));
            if !mentions(s2, id) {
                let j = choose|j: int| 0 <= j < posted.len() && (#[trigger] posted[j]).id == id;
                assert(drawn[j] == drawn[k + i]);
            }
            assert(mentions(roster_of(v), id));
            assert(!mentions(roster_of(v), drawn[k + i]));
        }
    }
    assert forall|i: int, j: int| 0 <= i < j < posted2.len() implies (#[trigger] posted2[i]).id != (#[trigger] posted2[j]).id by {
        assert(posted2[i].id == drawn[k + i] && posted2[j].id == drawn[k + j]);
    }
    lemma_post_fresh_keeps_unique(s7, posted2);
    assert(roster_of(t) == (s7.0 + posted2, s7.1, s7.2));
}

/// The state after ticks that draw `draws[0]`, `draws[1]`, ... in turn.
pub open spec fn run_spec(v: WorldView, draws: Seq<Seq<JobId>>) -> WorldView
    decreases draws.len(),
{
    if draws.len() == 0 {
        v
    } else {
        tick_spec(run_spec(v, draws.drop_last()), draws.last())
    }
}

/// Two runs from the same state whose ticks draw the same ids end in the
/// same state: the same jobs and job ids, the same tiles, the same agents
/// at the same positions.
pub proof fn lemma_runs_agree(v: WorldView, w: WorldView, draws: Seq<Seq<JobId>>)
    requires
        v == w,
    ensures
        run_spec(v, draws) == run_spec(w, draws),
        run_spec(v, draws).board == run_spec(w, draws).board,
        run_spec(v, draws).tiles == run_spec(w, draws).tiles,
        run_spec(v, draws).agents == run_spec(w, draws).agents,
{
}

proof fn lemma_split_posted(s: Seq<Job>, k: int)
    requires
        0 <= k <= s.len(),
    ensures
        s == s.take(k) + jobs_of(job_ids(s.skip(k)), job_kinds(s.skip(k))),
{
    assert(s =~= s.take(k) + jobs_of(job_ids(s.skip(k)), job_kinds(s.skip(k))));
}

impl SimWorld {
    pub open spec fn view(&self) -> WorldView {
        WorldView {
            tiles: self.map.tiles@,
            width: self.map.width,
            height: self.map.height,
            board: self.board.0@,
            active: self.active.jobs@,
            queue: self.spawn_queue.requests@,
            auto_jobs: self.designation_config.auto_jobs,
            movement: self.movement_config,
            time: self.time,
            master_seed: self.rng.master_seed,
            agents: self.agents@,
            items: self.items@,
            designations: self.designations@,
            stockpiles: self.stockpiles@,
        }
    }

    /// The state a tick can run on: a consistent map of at least one cell
    /// whose sides fit in `i32`, moves that stay in `i32`, and a clock that
    /// can still count.
    pub open spec fn tickable(&self) -> bool {
        &&& self.map.wf()
        &&& 1 <= self.map.width <= i32::MAX
        &&& 1 <= self.map.height <= i32::MAX
        &&& forall|i: int| 0 <= i < self.agents@.len() ==> move_fits(#[trigger] self.agents@[i])
        &&& self.time.ticks < u64::MAX
    }
}

/// A world on `map` with the given streams: empty board, registry and
/// spawn queue, auto-conversion on, stepwise movement, clock at zero. With
/// the demo scene it also holds a miner and a carrier at (5, 5) and a
/// stockpile over (9..=11, 9..=11).
pub fn build_world(map: GameMap, rng: DeterministicRng, opts: WorldOptions) -> (r: SimWorld)
    ensures
        r.map == map,
        r.rng.master_seed == rng.master_seed,
        r.board.0@.len() == 0,
        r.active.jobs@ == Map::<u128, Job>::empty(),
        r.spawn_queue.requests@.len() == 0,
        r.designation_config.auto_jobs,
        r.movement_config == Some(MovementConfig { stepwise: true }),
        r.time == (Time { ticks: 0, tick_ms: opts.tick_ms }),
        r.items@.len() == 0,
        r.designations@.len() == 0,
        !opts.populate_demo_scene ==> r.agents@.len() == 0 && r.stockpiles@.len() == 0,
        opts.populate_demo_scene ==> r.agents@ == seq![
            Agent::at_rest(Position(5, 5), true, false),
            Agent::at_rest(Position(5, 5), false, true),
        ],
        opts.populate_demo_scene ==> r.stockpiles@.len() == 1
            && r.stockpiles@[0].bounds == (crate::components::ZoneBounds { min_x: 9, min_y: 9, max_x: 11, max_y: 11 })
            && r.stockpiles@[0].position == Position(10, 10),
{
    let mut agents: Vec<Agent> = Vec::new();
    let mut stockpiles: Vec<StockpileBundle> = Vec::new();
    if opts.populate_demo_scene {
        let mut miner = Agent::new(Position(5, 5), true, false);
        miner.vel = Some(crate::world::Velocity(0, 0));
        miner.vision = Some(crate::components::VisionRadius(8));
        let mut carrier = Agent::new(Position(5, 5), false, true);
        carrier.vel = Some(crate::world::Velocity(0, 0));
        carrier.vision = Some(crate::components::VisionRadius(8));
        agents.push(miner);
        agents.push(carrier);
        stockpiles.push(StockpileBundle::new(9, 9, 11, 11));
    }
    SimWorld {
        map,
        board: JobBoard::new(),
        active: ActiveJobs::new(),
        spawn_queue: ItemSpawnQueue::new(),
        designation_config: DesignationConfig { auto_jobs: true },
        movement_config: Some(MovementConfig::default_config()),
        time: Time::new(opts.tick_ms),
        rng,
        agents,
        items: Vec::new(),
        designations: Vec::new(),
        stockpiles,
    }
}

impl SimWorld {
    /// Whether a tick can run on the world now.
    pub fn is_tickable(&self) -> (r: bool)
        ensures
            r == self.tickable(),
    {
        assert(self.map.width as int * self.map.height as int <= 0xffff_ffffint * 0xffff_ffffint) by (nonlinear_arith)
            requires self.map.width <= 0xffff_ffffu32, self.map.height <= 0xffff_ffffu32;
        let cells: u128 = (self.map.width as u128) * (self.map.height as u128);
        if (self.map.tiles.len() as u128) != cells {
            return false;
        }
        if self.map.width < 1 || self.map.width > 0x7fff_ffff || self.map.height < 1 || self.map.height > 0x7fff_ffff {
            return false;
        }
        if self.time.ticks == u64::MAX {
            return false;
        }
        let mut i: usize = 0;
        while i < self.agents.len()
            invariant
                0 <= i <= self.agents@.len(),
                forall|k: int| 0 <= k < i ==> move_fits(#[trigger] self.agents@[k]),
            decreases self.agents@.len() - i,
        {
            match self.agents[i].vel {
                Some(v) => {
                    let x = self.agents[i].pos.0 as i64 + v.0 as i64;
                    let y = self.agents[i].pos.1 as i64 + v.1 as i64;
                    if x < -0x8000_0000 || x > 0x7fff_ffff || y < -0x8000_0000 || y > 0x7fff_ffff {
                        return false;
                    }
                },
                None => {},
            }
            i += 1;
        }
        true
    }
}

/// Runs up to `n` ticks, stopping early only when the world can no longer
/// tick; returns the ids each tick drew.
pub fn run_ticks(world: &mut SimWorld, n: u64) -> (draws: Vec<Vec<JobId>>)
    ensures
        draws@.len() <= n,
        draws@.len() < n ==> !final(world).tickable(),
        final(world).view() == run_spec(old(world).view(), draws@.map_values(|d: Vec<JobId>| d@)),
{
    let mut draws: Vec<Vec<JobId>> = Vec::new();
    let mut t: u64 = 0;
    while t < n
        invariant
            t <= n,
            draws@.len() == t,
            world.view() == run_spec(old(world).view(), draws@.map_values(|d: Vec<JobId>| d@)),
        decreases n - t,
    {
        if !world.is_tickable() {
            return draws;
        }
        let ghost before = draws@.map_values(|d: Vec<JobId>| d@);
        let d = run_default_schedule(world);
        draws.push(d);
        assert(draws@.map_values(|d: Vec<JobId>| d@).drop_last() =~= before);
        t += 1;
    }
    draws
}

fn posted_ids(board: &JobBoard, start: usize) -> (r: Vec<JobId>)
    requires
        start <= board.0@.len(),
    ensures
        r@ == job_ids(board.0@.skip(start as int)),
{
    let mut out: Vec<JobId> = Vec::new();
    let mut i: usize = start;
    while i < board.0.len()
        invariant
            start <= i <= board.0@.len(),
            out@ == job_ids(board.0@.subrange(start as int, i as int)),
        decreases board.0@.len() - i,
    {
        out.push(board.0[i].id);
        i += 1;
        assert(out@ =~= job_ids(board.0@.subrange(start as int, i as int)));
    }
    assert(board.0@.subrange(start as int, board.0@.len() as int) =~= board.0@.skip(start as int));
    out
}

/// Runs one tick of the default schedule on the world and returns the job
/// ids it drew, in order: first those of conversion, then those of auto-haul.
pub fn run_default_schedule(world: &mut SimWorld) -> (drawn: Vec<JobId>)
    requires
        old(world).tickable(),
    ensures
        final(world).view() == tick_spec(old(world).view(), drawn@),
        drawn@.len() == conversions(old(world).view()) + haul_draws(old(world).view(), drawn@),
{
    let ghost v0 = world.view();
    movement(&mut world.agents);
    confine_to_map(&world.map, &mut world.agents, &mut world.items, &mut world.designations, &mut world.stockpiles);
    designation_dedup_system(&mut world.designations);
    let len0 = world.board.0.len();
    let ghost b0 = world.board.0@;
    let ghost d3 = world.designations@;
    designation_to_jobs_system(&world.designation_config, &mut world.board, &mut world.rng, &mut world.designations);
    let mut drawn = posted_ids(&world.board, len0);
    proof {
        lemma_split_posted(world.board.0@, len0 as int);
    }
    let ghost ids1 = drawn@;
    assert(world.board.0@ == b0 + jobs_of(ids1, if v0.auto_jobs { active_mine_kinds(d3) } else { Seq::empty() }));
    let ghost agents2 = world.agents@;
    let ghost items2 = world.items@;
    assert(agents2 == v0.agents.map_values(|a: Agent| moved(a)).map_values(|a: Agent| Agent { pos: confined(a.pos, v0.width, v0.height), ..a }));
    job_assignment_system(&mut world.board, &mut world.active, &mut world.agents);
    let ghost r5: Roster = (world.board.0@, world.active.jobs@, world.agents@);
    mine_job_execution_system(&mut world.map, &mut world.spawn_queue, &mut world.active, &mut world.agents);
    let ghost m6 = (world.map.tiles@, world.active.jobs@, world.agents@);
    let ghost q6 = world.spawn_queue.requests@;
    hauling_execution_system(&mut world.active, world.movement_config, &mut world.agents, &mut world.items);
    process_item_spawn_queue_system(&mut world.spawn_queue, &mut world.items);
    let len1 = world.board.0.len();
    let ghost b1 = world.board.0@;
    let ghost items8 = world.items@;
    auto_haul_system(&mut world.board, &mut world.rng, &mut world.items, &world.stockpiles);
    let more = posted_ids(&world.board, len1);
    proof {
        lemma_split_posted(world.board.0@, len1 as int);
    }
    let ghost ids2 = more@;
    let mut j: usize = 0;
    while j < more.len()
        invariant
            0 <= j <= more@.len(),
            drawn@ == ids1 + more@.take(j as int),
        decreases more@.len() - j,
    {
        drawn.push(more[j]);
        j += 1;
        assert(drawn@ =~= ids1 + more@.take(j as int));
    }
    advance_time(&mut world.time);
    proof {
        assert(more@.take(more@.len() as int) == more@);
        assert(drawn@.take(conversions(v0)) =~= ids1);
        assert(drawn@.skip(conversions(v0)) =~= ids2);
        let t = tick_spec(v0, drawn@);
        assert(world.map.tiles@ == t.tiles);
        assert(world.active.jobs@ == t.active);
        assert(world.agents@ == t.agents);
        assert(world.items@ == t.items);
        assert(world.board.0@ == t.board);
        assert(world.designations@ == t.designations);
        assert(world.spawn_queue.requests@ =~= t.queue);
        assert(world.time == t.time);
        assert(world.map.width == t.width && world.map.height == t.height);
        assert(world.rng.master_seed == t.master_seed);
        assert(world.view() =~= tick_spec(v0, drawn@));
        assert(drawn@.take(conversions(v0)) == ids1);
    }
    drawn
}

impl Default for WorldOptions {
    fn default() -> (r: WorldOptions)
        ensures
            !r.populate_demo_scene,
            r.tick_ms == 100,
    {
        WorldOptions::default_options()
    }
}

} // verus!
