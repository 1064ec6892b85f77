//! Seeded entropy streams, the tick clock, and the per-tick systems.
use vstd::prelude::*;
use rand::rngs::StdRng;
use rand::SeedableRng;
use rand::Rng;
use crate::components::{Agent, AssignedJob, Entity, Inventory, ItemEntity};
use crate::jobs::{
    mine_job_execution_system, process_item_spawn_queue_system, spawned_item, stone_request, ItemSpawnQueue,
    ItemSpawnRequest, add_job, mine_all, ActiveJobs, Job, JobBoard, JobId, JobKind,
};
use crate::world::{GameMap, Position};
use crate::designations::{job_kinds, DesignationBundle};
use crate::stockpiles::{find_nearest_stockpile, nearest_spec, StockpileBundle};

verus! {

#[verifier::external_type_specification]
#[verifier::external_body]
pub struct ExStdRng(StdRng);

/// Relies on `rand::SeedableRng::seed_from_u64` for `StdRng`: a generator
/// whose whole output is fixed by the seed.
#[verifier::external_body]
fn seeded_stream(seed: u64) -> (r: StdRng) {
    StdRng::seed_from_u64(seed)
}

/// Relies on `rand::Rng::gen::<u32>` for `StdRng`: one value from the stream.
#[verifier::external_body]
fn draw_u32(rng: &mut StdRng) -> (r: u32) {
    rng.gen::<u32>()
}

/// Tick clock. `tick_ms` is nominal and only shown, never used for pacing.
#[derive(Debug, Clone, Copy, PartialEq, Eq, Structural)]
pub struct Time {
    pub ticks: u64,
    pub tick_ms: u64,
}

impl Time {
    /// A clock at tick zero.
    pub fn new(tick_ms: u64) -> (r: Time)
        ensures
            r.ticks == 0,
            r.tick_ms == tick_ms,
    {
        Time { ticks: 0, tick_ms }
    }
}

/// Mixing constant that spreads the master seed over the streams.
pub const STREAM_MIX: u64 = 0x9e3779b9;

/// Seed of stream `i` under master seed `seed`: `seed * K + i`, wrapping.
pub open spec fn stream_seed_spec(seed: u64, i: u64) -> int {
    (seed as int * STREAM_MIX as int + i as int) % 0x1_0000_0000_0000_0000
}

/// Seed of stream `i` under master seed `seed`: `seed * K + i`, wrapping.
pub fn stream_seed(seed: u64, i: u64) -> (r: u64)
    ensures
        r as int == stream_seed_spec(seed, i),
{
    assert(seed as int * STREAM_MIX as int <= 0xffff_ffff_ffff_ffffint * 0x9e3779b9int) by (nonlinear_arith)
        requires seed <= 0xffff_ffff_ffff_ffffu64, STREAM_MIX == 0x9e3779b9u64;
    let m: u128 = (seed as u128) * (STREAM_MIX as u128) + (i as u128);
    (m % 0x1_0000_0000_0000_0000u128) as u64
}

/// One master seed split into independent streams: drawing from one never
/// changes what another produces.
#[derive(Debug)]
pub struct DeterministicRng {
    pub master_seed: u64,
    /// Terrain generation; seeded with stream 0.
    pub mapgen_rng: StdRng,
    /// Job ids; seeded with stream 1.
    pub job_rng: StdRng,
    /// Combat; seeded with stream 2.
    pub combat_rng: StdRng,
    /// Path randomisation; seeded with stream 3.
    pub pathfinding_rng: StdRng,
}

impl DeterministicRng {
    /// The four streams of master seed `seed`.
    pub fn new(seed: u64) -> (r: DeterministicRng)
        ensures
            r.master_seed == seed,
    {
        DeterministicRng {
            master_seed: seed,
            mapgen_rng: seeded_stream(stream_seed(seed, 0)),
            job_rng: seeded_stream(stream_seed(seed, 1)),
            combat_rng: seeded_stream(stream_seed(seed, 2)),
            pathfinding_rng: seeded_stream(stream_seed(seed, 3)),
        }
    }
}

impl DeterministicRng {
    /// Draws the seed for terrain generation from the terrain stream; the
    /// other streams are left as they are.
    pub fn draw_mapgen_seed(&mut self) -> (r: u32)
        ensures
            final(self).master_seed == old(self).master_seed,
            final(self).job_rng == old(self).job_rng,
            final(self).combat_rng == old(self).combat_rng,
            final(self).pathfinding_rng == old(self).pathfinding_rng,
    {
        draw_u32(&mut self.mapgen_rng)
    }
}

/// Whether executors move agents one step per tick or straight to the target.
#[derive(Debug, Clone, Copy, PartialEq, Eq, Structural)]
pub struct MovementConfig {
    pub stepwise: bool,
}

impl MovementConfig {
    /// Stepwise movement, the default.
    pub fn default_config() -> (r: MovementConfig)
        ensures
            r.stepwise,
    {
        MovementConfig { stepwise: true }
    }
}

// ---------------------------------------------------------------------------
// Movement and time

pub open spec fn i32_fits(v: int) -> bool {
    i32::MIN <= v <= i32::MAX
}

/// Agent `a` moved by its velocity, if it has one.
pub open spec fn moved(a: Agent) -> Agent {
    match a.vel {
        Some(v) => Agent { pos: Position((a.pos.0 + v.0) as i32, (a.pos.1 + v.1) as i32), ..a },
        None => a,
    }
}

/// Moving agent `a` stays within `i32`.
pub open spec fn move_fits(a: Agent) -> bool {
    a.vel matches Some(v) ==> i32_fits(a.pos.0 + v.0) && i32_fits(a.pos.1 + v.1)
}

/// Adds each agent's velocity to its position.
pub fn movement(agents: &mut Vec<Agent>)
    requires
        forall|i: int| 0 <= i < old(agents)@.len() ==> move_fits(#[trigger] old(agents)@[i]),
    ensures
        final(agents)@ == old(agents)@.map_values(|a: Agent| moved(a)),
{
    let n = agents.len();
    let mut i: usize = 0;
    while i < n
        invariant
            0 <= i <= n,
            n == agents@.len(),
            n == old(agents)@.len(),
            forall|k: int| 0 <= k < n ==> move_fits(#[trigger] old(agents)@[k]),
            forall|k: int| 0 <= k < i ==> agents@[k] == moved(old(agents)@[k]),
            forall|k: int| i <= k < n ==> agents@[k] == old(agents)@[k],
        decreases n - i,
    {
        let a = agents[i];
        match a.vel {
            Some(v) => {
                assert(move_fits(old(agents)@[i as int]));
                let mut na = a;
                na.pos = Position(a.pos.0 + v.0, a.pos.1 + v.1);
                agents.set(i, na);
            },
            None => {},
        }
        i += 1;
    }
    assert(agents@ =~= old(agents)@.map_values(|a: Agent| moved(a)));
}

/// `v` clamped to `lo..=hi`.
pub open spec fn clamp_spec(v: int, lo: int, hi: int) -> int {
    if v < lo {
        lo
    } else if v > hi {
        hi
    } else {
        v
    }
}

/// `p` clamped onto a `w` by `h` map.
pub open spec fn confined(p: Position, w: u32, h: u32) -> Position {
    Position(clamp_spec(p.0 as int, 0, w - 1) as i32, clamp_spec(p.1 as int, 0, h - 1) as i32)
}

fn confine(p: Position, w: i32, h: i32) -> (r: Position)
    requires
        w >= 1,
        h >= 1,
    ensures
        r == confined(p, w as u32, h as u32),
{
    let x = if p.0 < 0 { 0 } else if p.0 > w - 1 { w - 1 } else { p.0 };
    let y = if p.1 < 0 { 0 } else if p.1 > h - 1 { h - 1 } else { p.1 };
    Position(x, y)
}

/// Clamps every agent, item, designation and stockpile centre onto the map.
pub fn confine_to_map(
    map: &GameMap,
    agents: &mut Vec<Agent>,
    items: &mut Vec<ItemEntity>,
    designations: &mut Vec<DesignationBundle>,
    stockpiles: &mut Vec<StockpileBundle>,
)
    requires
        1 <= map.width <= i32::MAX,
        1 <= map.height <= i32::MAX,
    ensures
        final(agents)@ == old(agents)@.map_values(|a: Agent| Agent { pos: confined(a.pos, map.width, map.height), ..a }),
        final(items)@ == old(items)@.map_values(|e: ItemEntity| ItemEntity { pos: confined(e.pos, map.width, map.height), ..e }),
        final(designations)@ == old(designations)@.map_values(
            |d: DesignationBundle| DesignationBundle { pos: confined(d.pos, map.width, map.height), ..d },
        ),
        final(stockpiles)@ == old(stockpiles)@.map_values(
            |p: StockpileBundle| StockpileBundle { position: confined(p.position, map.width, map.height), ..p },
        ),
{
    let w = map.width as i32;
    let h = map.height as i32;
    let n = agents.len();
    let mut i: usize = 0;
    while i < n
        invariant
            0 <= i <= n,
            n == agents@.len(),
            n == old(agents)@.len(),
            w as u32 == map.width && h as u32 == map.height && w >= 1 && h >= 1,
            forall|k: int| 0 <= k < i ==> agents@[k] == (Agent { pos: confined(old(agents)@[k].pos, map.width, map.height), ..old(agents)@[k] }),
            forall|k: int| i <= k < n ==> agents@[k] == old(agents)@[k],
        decreases n - i,
    {
        let mut a = agents[i];
        a.pos = confine(a.pos, w, h);
        agents.set(i, a);
        i += 1;
    }
    let m = items.len();
    let mut j: usize = 0;
    while j < m
        invariant
            0 <= j <= m,
            m == items@.len(),
            m == old(items)@.len(),
            w as u32 == map.width && h as u32 == map.height && w >= 1 && h >= 1,
            forall|k: int| 0 <= k < j ==> items@[k] == (ItemEntity { pos: confined(old(items)@[k].pos, map.width, map.height), ..old(items)@[k] }),
            forall|k: int| j <= k < m ==> items@[k] == old(items)@[k],
        decreases m - j,
    {
        let mut e = items[j];
        e.pos = confine(e.pos, w, h);
        items.set(j, e);
        j += 1;
    }
    let nd = designations.len();
    let mut j: usize = 0;
    while j < nd
        invariant
            0 <= j <= nd,
            nd == designations@.len(),
            nd == old(designations)@.len(),
            w as u32 == map.width && h as u32 == map.height && w >= 1 && h >= 1,
            forall|k: int| 0 <= k < j ==> designations@[k] == (DesignationBundle { pos: confined(old(designations)@[k].pos, map.width, map.height), ..old(designations)@[k] }),
            forall|k: int| j <= k < nd ==> designations@[k] == old(designations)@[k],
        decreases nd - j,
    {
        let mut d = designations[j];
        d.pos = confine(d.pos, w, h);
        designations.set(j, d);
        j += 1;
    }
    let ns = stockpiles.len();
    let mut j: usize = 0;
    while j < ns
        invariant
            0 <= j <= ns,
            ns == stockpiles@.len(),
            ns == old(stockpiles)@.len(),
            w as u32 == map.width && h as u32 == map.height && w >= 1 && h >= 1,
            forall|k: int| 0 <= k < j ==> stockpiles@[k] == (StockpileBundle { position: confined(old(stockpiles)@[k].position, map.width, map.height), ..old(stockpiles)@[k] }),
            forall|k: int| j <= k < ns ==> stockpiles@[k] == old(stockpiles)@[k],
        decreases ns - j,
    {
        let ghost before = stockpiles@;
        let mut p = stockpiles.remove(j);
        p.position = confine(p.position, w, h);
        stockpiles.insert(j, p);
        assert(stockpiles@ =~= before.update(j as int, p));
        j += 1;
    }
    assert(agents@ =~= old(agents)@.map_values(|a: Agent| Agent { pos: confined(a.pos, map.width, map.height), ..a }));
    assert(items@ =~= old(items)@.map_values(|e: ItemEntity| ItemEntity { pos: confined(e.pos, map.width, map.height), ..e }));
    assert(designations@ =~= old(designations)@.map_values(
        |d: DesignationBundle| DesignationBundle { pos: confined(d.pos, map.width, map.height), ..d },
    ));
    assert(stockpiles@ =~= old(stockpiles)@.map_values(
        |p: StockpileBundle| StockpileBundle { position: confined(p.position, map.width, map.height), ..p },
    ));
}

/// Counts one more tick.
pub fn advance_time(time: &mut Time)
    requires
        old(time).ticks < u64::MAX,
    ensures
        *final(time) == (Time { ticks: (old(time).ticks + 1) as u64, ..*old(time) }),
{
    time.ticks = time.ticks + 1;
}

/// Mining executor followed at once by materialisation: each mined wall
/// queues its stone request (as `mine_job_execution_system` does) and the
/// queue is then turned into item entities, so every stone still comes from
/// a spawn request.
pub fn mining_execution_system(
    map: &mut GameMap,
    spawn_queue: &mut ItemSpawnQueue,
    active: &mut ActiveJobs,
    agents: &mut Vec<Agent>,
    items: &mut Vec<ItemEntity>,
)
    requires
        old(map).wf(),
    ensures
        final(map).wf(),
        final(map).width == old(map).width,
        final(map).height == old(map).height,
        final(spawn_queue).requests@.len() == 0,
        ({
            let run = mine_all(
                (old(map).tiles@, old(active).jobs@, old(agents)@, Seq::<(i32, i32)>::empty()),
                old(map).width,
                old(map).height,
                old(agents)@.len() as nat,
            );
            &&& final(map).tiles@ == run.0
            &&& final(active).jobs@ == run.1
            &&& final(agents)@ == run.2
            &&& final(items)@ == old(items)@ + (old(spawn_queue).requests@ + run.3.map_values(|c: (i32, i32)| stone_request(c)))
                .map_values(|r: ItemSpawnRequest| spawned_item(r))
        }),
{
    mine_job_execution_system(map, spawn_queue, active, agents);
    process_item_spawn_queue_system(spawn_queue, items);
}


// ---------------------------------------------------------------------------
// Hauling

pub open spec fn sign(v: int) -> int {
    if v > 0 {
        1
    } else if v < 0 {
        -1
    } else {
        0
    }
}

/// One Manhattan step from `p` toward `t`, horizontal first; `p` itself when
/// it is already there.
pub open spec fn step_spec(p: Position, t: Position) -> Position {
    if p.0 != t.0 {
        Position((p.0 + sign(t.0 - p.0)) as i32, p.1)
    } else if p.1 != t.1 {
        Position(p.0, (p.1 + sign(t.1 - p.1)) as i32)
    } else {
        p
    }
}

/// One Manhattan step from `(x, y)` toward `(tx, ty)`, horizontal first.
pub fn step_toward(x: i32, y: i32, tx: i32, ty: i32) -> (r: (i32, i32))
    ensures
        Position(r.0, r.1) == step_spec(Position(x, y), Position(tx, ty)),
{
    if x != tx {
        if x < tx { (x + 1, y) } else { (x - 1, y) }
    } else if y != ty {
        if y < ty { (x, y + 1) } else { (x, y - 1) }
    } else {
        (x, y)
    }
}

pub open spec fn pos_of(c: (i32, i32)) -> Position {
    Position(c.0, c.1)
}

/// What a carrier intends this tick: where it goes, and whether it drops.
#[derive(Debug, Clone, Copy, PartialEq, Eq, Structural)]
pub struct HaulPlan {
    pub job: JobId,
    /// Cell the carrier ends the tick on.
    pub target: Position,
    pub from: Position,
    pub to: Position,
    /// The job ends this tick and the carrier's hands end empty.
    pub dropping: bool,
    /// Single-tick haul: whatever lies at `from` goes straight to `to`.
    pub immediate: bool,
    /// The item already in hand.
    pub carried: Option<Entity>,
    /// The job is missing from the registry: the carrier is freed and
    /// nothing else happens.
    pub cancel: bool,
}

/// The plan of a carrier holding a job: a hauling job that the registry
/// knows gives a move; a job missing from the registry gives a cancel.
pub open spec fn haul_plan(a: Agent, active: Map<u128, Job>, stepwise: bool) -> Option<HaulPlan> {
    if !a.carrier {
        None
    } else {
        match a.job.0 {
            None => None,
            Some(id) => if !active.contains_key(id.0) {
                Some(HaulPlan { job: id, target: a.pos, from: a.pos, to: a.pos, dropping: false, immediate: false, carried: a.inventory.0, cancel: true })
            } else {
                match active[id.0].kind {
                    JobKind::Mine { .. } => None,
                    JobKind::Haul { from, to } => {
                        let f = pos_of(from);
                        let t = pos_of(to);
                        Some(match a.inventory.0 {
                            Some(item) => {
                                let target = if stepwise { step_spec(a.pos, t) } else { t };
                                HaulPlan { job: id, target, from: f, to: t, dropping: !stepwise || target == t, immediate: false, carried: Some(item), cancel: false }
                            },
                            None => if a.pos == f {
                                HaulPlan { job: id, target: f, from: f, to: t, dropping: false, immediate: false, carried: None, cancel: false }
                            } else if stepwise {
                                HaulPlan { job: id, target: step_spec(a.pos, f), from: f, to: t, dropping: false, immediate: false, carried: None, cancel: false }
                            } else {
                                HaulPlan { job: id, target: t, from: f, to: t, dropping: true, immediate: true, carried: None, cancel: false }
                            },
                        })
                    },
                }
            },
        }
    }
}

/// Item `e` is carriable, lies on `cell`, and nobody matched it yet.
pub open spec fn is_free_at(items: Seq<ItemEntity>, cell: Position, taken: Seq<Option<usize>>, e: int) -> bool {
    &&& 0 <= e < items.len()
    &&& items[e].carriable
    &&& items[e].pos == cell
    &&& !taken.contains(Some(e as usize))
}

pub open spec fn is_first_free(items: Seq<ItemEntity>, cell: Position, taken: Seq<Option<usize>>, e: int) -> bool {
    &&& is_free_at(items, cell, taken, e)
    &&& forall|k: int| 0 <= k < e ==> !#[trigger] is_free_at(items, cell, taken, k)
}

/// The first free item on `cell`.
pub open spec fn first_free(items: Seq<ItemEntity>, cell: Position, taken: Seq<Option<usize>>) -> Option<usize> {
    if exists|e: int| is_first_free(items, cell, taken, e) {
        Some((choose|e: int| is_first_free(items, cell, taken, e)) as usize)
    } else {
        None
    }
}

/// The item a plan matches: for a pickup, the first free item on its
/// target; for a single-tick haul, the first free item on `from`.
pub open spec fn pick_for(items: Seq<ItemEntity>, plan: Option<HaulPlan>, taken: Seq<Option<usize>>) -> Option<usize> {
    match plan {
        None => None,
        Some(pl) => if pl.cancel {
            None
        } else if !pl.dropping && pl.carried is None {
            first_free(items, pl.target, taken)
        } else if pl.immediate {
            first_free(items, pl.from, taken)
        } else {
            None
        },
    }
}

/// The items in the agents' hands, by agent.
pub open spec fn held_items(agents: Seq<Agent>) -> Seq<Option<usize>> {
    agents.map_values(|a: Agent| match a.inventory.0 {
        Some(e) => Some(e.0),
        None => None,
    })
}

/// Matches of plans `0..n`, each excluding the items already held by an
/// agent (`held`) and the items matched before it.
pub open spec fn pick_seq(items: Seq<ItemEntity>, held: Seq<Option<usize>>, plans: Seq<Option<HaulPlan>>, n: nat) -> Seq<Option<usize>>
    decreases n,
{
    if n == 0 {
        Seq::empty()
    } else {
        let p = pick_seq(items, held, plans, (n - 1) as nat);
        p.push(pick_for(items, plans[n - 1], held + p))
    }
}

/// Agent `a` after carrying out its plan.
pub open spec fn hauled_agent(a: Agent, plan: Option<HaulPlan>, pick: Option<usize>) -> Agent {
    match plan {
        None => a,
        Some(pl) => if pl.cancel {
            Agent { job: AssignedJob(None), ..a }
        } else if pl.immediate {
            match pick {
                Some(_) => Agent { pos: pl.target, job: AssignedJob(None), inventory: Inventory(None), ..a },
                None => a,
            }
        } else if pl.dropping {
            Agent { pos: pl.target, job: AssignedJob(None), inventory: Inventory(None), ..a }
        } else {
            match pick {
                Some(e) => Agent { pos: pl.target, inventory: Inventory(Some(Entity(e))), ..a },
                None => Agent { pos: pl.target, ..a },
            }
        },
    }
}

/// The carried item, moved to `to` by a drop.
pub open spec fn drop_move(plan: Option<HaulPlan>) -> Option<(usize, Position)> {
    match plan {
        Some(pl) => if pl.dropping && pl.carried is Some {
            Some((pl.carried.unwrap().0, pl.to))
        } else {
            None
        },
        None => None,
    }
}

/// The item matched by a single-tick haul, moved to the target.
pub open spec fn immediate_move(plan: Option<HaulPlan>, pick: Option<usize>) -> Option<(usize, Position)> {
    match plan {
        Some(pl) => if pl.immediate && pick is Some {
            Some((pick.unwrap(), pl.target))
        } else {
            None
        },
        None => None,
    }
}

/// Items after the moves, applied in order (a missing item is skipped).
pub open spec fn apply_moves(items: Seq<ItemEntity>, moves: Seq<Option<(usize, Position)>>) -> Seq<ItemEntity>
    decreases moves.len(),
{
    if moves.len() == 0 {
        items
    } else {
        let prev = apply_moves(items, moves.drop_last());
        match moves.last() {
            Some((e, p)) => if e < prev.len() {
                prev.update(e as int, ItemEntity { pos: p, ..prev[e as int] })
            } else {
                prev
            },
            None => prev,
        }
    }
}

/// The plan finishes its job this tick.
pub open spec fn completes(plan: Option<HaulPlan>, pick: Option<usize>) -> bool {
    match plan {
        Some(pl) => (pl.dropping && pl.carried is Some) || (pl.immediate && pick is Some),
        None => false,
    }
}

/// Ids of the jobs that plans `0..n` finish.
pub open spec fn completed_ids(plans: Seq<Option<HaulPlan>>, picks: Seq<Option<usize>>, n: int) -> Set<u128> {
    Set::new(|id: u128| exists|i: int| 0 <= i < n && #[trigger] completes(plans[i], picks[i]) && plans[i].unwrap().job.0 == id)
}

pub open spec fn stepwise_of(config: Option<MovementConfig>) -> bool {
    config matches Some(c) && c.stepwise
}

fn plan_for(a: &Agent, active: &ActiveJobs, stepwise: bool) -> (r: Option<HaulPlan>)
    ensures
        r == haul_plan(*a, active.jobs@, stepwise),
{
    if !a.carrier {
        return None;
    }
    let id = match a.job.0 {
        None => { return None; },
        Some(id) => id,
    };
    let kind = match active.jobs.get(&id.0) {
        None => {
            return Some(HaulPlan { job: id, target: a.pos, from: a.pos, to: a.pos, dropping: false, immediate: false, carried: a.inventory.0, cancel: true });
        },
        Some(job) => job.kind,
    };
    match kind {
        JobKind::Mine { .. } => None,
        JobKind::Haul { from, to } => {
            let f = Position(from.0, from.1);
            let t = Position(to.0, to.1);
            match a.inventory.0 {
                Some(item) => {
                    let target = if stepwise {
                        let s = step_toward(a.pos.0, a.pos.1, t.0, t.1);
                        Position(s.0, s.1)
                    } else {
                        t
                    };
                    Some(HaulPlan { job: id, target, from: f, to: t, dropping: !stepwise || target == t, immediate: false, carried: Some(item), cancel: false })
                },
                None => if a.pos == f {
                    Some(HaulPlan { job: id, target: f, from: f, to: t, dropping: false, immediate: false, carried: None, cancel: false })
                } else if stepwise {
                    let s = step_toward(a.pos.0, a.pos.1, f.0, f.1);
                    Some(HaulPlan { job: id, target: Position(s.0, s.1), from: f, to: t, dropping: false, immediate: false, carried: None, cancel: false })
                } else {
                    Some(HaulPlan { job: id, target: t, from: f, to: t, dropping: true, immediate: true, carried: None, cancel: false })
                },
            }
        },
    }
}

fn is_taken(taken: &Vec<Option<usize>>, e: usize) -> (r: bool)
    ensures
        r == taken@.contains(Some(e)),
{
    let mut k: usize = 0;
    while k < taken.len()
        invariant
            0 <= k <= taken@.len(),
            forall|j: int| 0 <= j < k ==> taken@[j] != Some(e),
        decreases taken@.len() - k,
    {
        match taken[k] {
            Some(t) => if t == e {
                assert(taken@[k as int] == Some(e));
                return true;
            },
            None => {},
        }
        k += 1;
    }
    false
}

fn first_free_item(items: &Vec<ItemEntity>, cell: Position, taken: &Vec<Option<usize>>) -> (r: Option<usize>)
    ensures
        r == first_free(items@, cell, taken@),
{
    let mut e: usize = 0;
    while e < items.len()
        invariant
            0 <= e <= items@.len(),
            forall|k: int| 0 <= k < e ==> !#[trigger] is_free_at(items@, cell, taken@, k),
        decreases items@.len() - e,
    {
        if items[e].carriable && items[e].pos == cell && !is_taken(taken, e) {
            proof {
                let c = choose|k: int| is_first_free(items@, cell, taken@, k);
                assert(is_first_free(items@, cell, taken@, e as int));
                if c < e {
                    assert(!is_free_at(items@, cell, taken@, c));
                } else if c > e {
                    assert(!is_free_at(items@, cell, taken@, e as int));
                }
            }
            return Some(e);
        }
        e += 1;
    }
    assert(!exists|k: int| is_first_free(items@, cell, taken@, k));
    None
}

/// Hauling executor, in three phases. Plan: each carrier with a hauling job
/// picks a target cell; with an item in hand it heads to `to` and drops on
/// arrival, empty-handed it heads to `from`, staying put when already there.
/// Moves are one step per tick when `stepwise`, straight to the target
/// otherwise; without the stepwise setting an empty-handed carrier away from
/// `from` delivers in a single tick when an item lies at `from`, and waits
/// (keeping its job) when none does. A carrier whose job is missing from the
/// registry is freed and does nothing else. Match: each empty-handed carrier
/// takes the first free carriable item on its target cell, each single-tick
/// haul the first free one on `from`; an item in anyone's hands is never
/// free, and no item is matched twice. Apply: carriers move, drop (ending
/// the job) or pick up; then dropped and single-tick items move to their
/// destinations; then finished jobs leave the registry.
pub fn hauling_execution_system(
    active: &mut ActiveJobs,
    config: Option<MovementConfig>,
    agents: &mut Vec<Agent>,
    items: &mut Vec<ItemEntity>,
)
    ensures
        ({
            let n = old(agents)@.len();
            let plans = old(agents)@.map_values(|a: Agent| haul_plan(a, old(active).jobs@, stepwise_of(config)));
            let picks = pick_seq(old(items)@, held_items(old(agents)@), plans, n);
            &&& final(agents)@ == Seq::new(n, |i: int| hauled_agent(old(agents)@[i], plans[i], picks[i]))
            &&& final(items)@ == apply_moves(
                apply_moves(old(items)@, Seq::new(n, |i: int| drop_move(plans[i]))),
                Seq::new(n, |i: int| immediate_move(plans[i], picks[i])),
            )
            &&& final(active).jobs@ == old(active).jobs@.remove_keys(completed_ids(plans, picks, n as int))
        }),
{
    let stepwise = match config {
        Some(c) => c.stepwise,
        None => false,
    };
    let n = agents.len();
    let ghost plans_s = agents@.map_values(|a: Agent| haul_plan(a, active.jobs@, stepwise));
    // Plan.
    let mut plans: Vec<Option<HaulPlan>> = Vec::new();
    let mut i: usize = 0;
    while i < n
        invariant
            0 <= i <= n,
            n == agents@.len(),
            agents@ == old(agents)@,
            active.jobs@ == old(active).jobs@,
            stepwise == stepwise_of(config),
            plans_s == old(agents)@.map_values(|a: Agent| haul_plan(a, old(active).jobs@, stepwise_of(config))),
            plans@ == plans_s.take(i as int),
        decreases n - i,
    {
        let p = plan_for(&agents[i], active, stepwise);
        plans.push(p);
        i += 1;
        assert(plans@ =~= plans_s.take(i as int));
    }
    assert(plans@ =~= plans_s);
    // Match: items in anyone's hands are never free.
    let ghost held = held_items(agents@);
    let mut taken: Vec<Option<usize>> = Vec::new();
    let mut i: usize = 0;
    while i < n
        invariant
            0 <= i <= n,
            n == agents@.len(),
            held == held_items(agents@),
            taken@ == held.take(i as int),
        decreases n - i,
    {
        let h = match agents[i].inventory.0 {
            Some(e) => Some(e.0),
            None => None,
        };
        taken.push(h);
        i += 1;
        assert(taken@ =~= held.take(i as int));
    }
    assert(taken@ =~= held);
    let ghost picks_s = pick_seq(items@, held, plans_s, n as nat);
    let mut picks: Vec<Option<usize>> = Vec::new();
    let mut i: usize = 0;
    while i < n
        invariant
            0 <= i <= n,
            plans@ == plans_s,
            plans_s.len() == n,
            items@ == old(items)@,
            picks@ == pick_seq(items@, held, plans_s, i as nat),
            taken@ == held + picks@,
        decreases n - i,
    {
        let pick = match plans[i] {
            None => None,
            Some(pl) => if pl.cancel {
                None
            } else if !pl.dropping && pl.carried.is_none() {
                first_free_item(items, pl.target, &taken)
            } else if pl.immediate {
                first_free_item(items, pl.from, &taken)
            } else {
                None
            },
        };
        picks.push(pick);
        taken.push(pick);
        i += 1;
        assert(taken@ =~= held + picks@);
    }
    proof {
        lemma_pick_seq_len(items@, held, plans_s, n as nat);
    }
    // Apply to carriers.
    let mut i: usize = 0;
    while i < n
        invariant
            0 <= i <= n,
            n == agents@.len(),
            n == old(agents)@.len(),
            plans@ == plans_s,
            plans_s.len() == n,
            picks@ == picks_s,
            picks_s.len() == n,
            forall|k: int| 0 <= k < i ==> agents@[k] == hauled_agent(old(agents)@[k], plans_s[k], picks_s[k]),
            forall|k: int| i <= k < n ==> agents@[k] == old(agents)@[k],
        decreases n - i,
    {
        match plans[i] {
            None => {},
            Some(pl) => {
                let mut a = agents[i];
                if pl.cancel {
                    a.job = AssignedJob(None);
                } else if pl.immediate {
                    if picks[i].is_some() {
                        a.pos = pl.target;
                        a.inventory = Inventory(None);
                        a.job = AssignedJob(None);
                    }
                } else if pl.dropping {
                    a.pos = pl.target;
                    a.inventory = Inventory(None);
                    a.job = AssignedJob(None);
                } else {
                    a.pos = pl.target;
                    match picks[i] {
                        Some(e) => { a.inventory = Inventory(Some(Entity(e))); },
                        None => {},
                    }
                }
                agents.set(i, a);
            },
        }
        i += 1;
    }
    assert(agents@ =~= Seq::new(n as nat, |k: int| hauled_agent(old(agents)@[k], plans_s[k], picks_s[k])));
    // Apply to items: drops first, then single-tick hauls.
    let ghost drops = Seq::new(n as nat, |k: int| drop_move(plans_s[k]));
    let ghost imms = Seq::new(n as nat, |k: int| immediate_move(plans_s[k], picks_s[k]));
    let mut i: usize = 0;
    while i < n
        invariant
            0 <= i <= n,
            plans@ == plans_s,
            plans_s.len() == n,
            drops == Seq::new(n as nat, |k: int| drop_move(plans_s[k])),
            items@ == apply_moves(old(items)@, drops.take(i as int)),
        decreases n - i,
    {
        assert(drops.take(i + 1).drop_last() == drops.take(i as int));
        match plans[i] {
            Some(pl) => if pl.dropping {
                match pl.carried {
                    Some(e) => if e.0 < items.len() {
                        let mut it = items[e.0];
                        it.pos = pl.to;
                        items.set(e.0, it);
                    },
                    None => {},
                }
            },
            None => {},
        }
        i += 1;
    }
    assert(drops.take(n as int) == drops);
    let ghost after_drops = items@;
    let mut i: usize = 0;
    while i < n
        invariant
            0 <= i <= n,
            plans@ == plans_s,
            picks@ == picks_s,
            plans_s.len() == n,
            picks_s.len() == n,
            imms == Seq::new(n as nat, |k: int| immediate_move(plans_s[k], picks_s[k])),
            items@ == apply_moves(after_drops, imms.take(i as int)),
        decreases n - i,
    {
        assert(imms.take(i + 1).drop_last() == imms.take(i as int));
        match plans[i] {
            Some(pl) => if pl.immediate {
                match picks[i] {
                    Some(e) => if e < items.len() {
                        let mut it = items[e];
                        it.pos = pl.target;
                        items.set(e, it);
                    },
                    None => {},
                }
            },
            None => {},
        }
        i += 1;
    }
    assert(imms.take(n as int) == imms);
    // Finished jobs leave the registry.
    let mut i: usize = 0;
    while i < n
        invariant
            0 <= i <= n,
            plans@ == plans_s,
            picks@ == picks_s,
            plans_s.len() == n,
            picks_s.len() == n,
            active.jobs@ == old(active).jobs@.remove_keys(completed_ids(plans_s, picks_s, i as int)),
        decreases n - i,
    {
        let ghost before = active.jobs@;
        match plans[i] {
            Some(pl) => {
                let done = (pl.dropping && pl.carried.is_some()) || (pl.immediate && picks[i].is_some());
                if done {
                    active.jobs.remove(&pl.job.0);
                    assert(completes(plans_s[i as int], picks_s[i as int]));
                    assert(plans_s[i as int].unwrap().job.0 == pl.job.0);
                    assert(completed_ids(plans_s, picks_s, i + 1).contains(pl.job.0));
                    assert(completed_ids(plans_s, picks_s, i + 1) =~= completed_ids(plans_s, picks_s, i as int).insert(pl.job.0));
                    assert(active.jobs@ =~= old(active).jobs@.remove_keys(completed_ids(plans_s, picks_s, i + 1)));
                } else {
                    assert(completed_ids(plans_s, picks_s, i + 1) =~= completed_ids(plans_s, picks_s, i as int));
                }
            },
            None => {
                assert(completed_ids(plans_s, picks_s, i + 1) =~= completed_ids(plans_s, picks_s, i as int));
            },
        }
        i += 1;
    }
}

pub open spec fn manhattan(p: Position, t: Position) -> int {
    (if p.0 >= t.0 { p.0 - t.0 } else { t.0 - p.0 }) + (if p.1 >= t.1 { p.1 - t.1 } else { t.1 - p.1 })
}

/// Each step brings a carrier one cell closer to its target, so a carrier
/// that is `d` cells away arrives after `d` stepwise ticks.
pub proof fn lemma_step_closer(p: Position, t: Position)
    requires
        p != t,
    ensures
        manhattan(step_spec(p, t), t) == manhattan(p, t) - 1,
{
}

/// A carrier with the item in hand that is at most one step from `to` (or
/// moves directly) arrives there, drops the item at `to`, and finishes its
/// job; one standing on `from` with empty hands stays and looks for the item
/// there.
pub proof fn lemma_haul_ends(a: Agent, active: Map<u128, Job>, stepwise: bool, from: (i32, i32), to: (i32, i32))
    requires
        a.carrier,
        a.job.0 matches Some(id) && active.contains_key(id.0) && active[id.0].kind == (JobKind::Haul { from, to }),
    ensures
        a.inventory.0 is Some && (!stepwise || manhattan(a.pos, pos_of(to)) <= 1) ==> ({
            let plan = haul_plan(a, active, stepwise);
            &&& hauled_agent(a, plan, None).pos == pos_of(to)
            &&& hauled_agent(a, plan, None).inventory.0 is None
            &&& hauled_agent(a, plan, None).job.0 is None
            &&& drop_move(plan) == Some((a.inventory.0.unwrap().0, pos_of(to)))
            &&& completes(plan, None)
        }),
        a.inventory.0 is None && a.pos == pos_of(from) ==> ({
            let plan = haul_plan(a, active, stepwise);
            &&& plan matches Some(pl) && pl.target == pos_of(from) && !pl.dropping
        }),
{
}

/// In one hauling pass a carrier's hands change at most once: an empty hand
/// may take an item, a full hand may only keep it or drop it.
pub proof fn lemma_one_hand_change(a: Agent, active: Map<u128, Job>, stepwise: bool, items: Seq<ItemEntity>, taken: Seq<Option<usize>>)
    ensures
        ({
            let plan = haul_plan(a, active, stepwise);
            let after = hauled_agent(a, plan, pick_for(items, plan, taken));
            a.inventory.0 is Some ==> after.inventory.0 == a.inventory.0 || after.inventory.0 is None
        }),
{
}

/// Within one tick no item is matched by two carriers, and no item that an
/// agent already holds is matched at all.
pub proof fn lemma_picks_distinct(items: Seq<ItemEntity>, held: Seq<Option<usize>>, plans: Seq<Option<HaulPlan>>, n: nat)
    ensures
        forall|i: int, j: int| 0 <= i < j < n && (#[trigger] pick_seq(items, held, plans, n)[i]) is Some
            ==> pick_seq(items, held, plans, n)[i] != #[trigger] pick_seq(items, held, plans, n)[j],
        forall|i: int| 0 <= i < n && (#[trigger] pick_seq(items, held, plans, n)[i]) is Some
            ==> !held.contains(pick_seq(items, held, plans, n)[i]),
    decreases n,
{
    lemma_pick_seq_len(items, held, plans, n);
    if n > 0 {
        let p = pick_seq(items, held, plans, (n - 1) as nat);
        lemma_picks_distinct(items, held, plans, (n - 1) as nat);
        lemma_pick_seq_len(items, held, plans, (n - 1) as nat);
        let q = pick_seq(items, held, plans, n);
        let t = held + p;
        let last = pick_for(items, plans[n - 1], t);
        assert(q == p.push(last));
        if last is Some {
            let e = last.unwrap();
            let pl = plans[n - 1].unwrap();
            let cell = if !pl.dropping && pl.carried is None { pl.target } else { pl.from };
            assert(last == first_free(items, cell, t));
            let c = choose|k: int| is_first_free(items, cell, t, k);
            assert(is_free_at(items, cell, t, c));
            assert forall|i: int| 0 <= i < n - 1 implies p[i] != Some(e) by {
                if p[i] == Some(e) {
                    assert(t[held.len() + i] == Some(e));
                    assert(t.contains(Some(c as usize)));
                }
            }
            assert(!held.contains(Some(e))) by {
                if held.contains(Some(e)) {
                    let w = choose|w: int| 0 <= w < held.len() && held[w] == Some(e);
                    assert(t[w] == Some(e));
                }
            }
        }
        assert forall|i: int, j: int| 0 <= i < j < n && (#[trigger] q[i]) is Some implies q[i] != #[trigger] q[j] by {
            if j < n - 1 {
                assert(q[i] == p[i] && q[j] == p[j]);
            } else {
                assert(q[i] == p[i]);
            }
        }
        assert forall|i: int| 0 <= i < n && (#[trigger] q[i]) is Some implies !held.contains(q[i]) by {
            if i < n - 1 {
                assert(q[i] == p[i]);
            }
        }
    }
}

proof fn lemma_moves_skip(items: Seq<ItemEntity>, moves: Seq<Option<(usize, Position)>>, e: int)
    requires
        0 <= e < items.len(),
        forall|k: int| 0 <= k < moves.len() ==> !((#[trigger] moves[k]) matches Some(m) && m.0 == e),
    ensures
        apply_moves(items, moves).len() == items.len(),
        apply_moves(items, moves)[e] == items[e],
    decreases moves.len(),
{
    if moves.len() > 0 {
        let prefix = moves.drop_last();
        assert forall|k: int| 0 <= k < prefix.len() implies !((#[trigger] prefix[k]) matches Some(m) && m.0 == e) by {
            assert(prefix[k] == moves[k]);
        }
        lemma_moves_skip(items, prefix, e);
        assert(!(moves[moves.len() - 1] matches Some(m) && m.0 == e));
    }
}

/// A carrier that picks an item up ends the tick on the item's cell, and the
/// item stays there: nothing else moves it in the same tick.
pub proof fn lemma_pickup_lands(items: Seq<ItemEntity>, agents: Seq<Agent>, active: Map<u128, Job>, stepwise: bool, k: int)
    requires
        0 <= k < agents.len(),
        items.len() <= usize::MAX,
    ensures
        ({
            let n = agents.len();
            let plans = agents.map_values(|a: Agent| haul_plan(a, active, stepwise));
            let picks = pick_seq(items, held_items(agents), plans, n);
            let moved_items = apply_moves(
                apply_moves(items, Seq::new(n, |i: int| drop_move(plans[i]))),
                Seq::new(n, |i: int| immediate_move(plans[i], picks[i])),
            );
            (plans[k] matches Some(pl) && !pl.cancel && !pl.immediate && !pl.dropping && picks[k] is Some) ==> {
                &&& hauled_agent(agents[k], plans[k], picks[k]).inventory.0 == Some(Entity(picks[k].unwrap()))
                &&& moved_items[picks[k].unwrap() as int].pos == hauled_agent(agents[k], plans[k], picks[k]).pos
            }
        }),
{
    let n = agents.len();
    let plans = agents.map_values(|a: Agent| haul_plan(a, active, stepwise));
    let held = held_items(agents);
    let picks = pick_seq(items, held, plans, n);
    lemma_pick_seq_len(items, held, plans, n);
    if plans[k] matches Some(pl0) && !pl0.cancel && !pl0.immediate && !pl0.dropping && picks[k] is Some {
        let pl = plans[k].unwrap();
        let e = picks[k].unwrap();
        lemma_picks_distinct(items, held, plans, n);
        // picks[k] is the first free item on the target cell.
        let p = pick_seq(items, held, plans, k as nat);
        lemma_pick_seq_prefix(items, held, plans, k as nat, n);
        assert(picks[k] == pick_for(items, plans[k], held + p));
        assert(pl.carried is None) by {
            if pl.carried is Some {
                assert(pick_for(items, plans[k], held + p) is None);
            }
        }
        let c = choose|x: int| is_first_free(items, pl.target, held + p, x);
        assert(is_free_at(items, pl.target, held + p, c));
        let drops = Seq::new(n, |i: int| drop_move(plans[i]));
        let imms = Seq::new(n, |i: int| immediate_move(plans[i], picks[i]));
        assert forall|i: int| 0 <= i < drops.len() implies !((#[trigger] drops[i]) matches Some(m) && m.0 == e) by {
            if drops[i] matches Some(m) && m.0 == e {
                assert(agents[i].inventory.0 == Some(Entity(e)));
                assert(held[i] == Some(e));
                assert(held.contains(Some(e)));
            }
        }
        lemma_moves_skip(items, drops, e as int);
        let after = apply_moves(items, drops);
        assert forall|i: int| 0 <= i < imms.len() implies !((#[trigger] imms[i]) matches Some(m) && m.0 == e) by {
            if imms[i] matches Some(m) && m.0 == e {
                assert(i != k);
                if i < k {
                    assert(picks[i] != picks[k]);
                } else {
                    assert(picks[k] != picks[i]);
                }
            }
        }
        lemma_moves_skip(after, imms, e as int);
        assert(e == c as usize && e as int == c);
        assert(items[e as int].pos == pl.target);
        assert(apply_moves(after, imms)[e as int].pos == pl.target);
        assert(hauled_agent(agents[k], plans[k], picks[k]).pos == pl.target);
    }
}

proof fn lemma_pick_seq_prefix(items: Seq<ItemEntity>, held: Seq<Option<usize>>, plans: Seq<Option<HaulPlan>>, k: nat, n: nat)
    requires
        k < n,
    ensures
        pick_seq(items, held, plans, n)[k as int] == pick_for(items, plans[k as int], held + pick_seq(items, held, plans, k)),
    decreases n,
{
    lemma_pick_seq_len(items, held, plans, (n - 1) as nat);
    if k < n - 1 {
        lemma_pick_seq_prefix(items, held, plans, k, (n - 1) as nat);
    }
}

proof fn lemma_pick_seq_len(items: Seq<ItemEntity>, held: Seq<Option<usize>>, plans: Seq<Option<HaulPlan>>, n: nat)
    ensures
        pick_seq(items, held, plans, n).len() == n,
    decreases n,
{
    if n > 0 {
        lemma_pick_seq_len(items, held, plans, (n - 1) as nat);
    }
}

// ---------------------------------------------------------------------------
// Auto-haul

/// The hauling job kinds a fresh item asks for: one to the nearest stockpile,
/// none when there is no stockpile or the item is not fresh.
pub open spec fn haul_kinds_for(e: ItemEntity, s: Seq<StockpileBundle>) -> Seq<JobKind> {
    if e.fresh {
        match nearest_spec(s, e.pos.0 as int, e.pos.1 as int) {
            Some(k) => seq![JobKind::Haul { from: (e.pos.0, e.pos.1), to: (s[k].position.0, s[k].position.1) }],
            None => Seq::empty(),
        }
    } else {
        Seq::empty()
    }
}

/// Hauling job kinds for the fresh items, in order.
pub open spec fn fresh_haul_kinds(items: Seq<ItemEntity>, s: Seq<StockpileBundle>) -> Seq<JobKind>
    decreases items.len(),
{
    if items.len() == 0 {
        Seq::empty()
    } else {
        fresh_haul_kinds(items.drop_last(), s) + haul_kinds_for(items.last(), s)
    }
}

pub open spec fn settled(e: ItemEntity) -> ItemEntity {
    ItemEntity { fresh: false, ..e }
}

/// For each item created since the last run, in order, posts a hauling job
/// from the item to the centre of the nearest stockpile (none when there is
/// no stockpile); every item is then no longer fresh, so none is considered
/// twice.
pub fn auto_haul_system(
    board: &mut JobBoard,
    rng: &mut DeterministicRng,
    items: &mut Vec<ItemEntity>,
    stockpiles: &Vec<StockpileBundle>,
)
    ensures
        final(rng).master_seed == old(rng).master_seed,
        fresh_haul_kinds(old(items)@, stockpiles@).len() == 0 ==> *final(rng) == *old(rng),
        final(items)@ == old(items)@.map_values(|e: ItemEntity| settled(e)),
        final(board).0@.len() == old(board).0@.len() + fresh_haul_kinds(old(items)@, stockpiles@).len(),
        final(board).0@.take(old(board).0@.len() as int) == old(board).0@,
        job_kinds(final(board).0@.skip(old(board).0@.len() as int)) == fresh_haul_kinds(old(items)@, stockpiles@),
{
    let ghost b0 = board.0@;
    let ghost i0 = items@;
    let n = items.len();
    let mut i: usize = 0;
    while i < n
        invariant
            0 <= i <= n,
            n == items@.len(),
            n == i0.len(),
            rng.master_seed == old(rng).master_seed,
            fresh_haul_kinds(i0.take(i as int), stockpiles@).len() == 0 ==> *rng == *old(rng),
            forall|k: int| 0 <= k < i ==> items@[k] == settled(i0[k]),
            forall|k: int| i <= k < n ==> items@[k] == i0[k],
            board.0@.len() == b0.len() + fresh_haul_kinds(i0.take(i as int), stockpiles@).len(),
            board.0@.take(b0.len() as int) == b0,
            job_kinds(board.0@.skip(b0.len() as int)) == fresh_haul_kinds(i0.take(i as int), stockpiles@),
        decreases n - i,
    {
        let e = items[i];
        let ghost before = board.0@;
        assert(i0.take(i + 1).drop_last() == i0.take(i as int));
        if e.fresh {
            match find_nearest_stockpile(stockpiles, e.pos.0, e.pos.1) {
                Some((k, _)) => {
                    let to = stockpiles[k].position;
                    add_job(board, JobKind::Haul { from: (e.pos.0, e.pos.1), to: (to.0, to.1) }, &mut rng.job_rng);
                    assert(board.0@.skip(b0.len() as int) == before.skip(b0.len() as int).push(board.0@.last()));
                    assert(board.0@.take(b0.len() as int) == before.take(b0.len() as int));
                },
                None => {},
            }
        }
        let mut ne = e;
        ne.fresh = false;
        items.set(i, ne);
        i += 1;
        assert(job_kinds(board.0@.skip(b0.len() as int)) =~= fresh_haul_kinds(i0.take(i as int), stockpiles@));
    }
    assert(i0.take(n as int) == i0);
    assert(items@ =~= i0.map_values(|e: ItemEntity| settled(e)));
}

impl Default for MovementConfig {
    /// Stepwise movement.
    fn default() -> (r: MovementConfig)
        ensures
            r.stepwise,
    {
        MovementConfig::default_config()
    }
}

} // verus!
