//! Jobs, the job board, the active job registry and the spawn queue.
use vstd::prelude::*;
use rand::rngs::StdRng;
use rand::Rng;
use std::collections::HashMap;
use crate::components::{Agent, AssignedJob, ItemEntity, ItemType};
use crate::world::{GameMap, Position, TileKind};

verus! {

broadcast use vstd::std_specs::hash::group_hash_axioms;

/// Identifier of a job: the 128-bit value of a UUID drawn from the job stream.
#[derive(Debug, Clone, Copy, PartialEq, Eq, Hash, Structural)]
pub struct JobId(pub u128);

/// What a job asks for.
#[derive(Debug, Clone, Copy, PartialEq, Eq)]
pub enum JobKind {
    /// Turn the wall at `(x, y)` into floor.
    Mine { x: i32, y: i32 },
    /// Carry an item from `from` to `to`.
    Haul { from: (i32, i32), to: (i32, i32) },
}

/// A unit of work. Jobs are never changed, only created and deleted.
#[derive(Debug, Clone, Copy)]
pub struct Job {
    pub id: JobId,
    pub kind: JobKind,
}

/// Unassigned jobs, in the order they were posted.
#[derive(Debug)]
pub struct JobBoard(pub Vec<Job>);

/// Request to create an item at the fixed materialisation point of a tick.
#[derive(Debug, Clone, Copy)]
pub struct ItemSpawnRequest {
    pub item_type: ItemType,
    pub position: (i32, i32),
}

/// Pending item creations, first in, first out.
#[derive(Debug)]
pub struct ItemSpawnQueue {
    pub requests: Vec<ItemSpawnRequest>,
}

/// Jobs claimed by an agent, keyed by the value of their id.
#[derive(Debug)]
pub struct ActiveJobs {
    pub jobs: HashMap<u128, Job>,
}

/// Big-endian value of a byte sequence.
pub open spec fn be_value(b: Seq<u8>) -> nat
    decreases b.len(),
{
    if b.len() == 0 {
        0
    } else {
        be_value(b.drop_last()) * 256 + b.last() as nat
    }
}

/// Relies on `rand::Rng::fill` for `StdRng`: fills sixteen bytes from the stream.
#[verifier::external_body]
fn fill_id_bytes(rng: &mut StdRng) -> (r: [u8; 16]) {
    let mut bytes = [0u8; 16];
    rng.fill(&mut bytes);
    bytes
}

/// Relies on `uuid::Uuid::from_bytes` and `Uuid::as_u128`: the bytes read as a
/// big-endian integer.
#[verifier::external_body]
fn uuid_value(bytes: [u8; 16]) -> (r: u128)
    ensures
        r as nat == be_value(bytes@),
{
    uuid::Uuid::from_bytes(bytes).as_u128()
}

impl JobId {
    /// The id of the UUID made of these sixteen bytes.
    pub fn from_bytes(bytes: [u8; 16]) -> (r: JobId)
        ensures
            r.0 as nat == be_value(bytes@),
    {
        JobId(uuid_value(bytes))
    }
}

impl JobBoard {
    /// An empty board.
    pub fn new() -> (r: JobBoard)
        ensures
            r.0@.len() == 0,
    {
        JobBoard(Vec::new())
    }
}

impl ItemSpawnQueue {
    /// An empty queue.
    pub fn new() -> (r: ItemSpawnQueue)
        ensures
            r.requests@.len() == 0,
    {
        ItemSpawnQueue { requests: Vec::new() }
    }
}

impl ActiveJobs {
    /// An empty registry.
    pub fn new() -> (r: ActiveJobs)
        ensures
            r.jobs@ == Map::<u128, Job>::empty(),
    {
        ActiveJobs { jobs: HashMap::new() }
    }
}

/// Appends a job with the given id to the board.
pub fn post_job(board: &mut JobBoard, kind: JobKind, id: JobId)
    ensures
        final(board).0@ == old(board).0@.push(Job { id, kind }),
{
    board.0.push(Job { id, kind });
}

/// Draws a fresh id from the job stream and posts a job of `kind` under it.
pub fn add_job(board: &mut JobBoard, kind: JobKind, rng: &mut StdRng) -> (r: JobId)
    ensures
        final(board).0@ == old(board).0@.push(Job { id: r, kind }),
{
    let id = JobId::from_bytes(fill_id_bytes(rng));
    post_job(board, kind, id);
    id
}

/// Removes and returns the most recently posted job.
pub fn take_next_job(board: &mut JobBoard) -> (r: Option<Job>)
    ensures
        old(board).0@.len() == 0 ==> r.is_none() && final(board).0@ == old(board).0@,
        old(board).0@.len() > 0 ==> r == Some(old(board).0@.last()) && final(board).0@ == old(board).0@.drop_last(),
{
    board.0.pop()
}

// ---------------------------------------------------------------------------
// Assignment

/// Whether a job is of the kind that miners (`mine`) or carriers (`!mine`) take.
pub open spec fn job_fits(j: Job, mine: bool) -> bool {
    (j.kind is Mine) == mine
}

/// `i` is the first job on the board that fits.
pub open spec fn is_first_fit(board: Seq<Job>, mine: bool, i: int) -> bool {
    &&& 0 <= i < board.len()
    &&& job_fits(board[i], mine)
    &&& forall|k: int| 0 <= k < i ==> !job_fits(#[trigger] board[k], mine)
}

/// Index of the first job on the board that fits, if any.
pub open spec fn first_fit(board: Seq<Job>, mine: bool) -> Option<int> {
    if exists|i: int| is_first_fit(board, mine, i) {
        Some(choose|i: int| is_first_fit(board, mine, i))
    } else {
        None
    }
}

/// Which agents an assignment pass considers.
#[derive(Debug, Clone, Copy, PartialEq, Eq, Structural)]
pub enum AgentClass {
    /// Agents tagged as miners (whatever else they can do).
    Miners,
    /// Agents tagged as carriers (whatever else they can do).
    Carriers,
}

pub open spec fn in_class(a: Agent, c: AgentClass) -> bool {
    match c {
        AgentClass::Miners => a.miner,
        AgentClass::Carriers => a.carrier,
    }
}

/// Whether the class takes mining jobs (else hauling jobs).
pub open spec fn class_mines(c: AgentClass) -> bool {
    c == AgentClass::Miners
}

/// `i` is the first idle agent of the class.
pub open spec fn is_first_idle(agents: Seq<Agent>, c: AgentClass, i: int) -> bool {
    &&& 0 <= i < agents.len()
    &&& in_class(agents[i], c) && agents[i].job.0.is_none()
    &&& forall|k: int| 0 <= k < i ==> !(in_class(#[trigger] agents[k], c) && agents[k].job.0.is_none())
}

/// Index of the first idle agent of the class, if any.
pub open spec fn first_idle(agents: Seq<Agent>, c: AgentClass) -> Option<int> {
    if exists|i: int| is_first_idle(agents, c, i) {
        Some(choose|i: int| is_first_idle(agents, c, i))
    } else {
        None
    }
}

/// Board, active registry and agents, as one value.
pub type Roster = (Seq<Job>, Map<u128, Job>, Seq<Agent>);

/// Agent `a` holding job `id`.
pub open spec fn with_job(a: Agent, id: JobId) -> Agent {
    Agent { job: AssignedJob(Some(id)), ..a }
}

/// Moves board job `j` to the registry and gives it to agent `a`.
pub open spec fn hand_over(s: Roster, a: int, j: int) -> Roster {
    let job = s.0[j];
    (s.0.remove(j), s.1.insert(job.id.0, job), s.2.update(a, with_job(s.2[a], job.id)))
}

/// One pass of a class: its first idle agent takes the first fitting job.
pub open spec fn assign_pass(s: Roster, c: AgentClass) -> Roster {
    match (first_idle(s.2, c), first_fit(s.0, class_mines(c))) {
        (Some(a), Some(j)) => hand_over(s, a, j),
        _ => s,
    }
}

/// Agent `a`, if idle and of the class, takes the first fitting job.
pub open spec fn offer_to(s: Roster, a: int, c: AgentClass) -> Roster {
    if in_class(s.2[a], c) && s.2[a].job.0.is_none() {
        match first_fit(s.0, class_mines(c)) {
            Some(j) => hand_over(s, a, j),
            None => s,
        }
    } else {
        s
    }
}

/// Agents `0..n` offered a job in order.
pub open spec fn offer_all(s: Roster, c: AgentClass, n: nat) -> Roster
    decreases n,
{
    if n == 0 {
        s
    } else {
        offer_to(offer_all(s, c, (n - 1) as nat), n - 1, c)
    }
}

pub open spec fn roster(board: &JobBoard, active: &ActiveJobs, agents: &Vec<Agent>) -> Roster {
    (board.0@, active.jobs@, agents@)
}

proof fn lemma_first_fit(board: Seq<Job>, mine: bool, i: int)
    requires
        is_first_fit(board, mine, i),
    ensures
        first_fit(board, mine) == Some(i),
{
    let c = choose|k: int| is_first_fit(board, mine, k);
    assert(is_first_fit(board, mine, c));
    if c < i {
        assert(!job_fits(board[c], mine));
    } else if c > i {
        assert(!job_fits(board[i], mine));
    }
}

proof fn lemma_first_idle(agents: Seq<Agent>, c: AgentClass, i: int)
    requires
        is_first_idle(agents, c, i),
    ensures
        first_idle(agents, c) == Some(i),
{
    let k = choose|k: int| is_first_idle(agents, c, k);
    assert(is_first_idle(agents, c, k));
    if k < i {
        assert(!(in_class(agents[k], c) && agents[k].job.0.is_none()));
    } else if k > i {
        assert(!(in_class(agents[i], c) && agents[i].job.0.is_none()));
    }
}

fn agent_in_class(a: &Agent, c: AgentClass) -> (r: bool)
    ensures
        r == in_class(*a, c),
{
    match c {
        AgentClass::Miners => a.miner,
        AgentClass::Carriers => a.carrier,
    }
}

/// Index of the first job on the board that fits.
pub fn find_fitting_job(board: &JobBoard, mine: bool) -> (r: Option<usize>)
    ensures
        r matches Some(i) ==> first_fit(board.0@, mine) == Some(i as int),
        r is None ==> first_fit(board.0@, mine) is None,
{
    let mut i: usize = 0;
    while i < board.0.len()
        invariant
            0 <= i <= board.0@.len(),
            forall|k: int| 0 <= k < i ==> !job_fits(#[trigger] board.0@[k], mine),
        decreases board.0@.len() - i,
    {
        let fits = match board.0[i].kind {
            JobKind::Mine { .. } => mine,
            JobKind::Haul { .. } => !mine,
        };
        if fits {
            proof {
                lemma_first_fit(board.0@, mine, i as int);
            }
            return Some(i);
        }
        i += 1;
    }
    assert(!exists|i: int| is_first_fit(board.0@, mine, i));
    None
}

/// Moves board job `j` to the registry and hands it to agent `a`.
fn hand_over_job(board: &mut JobBoard, active: &mut ActiveJobs, agents: &mut Vec<Agent>, a: usize, j: usize)
    requires
        a < old(agents)@.len(),
        j < old(board).0@.len(),
    ensures
        roster(final(board), final(active), final(agents)) == hand_over(roster(old(board), old(active), old(agents)), a as int, j as int),
{
    let job = board.0.remove(j);
    active.jobs.insert(job.id.0, job);
    let mut agent = agents[a];
    agent.job = AssignedJob(Some(job.id));
    agents.set(a, agent);
}

/// Gives the first fitting job to the first idle agent of the class.
fn assign_first(board: &mut JobBoard, active: &mut ActiveJobs, agents: &mut Vec<Agent>, c: AgentClass)
    ensures
        roster(final(board), final(active), final(agents)) == assign_pass(roster(old(board), old(active), old(agents)), c),
{
    let mut i: usize = 0;
    while i < agents.len()
        invariant
            0 <= i <= agents@.len(),
            forall|k: int| 0 <= k < i ==> !(in_class(#[trigger] agents@[k], c) && agents@[k].job.0.is_none()),
            roster(board, active, agents) == roster(old(board), old(active), old(agents)),
        decreases agents@.len() - i,
    {
        if agent_in_class(&agents[i], c) && agents[i].job.0.is_none() {
            proof {
                lemma_first_idle(agents@, c, i as int);
            }
            let mines = match c {
                AgentClass::Miners => true,
                AgentClass::Carriers => false,
            };
            match find_fitting_job(board, mines) {
                Some(j) => hand_over_job(board, active, agents, i, j),
                None => {},
            }
            return;
        }
        i += 1;
    }
    assert(!exists|k: int| is_first_idle(agents@, c, k));
}

/// Hands out at most one mining job (to the first idle miner) and then at
/// most one hauling job (to the first idle carrier), each the first fitting
/// job on the board. An agent with both tags takes whichever comes first and
/// never two jobs.
pub fn job_assignment_system(board: &mut JobBoard, active: &mut ActiveJobs, agents: &mut Vec<Agent>)
    ensures
        roster(final(board), final(active), final(agents)) == assign_pass(
            assign_pass(roster(old(board), old(active), old(agents)), AgentClass::Miners),
            AgentClass::Carriers,
        ),
{
    assign_first(board, active, agents, AgentClass::Miners);
    assign_first(board, active, agents, AgentClass::Carriers);
}

/// Every idle miner, in order, takes the first mining job left on the board.
pub fn mining_job_assignment_system(board: &mut JobBoard, active: &mut ActiveJobs, agents: &mut Vec<Agent>)
    ensures
        roster(final(board), final(active), final(agents)) == offer_all(
            roster(old(board), old(active), old(agents)),
            AgentClass::Miners,
            old(agents)@.len(),
        ),
{
    let ghost s0 = roster(board, active, agents);
    let mut i: usize = 0;
    while i < agents.len()
        invariant
            0 <= i <= agents@.len(),
            agents@.len() == s0.2.len(),
            roster(board, active, agents) == offer_all(s0, AgentClass::Miners, i as nat),
        decreases agents@.len() - i,
    {
        if agents[i].miner && agents[i].job.0.is_none() {
            match find_fitting_job(board, true) {
                Some(j) => hand_over_job(board, active, agents, i, j),
                None => {},
            }
        }
        i += 1;
    }
}

/// Whether `id` occurs anywhere: on the board, in the registry, or held by
/// an agent.
pub open spec fn mentions(s: Roster, id: JobId) -> bool {
    ||| exists|i: int| 0 <= i < s.0.len() && (#[trigger] s.0[i]).id == id
    ||| s.1.contains_key(id.0)
    ||| exists|a: int| 0 <= a < s.2.len() && (#[trigger] s.2[a]).job.0 == Some(id)
}

/// Ids on the board are distinct, no board job is also in the registry or
/// held by an agent, and no two agents hold the same job.
pub open spec fn jobs_unique(s: Roster) -> bool {
    &&& forall|i: int, j: int| 0 <= i < j < s.0.len() ==> (#[trigger] s.0[i]).id != (#[trigger] s.0[j]).id
    &&& forall|i: int| 0 <= i < s.0.len() ==> !s.1.contains_key((#[trigger] s.0[i]).id.0)
    &&& forall|i: int, a: int| 0 <= i < s.0.len() && 0 <= a < s.2.len() ==> (#[trigger] s.2[a]).job.0 != Some((#[trigger] s.0[i]).id)
    &&& forall|a: int, b: int| 0 <= a < b < s.2.len() && (#[trigger] s.2[a]).job.0 is Some ==> s.2[a].job.0 != (#[trigger] s.2[b]).job.0
}

/// `t` only frees agents and drops registry entries of `s`.
pub open spec fn releases(s: Roster, t: Roster) -> bool {
    &&& t.0 == s.0
    &&& forall|k: u128| #[trigger] t.1.contains_key(k) ==> s.1.contains_key(k)
    &&& t.2.len() == s.2.len()
    &&& forall|a: int| 0 <= a < t.2.len() ==> (#[trigger] t.2[a]).job.0 == s.2[a].job.0 || t.2[a].job.0 is None
}

/// Freeing agents and dropping registry entries keeps job ids unique and
/// brings no new id in.
pub proof fn lemma_release_keeps_unique(s: Roster, t: Roster)
    requires
        jobs_unique(s),
        releases(s, t),
    ensures
        jobs_unique(t),
        forall|id: JobId| #[trigger] mentions(t, id) ==> mentions(s, id),
{
    assert forall|id: JobId| #[trigger] mentions(t, id) implies mentions(s, id) by {
        if exists|a: int| 0 <= a < t.2.len() && (#[trigger] t.2[a]).job.0 == Some(id) {
            let a = choose|a: int| 0 <= a < t.2.len() && (#[trigger] t.2[a]).job.0 == Some(id);
            assert(s.2[a].job.0 == Some(id));
        }
        if exists|i: int| 0 <= i < t.0.len() && (#[trigger] t.0[i]).id == id {
            let i = choose|i: int| 0 <= i < t.0.len() && (#[trigger] t.0[i]).id == id;
            assert(s.0[i].id == id);
        }
    }
    assert forall|a: int, b: int| 0 <= a < b < t.2.len() && (#[trigger] t.2[a]).job.0 is Some
        implies t.2[a].job.0 != (#[trigger] t.2[b]).job.0 by {
        assert(s.2[a].job.0 == t.2[a].job.0);
    }
    assert forall|i: int, a: int| 0 <= i < t.0.len() && 0 <= a < t.2.len()
        implies (#[trigger] t.2[a]).job.0 != Some((#[trigger] t.0[i]).id) by {
        assert(s.2[a].job.0 != Some(s.0[i].id));
    }
}

/// An assignment pass hands no job to two agents, keeps every job on the
/// board or in the registry but never both, and brings no new id in.
pub proof fn lemma_assign_keeps_unique(s: Roster, c: AgentClass)
    requires
        jobs_unique(s),
    ensures
        jobs_unique(assign_pass(s, c)),
        forall|id: JobId| #[trigger] mentions(assign_pass(s, c), id) ==> mentions(s, id),
{
    match (first_idle(s.2, c), first_fit(s.0, class_mines(c))) {
        (Some(a), Some(j)) => {
            assert(is_first_idle(s.2, c, a));
            assert(is_first_fit(s.0, class_mines(c), j));
            lemma_hand_over_keeps_unique(s, a, j);
        },
        _ => {},
    }
}

proof fn lemma_hand_over_keeps_unique(s: Roster, a: int, j: int)
    requires
        jobs_unique(s),
        0 <= a < s.2.len(),
        0 <= j < s.0.len(),
        s.2[a].job.0 is None,
    ensures
        jobs_unique(hand_over(s, a, j)),
        forall|id: JobId| #[trigger] mentions(hand_over(s, a, j), id) ==> mentions(s, id),
{
    let t = hand_over(s, a, j);
    let job = s.0[j];
    assert forall|i: int| 0 <= i < t.0.len() implies (#[trigger] t.0[i]) == s.0[if i < j { i } else { i + 1 }] by {}
    assert forall|i: int, k: int| 0 <= i < k < t.0.len() implies (#[trigger] t.0[i]).id != (#[trigger] t.0[k]).id by {
        let si = if i < j { i } else { i + 1 };
        let sk = if k < j { k } else { k + 1 };
        assert(t.0[i] == s.0[si] && t.0[k] == s.0[sk] && si < sk);
    }
    assert forall|i: int| 0 <= i < t.0.len() implies !t.1.contains_key((#[trigger] t.0[i]).id.0) by {
        let si = if i < j { i } else { i + 1 };
        assert(t.0[i] == s.0[si]);
        assert(s.0[si].id != s.0[j].id) by {
            if si < j {
            } else {
                assert(j < si);
            }
        }
    }
    assert forall|i: int, b: int| 0 <= i < t.0.len() && 0 <= b < t.2.len()
        implies (#[trigger] t.2[b]).job.0 != Some((#[trigger] t.0[i]).id) by {
        let si = if i < j { i } else { i + 1 };
        assert(t.0[i] == s.0[si]);
        if b == a {
            assert(s.0[si].id != s.0[j].id) by {
                if si < j {
                } else {
                    assert(j < si);
                }
            }
        } else {
            assert(s.2[b].job.0 != Some(s.0[si].id));
        }
    }
    assert forall|x: int, y: int| 0 <= x < y < t.2.len() && (#[trigger] t.2[x]).job.0 is Some
        implies t.2[x].job.0 != (#[trigger] t.2[y]).job.0 by {
        if x == a {
            assert(s.2[y].job.0 != Some(s.0[j].id));
        } else if y == a {
            assert(s.2[x].job.0 != Some(s.0[j].id));
        }
    }
    assert forall|id: JobId| #[trigger] mentions(t, id) implies mentions(s, id) by {
        if t.1.contains_key(id.0) && !s.1.contains_key(id.0) {
            assert(id.0 == job.id.0);
            assert(s.0[j].id == id);
        }
        if exists|b: int| 0 <= b < t.2.len() && (#[trigger] t.2[b]).job.0 == Some(id) {
            let b = choose|b: int| 0 <= b < t.2.len() && (#[trigger] t.2[b]).job.0 == Some(id);
            if b == a {
                assert(s.0[j].id == id);
            } else {
                assert(s.2[b].job.0 == Some(id));
            }
        }
        if exists|i: int| 0 <= i < t.0.len() && (#[trigger] t.0[i]).id == id {
            let i = choose|i: int| 0 <= i < t.0.len() && (#[trigger] t.0[i]).id == id;
            let si = if i < j { i } else { i + 1 };
            assert(s.0[si].id == id);
        }
    }
}

/// Posting jobs whose ids are distinct and occur nowhere yet keeps job ids
/// unique; the ids that occur afterwards are the old ones and the new ones.
pub proof fn lemma_post_fresh_keeps_unique(s: Roster, jobs: Seq<Job>)
    requires
        jobs_unique(s),
        forall|i: int, j: int| 0 <= i < j < jobs.len() ==> (#[trigger] jobs[i]).id != (#[trigger] jobs[j]).id,
        forall|i: int| 0 <= i < jobs.len() ==> !mentions(s, (#[trigger] jobs[i]).id),
    ensures
        jobs_unique((s.0 + jobs, s.1, s.2)),
        forall|id: JobId| #[trigger] mentions((s.0 + jobs, s.1, s.2), id) ==>
            mentions(s, id) || exists|i: int| 0 <= i < jobs.len() && (#[trigger] jobs[i]).id == id,
{
    let t = (s.0 + jobs, s.1, s.2);
    let n = s.0.len();
    assert forall|i: int, k: int| 0 <= i < k < t.0.len() implies (#[trigger] t.0[i]).id != (#[trigger] t.0[k]).id by {
        if k >= n && i < n {
            assert(t.0[k] == jobs[k - n]);
            assert(!mentions(s, jobs[k - n].id));
            assert(s.0[i] == t.0[i]);
        } else if i >= n {
            assert(t.0[k] == jobs[k - n] && t.0[i] == jobs[i - n]);
        }
    }
    assert forall|i: int| 0 <= i < t.0.len() implies !t.1.contains_key((#[trigger] t.0[i]).id.0) by {
        if i >= n {
            assert(t.0[i] == jobs[i - n]);
            assert(!mentions(s, jobs[i - n].id));
        } else {
            assert(t.0[i] == s.0[i]);
        }
    }
    assert forall|i: int, b: int| 0 <= i < t.0.len() && 0 <= b < t.2.len()
        implies (#[trigger] t.2[b]).job.0 != Some((#[trigger] t.0[i]).id) by {
        if i >= n {
            assert(t.0[i] == jobs[i - n]);
            assert(!mentions(s, jobs[i - n].id));
        } else {
            assert(t.0[i] == s.0[i]);
        }
    }
    assert forall|id: JobId| #[trigger] mentions(t, id) implies
        mentions(s, id) || exists|i: int| 0 <= i < jobs.len() && (#[trigger] jobs[i]).id == id by {
        if exists|i: int| 0 <= i < t.0.len() && (#[trigger] t.0[i]).id == id {
            let i = choose|i: int| 0 <= i < t.0.len() && (#[trigger] t.0[i]).id == id;
            if i < n {
                assert(s.0[i].id == id);
            } else {
                assert(jobs[i - n].id == id);
            }
        }
    }
}

// ---------------------------------------------------------------------------
// Mining

/// What one miner's turn does.
#[derive(Debug, Clone, Copy, PartialEq, Eq, Structural)]
pub enum MineOutcome {
    /// Nothing changes (idle, not a miner, out of reach, or no wall).
    Wait,
    /// The claimed job is missing from the registry: the assignment is cleared.
    Desync,
    /// The wall at this cell became floor and the job completed.
    Mined(i32, i32),
}

/// Tile of `(x, y)` in a row-major grid.
pub open spec fn grid_tile(tiles: Seq<TileKind>, w: u32, h: u32, x: int, y: int) -> Option<TileKind> {
    if crate::world::on_grid(w, h, x, y) {
        Some(tiles[y * w + x])
    } else {
        None
    }
}

/// `p` is within one step of `(x, y)` in both axes.
pub open spec fn adjacent(p: Position, x: int, y: int) -> bool {
    -1 <= p.0 - x <= 1 && -1 <= p.1 - y <= 1
}

/// The outcome of agent `a`'s mining turn.
pub open spec fn mine_outcome(tiles: Seq<TileKind>, w: u32, h: u32, active: Map<u128, Job>, a: Agent) -> MineOutcome {
    if !a.miner {
        MineOutcome::Wait
    } else {
        match a.job.0 {
            None => MineOutcome::Wait,
            Some(id) => if !active.contains_key(id.0) {
                MineOutcome::Desync
            } else {
                match active[id.0].kind {
                    JobKind::Mine { x, y } => if adjacent(a.pos, x as int, y as int)
                        && grid_tile(tiles, w, h, x as int, y as int) == Some(TileKind::Wall) {
                        MineOutcome::Mined(x, y)
                    } else {
                        MineOutcome::Wait
                    },
                    JobKind::Haul { .. } => MineOutcome::Wait,
                }
            },
        }
    }
}

/// Tiles, registry, agents, and the cells mined so far.
pub type MineRun = (Seq<TileKind>, Map<u128, Job>, Seq<Agent>, Seq<(i32, i32)>);

pub open spec fn idle(a: Agent) -> Agent {
    Agent { job: AssignedJob(None), ..a }
}

/// Agent `i` takes its mining turn.
pub open spec fn mine_turn(s: MineRun, w: u32, h: u32, i: int) -> MineRun {
    let a = s.2[i];
    match mine_outcome(s.0, w, h, s.1, a) {
        MineOutcome::Wait => s,
        MineOutcome::Desync => (s.0, s.1, s.2.update(i, idle(a)), s.3),
        MineOutcome::Mined(x, y) => (
            s.0.update(y * w + x, TileKind::Floor),
            s.1.remove(a.job.0.unwrap().0),
            s.2.update(i, idle(a)),
            s.3.push((x, y)),
        ),
    }
}

/// Agents `0..n` take their mining turns in order.
pub open spec fn mine_all(s: MineRun, w: u32, h: u32, n: nat) -> MineRun
    decreases n,
{
    if n == 0 {
        s
    } else {
        mine_turn(mine_all(s, w, h, (n - 1) as nat), w, h, n - 1)
    }
}

/// Mining a wall within reach turns it to floor, records exactly one mined
/// cell (the wall's, which becomes one stone request), deletes the job and
/// frees the miner.
pub proof fn lemma_mining_wall(s: MineRun, w: u32, h: u32, i: int, x: i32, y: i32)
    requires
        s.0.len() == w as int * h as int,
        0 <= i < s.2.len(),
        s.2[i].miner,
        s.2[i].job.0 matches Some(id) && s.1.contains_key(id.0) && s.1[id.0].kind == (JobKind::Mine { x, y }),
        adjacent(s.2[i].pos, x as int, y as int),
        grid_tile(s.0, w, h, x as int, y as int) == Some(TileKind::Wall),
    ensures
        grid_tile(mine_turn(s, w, h, i).0, w, h, x as int, y as int) == Some(TileKind::Floor),
        mine_turn(s, w, h, i).3 == s.3.push((x, y)),
        !mine_turn(s, w, h, i).1.contains_key(s.2[i].job.0.unwrap().0),
        mine_turn(s, w, h, i).2[i].job.0 is None,
{
    crate::world::lemma_cell_below(y as int, x as int, w as int, h as int);
}

/// Mining a cell that is not a wall changes nothing: no tile, no stone, and
/// the job stays assigned for a later tick.
pub proof fn lemma_mining_not_wall(s: MineRun, w: u32, h: u32, i: int, x: i32, y: i32)
    requires
        0 <= i < s.2.len(),
        s.2[i].job.0 matches Some(id) && s.1.contains_key(id.0) && s.1[id.0].kind == (JobKind::Mine { x, y }),
        grid_tile(s.0, w, h, x as int, y as int) != Some(TileKind::Wall),
    ensures
        mine_turn(s, w, h, i) == s,
{
}

/// When agent `i` is the only one holding a job, a full round of mining
/// turns is its turn alone.
pub proof fn lemma_lone_miner(s: MineRun, w: u32, h: u32, i: int, n: nat)
    requires
        0 <= i < s.2.len(),
        n <= s.2.len(),
        forall|k: int| 0 <= k < s.2.len() && k != i ==> (#[trigger] s.2[k]).job.0 is None,
    ensures
        mine_all(s, w, h, n) == if i < n { mine_turn(s, w, h, i) } else { s },
    decreases n,
{
    if n > 0 {
        lemma_lone_miner(s, w, h, i, (n - 1) as nat);
        if n - 1 != i {
            let prev = mine_all(s, w, h, (n - 1) as nat);
            assert(prev.2[n - 1] == s.2[n - 1]);
        }
    }
}

/// Mining correctness for a whole round: when one miner holds a mining job
/// for an adjacent wall and no other agent holds a job, the round turns that
/// wall (and no other tile) to floor, records exactly one stone at it,
/// deletes the job and frees the miner; when the cell is not a wall, the
/// round changes nothing and the job stays assigned.
pub proof fn lemma_mining_round(s: MineRun, w: u32, h: u32, i: int, x: i32, y: i32)
    requires
        s.0.len() == w as int * h as int,
        0 <= i < s.2.len(),
        s.2[i].miner,
        s.2[i].job.0 matches Some(id) && s.1.contains_key(id.0) && s.1[id.0].kind == (JobKind::Mine { x, y }),
        adjacent(s.2[i].pos, x as int, y as int),
        forall|k: int| 0 <= k < s.2.len() && k != i ==> (#[trigger] s.2[k]).job.0 is None,
    ensures
        grid_tile(s.0, w, h, x as int, y as int) == Some(TileKind::Wall) ==> {
            let r = mine_all(s, w, h, s.2.len() as nat);
            &&& r.0 == s.0.update(y * w + x, TileKind::Floor)
            &&& grid_tile(r.0, w, h, x as int, y as int) == Some(TileKind::Floor)
            &&& r.3 == s.3.push((x, y))
            &&& r.1 == s.1.remove(s.2[i].job.0.unwrap().0)
            &&& r.2 == s.2.update(i, idle(s.2[i]))
        },
        grid_tile(s.0, w, h, x as int, y as int) != Some(TileKind::Wall) ==> mine_all(s, w, h, s.2.len() as nat) == s,
{
    lemma_lone_miner(s, w, h, i, s.2.len() as nat);
    if grid_tile(s.0, w, h, x as int, y as int) == Some(TileKind::Wall) {
        lemma_mining_wall(s, w, h, i, x, y);
    } else {
        lemma_mining_not_wall(s, w, h, i, x, y);
    }
}

/// Cells that an outcome adds to the mined list.
pub open spec fn outcome_cells(r: MineOutcome) -> Seq<(i32, i32)> {
    match r {
        MineOutcome::Mined(x, y) => seq![(x, y)],
        _ => Seq::empty(),
    }
}

/// One miner's turn: mines when the agent holds a mining job, stands within
/// one cell of it (diagonals included) and the cell is a wall.
pub fn mine_one(map: &mut GameMap, active: &mut ActiveJobs, agents: &mut Vec<Agent>, i: usize) -> (r: MineOutcome)
    requires
        old(map).wf(),
        i < old(agents)@.len(),
    ensures
        final(map).wf(),
        final(map).width == old(map).width,
        final(map).height == old(map).height,
        r == mine_outcome(old(map).tiles@, old(map).width, old(map).height, old(active).jobs@, old(agents)@[i as int]),
        (final(map).tiles@, final(active).jobs@, final(agents)@, outcome_cells(r)) == mine_turn(
            (old(map).tiles@, old(active).jobs@, old(agents)@, Seq::<(i32, i32)>::empty()),
            old(map).width,
            old(map).height,
            i as int,
        ),
{
    let a = agents[i];
    if !a.miner {
        return MineOutcome::Wait;
    }
    let id = match a.job.0 {
        None => { return MineOutcome::Wait; },
        Some(id) => id,
    };
    let kind = match active.jobs.get(&id.0) {
        None => {
            let mut na = a;
            na.job = AssignedJob(None);
            agents.set(i, na);
            return MineOutcome::Desync;
        },
        Some(job) => job.kind,
    };
    match kind {
        JobKind::Mine { x, y } => {
            let dx = a.pos.0 as i64 - x as i64;
            let dy = a.pos.1 as i64 - y as i64;
            if -1 <= dx && dx <= 1 && -1 <= dy && dy <= 1 {
                match map.get_tile(x, y) {
                    Some(TileKind::Wall) => {
                        let ghost t0 = map.tiles@;
                        let ok = map.set_tile(x, y, TileKind::Floor);
                        active.jobs.remove(&id.0);
                        let mut na = a;
                        na.job = AssignedJob(None);
                        agents.set(i, na);
                        assert(seq![(x, y)] == Seq::<(i32, i32)>::empty().push((x, y)));
                        MineOutcome::Mined(x, y)
                    },
                    _ => MineOutcome::Wait,
                }
            } else {
                MineOutcome::Wait
            }
        },
        JobKind::Haul { .. } => MineOutcome::Wait,
    }
}

/// Mining executor: each miner in turn mines its target when in reach and
/// still a wall, turning it to floor, queueing one stone at that cell,
/// deleting the job and freeing the miner. Otherwise the job stays assigned
/// and is retried next tick. A miner whose job is missing from the registry
/// is freed without other effect.
pub fn mine_job_execution_system(
    map: &mut GameMap,
    spawn_queue: &mut ItemSpawnQueue,
    active: &mut ActiveJobs,
    agents: &mut Vec<Agent>,
)
    requires
        old(map).wf(),
    ensures
        final(map).wf(),
        final(map).width == old(map).width,
        final(map).height == old(map).height,
        ({
            let run = mine_all(
                (old(map).tiles@, old(active).jobs@, old(agents)@, Seq::<(i32, i32)>::empty()),
                old(map).width,
                old(map).height,
                old(agents)@.len() as nat,
            );
            &&& final(map).tiles@ == run.0
            &&& final(active).jobs@ == run.1
            &&& final(agents)@ == run.2
            &&& final(spawn_queue).requests@ == old(spawn_queue).requests@ + run.3.map_values(|c: (i32, i32)| stone_request(c))
        }),
{
    let ghost s0 = (map.tiles@, active.jobs@, agents@, Seq::<(i32, i32)>::empty());
    let ghost q0 = spawn_queue.requests@;
    let n = agents.len();
    let mut i: usize = 0;
    while i < n
        invariant
            0 <= i <= n,
            n == agents@.len(),
            n == s0.2.len(),
            map.wf(),
            map.width == old(map).width,
            map.height == old(map).height,
            s0.0 == old(map).tiles@,
            ({
                let run = mine_all(s0, map.width, map.height, i as nat);
                &&& map.tiles@ == run.0
                &&& active.jobs@ == run.1
                &&& agents@ == run.2
                &&& spawn_queue.requests@ == q0 + run.3.map_values(|c: (i32, i32)| stone_request(c))
            }),
        decreases n - i,
    {
        let ghost prev = mine_all(s0, map.width, map.height, i as nat);
        let r = mine_one(map, active, agents, i);
        match r {
            MineOutcome::Mined(x, y) => {
                spawn_queue.requests.push(ItemSpawnRequest { item_type: ItemType::Stone, position: (x, y) });
                assert(prev.3.push((x, y)).map_values(|c: (i32, i32)| stone_request(c))
                    =~= prev.3.map_values(|c: (i32, i32)| stone_request(c)).push(stone_request((x, y))));
            },
            _ => {},
        }
        i += 1;
    }
}

/// The spawn request for a stone at cell `c`.
pub open spec fn stone_request(c: (i32, i32)) -> ItemSpawnRequest {
    ItemSpawnRequest { item_type: ItemType::Stone, position: c }
}

/// The item entity a spawn request materialises as.
pub open spec fn spawned_item(r: ItemSpawnRequest) -> ItemEntity {
    ItemEntity {
        item: crate::components::Item { item_type: r.item_type },
        pos: Position(r.position.0, r.position.1),
        carriable: true,
        fresh: true,
    }
}

/// Materialises every queued request, in order, as a fresh carriable item,
/// and empties the queue.
pub fn process_item_spawn_queue_system(spawn_queue: &mut ItemSpawnQueue, items: &mut Vec<ItemEntity>)
    ensures
        final(spawn_queue).requests@.len() == 0,
        final(items)@ == old(items)@ + old(spawn_queue).requests@.map_values(|r: ItemSpawnRequest| spawned_item(r)),
{
    let n = spawn_queue.requests.len();
    let mut i: usize = 0;
    while i < n
        invariant
            0 <= i <= n,
            n == spawn_queue.requests@.len(),
            spawn_queue.requests@ == old(spawn_queue).requests@,
            items@ == old(items)@ + spawn_queue.requests@.take(i as int).map_values(|r: ItemSpawnRequest| spawned_item(r)),
        decreases n - i,
    {
        let r = spawn_queue.requests[i];
        items.push(ItemEntity {
            item: crate::components::Item { item_type: r.item_type },
            pos: Position(r.position.0, r.position.1),
            carriable: true,
            fresh: true,
        });
        assert(spawn_queue.requests@.take(i + 1) == spawn_queue.requests@.take(i as int).push(r));
        i += 1;
    }
    assert(spawn_queue.requests@.take(n as int) == spawn_queue.requests@);
    spawn_queue.requests.clear();
}

impl Default for JobBoard {
    fn default() -> (r: JobBoard)
        ensures
            r.0@.len() == 0,
    {
        JobBoard::new()
    }
}

impl Default for ActiveJobs {
    fn default() -> (r: ActiveJobs)
        ensures
            r.jobs@.dom() == Set::<u128>::empty(),
    {
        ActiveJobs::new()
    }
}

impl Default for ItemSpawnQueue {
    fn default() -> (r: ItemSpawnQueue)
        ensures
            r.requests@.len() == 0,
    {
        ItemSpawnQueue::new()
    }
}

} // verus!
