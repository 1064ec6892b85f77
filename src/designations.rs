//! Player designations: deduplication and conversion into mining jobs.
use vstd::prelude::*;
use crate::components::{DesignationLifecycle, DesignationState};
use crate::jobs::{add_job, Job, JobBoard, JobKind};
use crate::systems::DeterministicRng;
use crate::world::Position;

verus! {

/// Marks a designation as a request to mine.
#[derive(Debug, Clone, Copy, PartialEq, Eq, Structural)]
pub struct MineDesignation;

/// A mining designation: where, and how far along its lifecycle it is.
#[derive(Debug, Clone, Copy, PartialEq, Eq, Structural)]
pub struct DesignationBundle {
    pub pos: Position,
    pub kind: MineDesignation,
    pub lifecycle: DesignationLifecycle,
}

/// Whether active designations are turned into jobs.
#[derive(Debug, Clone, Copy, PartialEq, Eq, Structural)]
pub struct DesignationConfig {
    pub auto_jobs: bool,
}

impl DesignationBundle {
    /// An active mining designation at `pos`.
    pub fn at(pos: Position) -> (r: DesignationBundle)
        ensures
            r.pos == pos,
            r.lifecycle.0 == DesignationState::Active,
    {
        DesignationBundle { pos, kind: MineDesignation, lifecycle: DesignationLifecycle(DesignationState::Active) }
    }
}

pub open spec fn is_active(d: DesignationBundle) -> bool {
    d.lifecycle.0 == DesignationState::Active
}

/// An earlier designation at the same position is active.
pub open spec fn shadowed(s: Seq<DesignationBundle>, i: int) -> bool {
    exists|j: int| 0 <= j < i && is_active(#[trigger] s[j]) && s[j].pos == s[i].pos
}

pub open spec fn with_state(d: DesignationBundle, st: DesignationState) -> DesignationBundle {
    DesignationBundle { lifecycle: DesignationLifecycle(st), ..d }
}

/// Dedup: every active designation that an earlier active one at the same
/// position shadows becomes `Ignored`; nothing else changes.
pub open spec fn dedup_spec(s: Seq<DesignationBundle>) -> Seq<DesignationBundle> {
    Seq::new(s.len(), |i: int| if is_active(s[i]) && shadowed(s, i) {
        with_state(s[i], DesignationState::Ignored)
    } else {
        s[i]
    })
}

/// Conversion: every active designation becomes `Consumed`.
pub open spec fn consume_spec(s: Seq<DesignationBundle>) -> Seq<DesignationBundle> {
    Seq::new(s.len(), |i: int| if is_active(s[i]) {
        with_state(s[i], DesignationState::Consumed)
    } else {
        s[i]
    })
}

/// Mining job kinds for the active designations, in order.
pub open spec fn active_mine_kinds(s: Seq<DesignationBundle>) -> Seq<JobKind>
    decreases s.len(),
{
    if s.len() == 0 {
        Seq::empty()
    } else {
        let d = s.last();
        active_mine_kinds(s.drop_last()) + if is_active(d) {
            seq![JobKind::Mine { x: d.pos.0, y: d.pos.1 }]
        } else {
            Seq::empty()
        }
    }
}

pub open spec fn job_kinds(b: Seq<Job>) -> Seq<JobKind> {
    b.map_values(|j: Job| j.kind)
}

/// Marks as `Ignored` every active designation that shares its position with
/// an earlier active one; the first active designation at a position stays.
pub fn designation_dedup_system(designations: &mut Vec<DesignationBundle>)
    ensures
        final(designations)@ == dedup_spec(old(designations)@),
{
    let n = designations.len();
    let mut flags: Vec<bool> = Vec::new();
    let mut i: usize = 0;
    while i < n
        invariant
            0 <= i <= n,
            n == designations@.len(),
            flags@.len() == i,
            designations@ == old(designations)@,
            forall|k: int| 0 <= k < i ==> flags@[k] == (is_active(designations@[k]) && shadowed(designations@, k)),
        decreases n - i,
    {
        let mut dup = false;
        if designations[i].lifecycle.0 == DesignationState::Active {
            let mut j: usize = 0;
            while j < i
                invariant
                    0 <= j <= i < n,
                    n == designations@.len(),
                    dup == exists|k: int| 0 <= k < j && is_active(#[trigger] designations@[k]) && designations@[k].pos == designations@[i as int].pos,
                decreases i - j,
            {
                if designations[j].lifecycle.0 == DesignationState::Active && designations[j].pos == designations[i].pos {
                    dup = true;
                }
                j += 1;
            }
        }
        flags.push(dup);
        i += 1;
    }
    let mut i: usize = 0;
    while i < n
        invariant
            0 <= i <= n,
            n == designations@.len(),
            n == old(designations)@.len(),
            flags@.len() == n,
            forall|k: int| 0 <= k < n ==> flags@[k] == (is_active(old(designations)@[k]) && shadowed(old(designations)@, k)),
            forall|k: int| 0 <= k < i ==> designations@[k] == dedup_spec(old(designations)@)[k],
            forall|k: int| i <= k < n ==> designations@[k] == old(designations)@[k],
        decreases n - i,
    {
        if flags[i] {
            let mut d = designations[i];
            d.lifecycle = DesignationLifecycle(DesignationState::Ignored);
            designations.set(i, d);
        }
        i += 1;
    }
    assert(designations@ =~= dedup_spec(old(designations)@));
}

/// When auto-conversion is on, posts one mining job (with an id drawn from
/// the job stream) for each active designation, in order, and marks it
/// `Consumed`. With it off nothing changes.
pub fn designation_to_jobs_system(
    config: &DesignationConfig,
    board: &mut JobBoard,
    rng: &mut DeterministicRng,
    designations: &mut Vec<DesignationBundle>,
)
    ensures
        final(rng).master_seed == old(rng).master_seed,
        !config.auto_jobs ==> *final(rng) == *old(rng),
        config.auto_jobs && active_mine_kinds(old(designations)@).len() == 0 ==> *final(rng) == *old(rng),
        !config.auto_jobs ==> final(designations)@ == old(designations)@ && final(board).0@ == old(board).0@,
        config.auto_jobs ==> final(designations)@ == consume_spec(old(designations)@),
        config.auto_jobs ==> final(board).0@.len() == old(board).0@.len() + active_mine_kinds(old(designations)@).len(),
        config.auto_jobs ==> final(board).0@.take(old(board).0@.len() as int) == old(board).0@,
        config.auto_jobs ==> job_kinds(final(board).0@.skip(old(board).0@.len() as int)) == active_mine_kinds(old(designations)@),
{
    if !config.auto_jobs {
        return;
    }
    let ghost b0 = board.0@;
    let ghost d0 = designations@;
    let n = designations.len();
    let mut i: usize = 0;
    while i < n
        invariant
            0 <= i <= n,
            n == designations@.len(),
            n == d0.len(),
            rng.master_seed == old(rng).master_seed,
            active_mine_kinds(d0.take(i as int)).len() == 0 ==> *rng == *old(rng),
            forall|k: int| 0 <= k < i ==> designations@[k] == consume_spec(d0)[k],
            forall|k: int| i <= k < n ==> designations@[k] == d0[k],
            board.0@.len() == b0.len() + active_mine_kinds(d0.take(i as int)).len(),
            board.0@.take(b0.len() as int) == b0,
            job_kinds(board.0@.skip(b0.len() as int)) == active_mine_kinds(d0.take(i as int)),
        decreases n - i,
    {
        let d = designations[i];
        let ghost before = board.0@;
        assert(d0.take(i + 1).drop_last() == d0.take(i as int));
        if d.lifecycle.0 == DesignationState::Active {
            add_job(board, JobKind::Mine { x: d.pos.0, y: d.pos.1 }, &mut rng.job_rng);
            let mut nd = d;
            nd.lifecycle = DesignationLifecycle(DesignationState::Consumed);
            designations.set(i, nd);
            assert(board.0@.skip(b0.len() as int) == before.skip(b0.len() as int).push(board.0@.last()));
            assert(board.0@.take(b0.len() as int) == before.take(b0.len() as int));
        }
        i += 1;
        assert(job_kinds(board.0@.skip(b0.len() as int)) =~= active_mine_kinds(d0.take(i as int)));
    }
    assert(d0.take(n as int) == d0);
    assert(designations@ =~= consume_spec(d0));

}

/// Running the dedup pass on its own result changes nothing.
pub proof fn lemma_dedup_idempotent(s: Seq<DesignationBundle>)
    ensures
        dedup_spec(dedup_spec(s)) == dedup_spec(s),
{
    let t = dedup_spec(s);
    assert forall|i: int| 0 <= i < t.len() implies #[trigger] dedup_spec(t)[i] == t[i] by {
        if is_active(t[i]) && shadowed(t, i) {
            let j = choose|j: int| 0 <= j < i && is_active(#[trigger] t[j]) && t[j].pos == t[i].pos;
            assert(is_active(s[j]) && s[j].pos == s[i].pos);
            assert(shadowed(s, i));
        }
    }
    assert(dedup_spec(t) =~= t);
}

/// After dedup no two active designations share a position, and every
/// position that had an active designation keeps one: the first of them.
pub proof fn lemma_dedup_one_active_per_position(s: Seq<DesignationBundle>)
    ensures
        forall|i: int, j: int|
            0 <= i < j < s.len() && is_active(#[trigger] dedup_spec(s)[i]) && is_active(#[trigger] dedup_spec(s)[j])
                ==> dedup_spec(s)[i].pos != dedup_spec(s)[j].pos,
        forall|i: int| 0 <= i < s.len() && is_active(#[trigger] s[i]) ==>
            exists|k: int| 0 <= k <= i && is_active(#[trigger] dedup_spec(s)[k]) && dedup_spec(s)[k].pos == s[i].pos,
{
    let t = dedup_spec(s);
    assert forall|i: int, j: int|
        0 <= i < j < s.len() && is_active(#[trigger] t[i]) && is_active(#[trigger] t[j]) implies t[i].pos != t[j].pos by {
        if t[i].pos == t[j].pos {
            assert(is_active(s[i]) && s[i].pos == s[j].pos);
            assert(shadowed(s, j));
        }
    }
    assert forall|i: int| 0 <= i < s.len() && is_active(#[trigger] s[i]) implies
        exists|k: int| 0 <= k <= i && is_active(#[trigger] t[k]) && t[k].pos == s[i].pos by {
        lemma_first_active_survives(s, i);
    }
}

proof fn lemma_first_active_survives(s: Seq<DesignationBundle>, i: int)
    requires
        0 <= i < s.len(),
        is_active(s[i]),
    ensures
        exists|k: int| 0 <= k <= i && is_active(#[trigger] dedup_spec(s)[k]) && dedup_spec(s)[k].pos == s[i].pos,
    decreases i,
{
    let t = dedup_spec(s);
    if shadowed(s, i) {
        let j = choose|j: int| 0 <= j < i && is_active(#[trigger] s[j]) && s[j].pos == s[i].pos;
        lemma_first_active_survives(s, j);
    } else {
        assert(is_active(t[i]) && t[i].pos == s[i].pos);
    }
}

/// K active designations at one position: the first stays active and the
/// other K - 1 become `Ignored`.
pub proof fn lemma_dedup_same_position(s: Seq<DesignationBundle>, p: Position)
    requires
        forall|i: int| 0 <= i < s.len() ==> is_active(#[trigger] s[i]) && s[i].pos == p,
    ensures
        s.len() > 0 ==> is_active(dedup_spec(s)[0]),
        forall|i: int| 0 < i < s.len() ==> (#[trigger] dedup_spec(s)[i]).lifecycle.0 == DesignationState::Ignored,
{
    assert forall|i: int| 0 < i < s.len() implies (#[trigger] dedup_spec(s)[i]).lifecycle.0 == DesignationState::Ignored by {
        assert(is_active(s[0]) && s[0].pos == s[i].pos);
        assert(shadowed(s, i));
    }
}

/// After conversion no designation is active, so a second conversion (or
/// dedup) posts nothing and changes nothing.
pub proof fn lemma_conversion_settles(s: Seq<DesignationBundle>)
    ensures
        consume_spec(consume_spec(s)) == consume_spec(s),
        dedup_spec(consume_spec(s)) == consume_spec(s),
        active_mine_kinds(consume_spec(s)).len() == 0,
{
    let t = consume_spec(s);
    assert(consume_spec(t) =~= t);
    assert(dedup_spec(t) =~= t);
    lemma_none_active_no_kinds(t);
}

proof fn lemma_none_active_no_kinds(s: Seq<DesignationBundle>)
    requires
        forall|i: int| 0 <= i < s.len() ==> !is_active(#[trigger] s[i]),
    ensures
        active_mine_kinds(s).len() == 0,
    decreases s.len(),
{
    if s.len() > 0 {
        let t = s.drop_last();
        assert forall|i: int| 0 <= i < t.len() implies !is_active(#[trigger] t[i]) by {
            assert(t[i] == s[i]);
        }
        lemma_none_active_no_kinds(t);
    }
}

/// Conversion creates exactly one job per designation that was active
/// before it ran.
pub proof fn lemma_one_job_per_active_designation(s: Seq<DesignationBundle>)
    ensures
        active_mine_kinds(s).len() == s.filter(|d: DesignationBundle| is_active(d)).len(),
    decreases s.len(),
{
    reveal_with_fuel(Seq::filter, 1);
    if s.len() > 0 {
        lemma_one_job_per_active_designation(s.drop_last());
    }
}

impl Default for DesignationBundle {
    /// An active mining designation at (0, 0).
    fn default() -> (r: DesignationBundle)
        ensures
            r.pos == Position(0, 0),
            r.lifecycle.0 == DesignationState::Active,
    {
        DesignationBundle::at(Position(0, 0))
    }
}

impl Default for DesignationConfig {
    /// Auto-conversion off.
    fn default() -> (r: DesignationConfig)
        ensures
            !r.auto_jobs,
    {
        DesignationConfig { auto_jobs: false }
    }
}

} // verus!
