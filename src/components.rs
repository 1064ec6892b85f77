//! Data attached to agents, items, designations and stockpiles.
use vstd::prelude::*;
use crate::jobs::JobId;
use crate::world::Position;

verus! {

/// Index of an item in the world's item arena.
#[derive(Debug, Clone, Copy, PartialEq, Eq, Hash, Structural)]
pub struct Entity(pub usize);

/// The job an agent is working on; `None` means idle.
#[derive(Debug, Clone, Copy, PartialEq, Eq, Structural)]
pub struct AssignedJob(pub Option<JobId>);

/// Vision range used by line-of-sight queries.
#[derive(Debug, Clone, Copy, PartialEq, Eq, Structural)]
pub struct VisionRadius(pub i32);

/// Lifecycle of a designation: only `Active` ones ever become jobs.
#[derive(Debug, Clone, Copy, PartialEq, Eq, Hash, Structural)]
pub enum DesignationState {
    /// Eligible for conversion into a job.
    Active,
    /// A duplicate of an earlier designation; permanently inert.
    Ignored,
    /// Already turned into a job; permanently inert.
    Consumed,
}

/// Lifecycle component of a designation.
#[derive(Debug, Clone, Copy, PartialEq, Eq, Structural)]
pub struct DesignationLifecycle(pub DesignationState);

/// Kinds of items.
#[derive(Debug, Clone, Copy, PartialEq, Eq, Structural)]
pub enum ItemType {
    /// What mining a wall yields.
    Stone,
}

/// Type tag of an item entity.
#[derive(Debug, Clone, Copy, PartialEq, Eq, Structural)]
pub struct Item {
    pub item_type: ItemType,
}

/// What an agent holds: at most one item.
#[derive(Debug, Clone, Copy, PartialEq, Eq, Structural)]
pub struct Inventory(pub Option<Entity>);

/// A worker: where it is, what it can do, and what it is doing.
#[derive(Debug, Clone, Copy, PartialEq, Eq, Structural)]
pub struct Agent {
    pub pos: Position,
    pub vel: Option<crate::world::Velocity>,
    /// Can take mining jobs.
    pub miner: bool,
    /// Can take hauling jobs.
    pub carrier: bool,
    pub job: AssignedJob,
    pub inventory: Inventory,
    /// How far it sees; `None` means the default of 8 cells.
    pub vision: Option<VisionRadius>,
}

/// An item lying in the world (or held by an agent; its position is then
/// where it was picked up until it is dropped).
#[derive(Debug, Clone, Copy, PartialEq, Eq, Structural)]
pub struct ItemEntity {
    pub item: Item,
    pub pos: Position,
    /// Agents may pick it up.
    pub carriable: bool,
    /// Created since the auto-haul trigger last looked.
    pub fresh: bool,
}

impl AssignedJob {
    /// An idle assignment.
    pub fn none() -> (r: AssignedJob)
        ensures
            r.0.is_none(),
    {
        AssignedJob(None)
    }
}

impl Inventory {
    /// Empty hands.
    pub fn empty() -> (r: Inventory)
        ensures
            r.0.is_none(),
    {
        Inventory(None)
    }
}

impl DesignationLifecycle {
    /// A fresh designation is `Active`.
    pub fn active() -> (r: DesignationLifecycle)
        ensures
            r.0 == DesignationState::Active,
    {
        DesignationLifecycle(DesignationState::Active)
    }
}

impl Item {
    /// A stone item.
    pub fn stone() -> (r: Item)
        ensures
            r.item_type == ItemType::Stone,
    {
        Item { item_type: ItemType::Stone }
    }
}

impl Agent {
    /// An idle agent at rest with empty hands that sees 8 cells.
    pub open spec fn at_rest(pos: Position, miner: bool, carrier: bool) -> Agent {
        Agent {
            pos,
            vel: Some(crate::world::Velocity(0, 0)),
            miner,
            carrier,
            job: AssignedJob(None),
            inventory: Inventory(None),
            vision: Some(VisionRadius(8)),
        }
    }

    /// An idle agent with empty hands, no velocity and the default vision.
    pub fn new(pos: Position, miner: bool, carrier: bool) -> (r: Agent)
        ensures
            r == (Agent { vel: None, vision: None, ..Agent::at_rest(pos, miner, carrier) }),
    {
        Agent { pos, vel: None, miner, carrier, job: AssignedJob(None), inventory: Inventory(None), vision: None }
    }
}

impl ItemEntity {
    /// A carriable stone just created at `pos`.
    pub fn stone_at(pos: Position) -> (r: ItemEntity)
        ensures
            r.item.item_type == ItemType::Stone,
            r.pos == pos,
            r.carriable,
            r.fresh,
    {
        ItemEntity { item: Item { item_type: ItemType::Stone }, pos, carriable: true, fresh: true }
    }
}

/// Rectangular zone, inclusive on all sides.
#[derive(Debug, Clone, Copy, PartialEq, Eq, Structural)]
pub struct ZoneBounds {
    pub min_x: i32,
    pub min_y: i32,
    pub max_x: i32,
    pub max_y: i32,
}

/// `a + b` halved, rounded toward zero.
pub open spec fn half_toward_zero(s: int) -> int {
    if s >= 0 {
        s / 2
    } else {
        -((-s) / 2)
    }
}

/// Midpoint of `a` and `b`, rounded toward zero.
fn midpoint(a: i32, b: i32) -> (r: i32)
    ensures
        r as int == half_toward_zero(a as int + b as int),
{
    let s: i64 = a as i64 + b as i64;
    let h: i64 = if s >= 0 { s / 2 } else { -((-s) / 2) };
    h as i32
}

impl ZoneBounds {
    pub fn new(min_x: i32, min_y: i32, max_x: i32, max_y: i32) -> (r: ZoneBounds)
        ensures
            r == (ZoneBounds { min_x, min_y, max_x, max_y }),
    {
        ZoneBounds { min_x, min_y, max_x, max_y }
    }

    pub open spec fn contains_spec(&self, x: int, y: int) -> bool {
        self.min_x <= x <= self.max_x && self.min_y <= y <= self.max_y
    }

    /// Whether `(x, y)` lies in the zone, borders included.
    pub fn contains(&self, x: i32, y: i32) -> (r: bool)
        ensures
            r == self.contains_spec(x as int, y as int),
    {
        x >= self.min_x && x <= self.max_x && y >= self.min_y && y <= self.max_y
    }

    /// Centre of the zone, each coordinate rounded toward zero.
    pub fn center(&self) -> (r: (i32, i32))
        ensures
            r.0 as int == half_toward_zero(self.min_x as int + self.max_x as int),
            r.1 as int == half_toward_zero(self.min_y as int + self.max_y as int),
    {
        (midpoint(self.min_x, self.max_x), midpoint(self.min_y, self.max_y))
    }
}

/// A storage zone's filter: `None` accepts every item type.
#[derive(Debug, Clone)]
pub struct Stockpile {
    pub accepts: Option<Vec<ItemType>>,
}

/// Marks a goblin agent.
#[derive(Debug, Clone, Copy, PartialEq, Eq, Structural)]
pub struct Goblin;

/// Marks an entity that keeps a job queue (reserved).
#[derive(Debug, Clone, Copy, PartialEq, Eq, Structural)]
pub struct JobQueue;

/// Capability tag: can haul.
#[derive(Debug, Clone, Copy, PartialEq, Eq, Structural)]
pub struct Carrier;

/// Capability tag: can mine.
#[derive(Debug, Clone, Copy, PartialEq, Eq, Structural)]
pub struct Miner;

/// Marks an item that agents may pick up.
#[derive(Debug, Clone, Copy, PartialEq, Eq, Structural)]
pub struct Carriable;

/// Marks a stone item.
#[derive(Debug, Clone, Copy, PartialEq, Eq, Structural)]
pub struct Stone;

/// Marks an entity that takes part in combat.
#[derive(Debug, Clone, Copy, PartialEq, Eq, Structural)]
pub struct Combatant;

/// Marks a dead entity.
#[derive(Debug, Clone, Copy, PartialEq, Eq, Structural)]
pub struct Dead;

/// Sides in combat.
#[derive(Debug, Clone, Copy, PartialEq, Eq, Structural)]
pub enum FactionKind {
    Goblins,
    Invaders,
    Neutral,
}

/// An entity's allegiance.
#[derive(Debug, Clone, Copy, PartialEq, Eq, Structural)]
pub struct Faction {
    pub kind: FactionKind,
}

impl Faction {
    pub fn new(kind: FactionKind) -> (r: Faction)
        ensures
            r.kind == kind,
    {
        Faction { kind }
    }

    /// Goblins and invaders are hostile to each other; nobody else is hostile.
    pub fn is_hostile_to(&self, other: &Faction) -> (r: bool)
        ensures
            r == ((self.kind == FactionKind::Goblins && other.kind == FactionKind::Invaders)
                || (self.kind == FactionKind::Invaders && other.kind == FactionKind::Goblins)),
    {
        match (self.kind, other.kind) {
            (FactionKind::Goblins, FactionKind::Invaders) => true,
            (FactionKind::Invaders, FactionKind::Goblins) => true,
            _ => false,
        }
    }
}

/// Hit points, `0 <= hp <= max_hp` once built by `new`.
#[derive(Debug, Clone, Copy, PartialEq, Eq, Structural)]
pub struct Health {
    pub hp: i32,
    pub max_hp: i32,
}

impl Health {
    pub open spec fn wf(&self) -> bool {
        0 <= self.hp <= self.max_hp
    }

    /// `max_hp` raised to at least zero, and `hp` clamped into `0..=max_hp`.
    pub fn new(hp: i32, max_hp: i32) -> (r: Health)
        ensures
            r.wf(),
            r.max_hp == if max_hp < 0 { 0 } else { max_hp },
            r.hp == if hp < 0 { 0 } else if hp > r.max_hp { r.max_hp } else { hp },
    {
        let m = if max_hp < 0 { 0 } else { max_hp };
        let h = if hp < 0 { 0 } else if hp > m { m } else { hp };
        Health { hp: h, max_hp: m }
    }

    /// Full health of `max_hp` (at least zero).
    pub fn full(max_hp: i32) -> (r: Health)
        ensures
            r.wf(),
            r.max_hp == if max_hp < 0 { 0 } else { max_hp },
            r.hp == r.max_hp,
    {
        Health::new(max_hp, max_hp)
    }

    pub fn is_alive(&self) -> (r: bool)
        ensures
            r == (self.hp > 0),
    {
        self.hp > 0
    }

    pub fn is_dead(&self) -> (r: bool)
        ensures
            r == (self.hp <= 0),
    {
        self.hp <= 0
    }

    /// Loses `damage` hit points, clamped into `0..=max_hp`; returns how many
    /// were actually lost.
    pub fn take_damage(&mut self, damage: i32) -> (r: i32)
        requires
            old(self).wf(),
        ensures
            final(self).wf(),
            final(self).max_hp == old(self).max_hp,
            final(self).hp as int == crate::systems::clamp_spec(old(self).hp - damage, 0, old(self).max_hp as int),
            r == old(self).hp - final(self).hp,
    {
        let v: i64 = self.hp as i64 - damage as i64;
        let c: i64 = if v < 0 { 0 } else if v > self.max_hp as i64 { self.max_hp as i64 } else { v };
        let old_hp = self.hp;
        self.hp = c as i32;
        old_hp - self.hp
    }

    /// Gains `amount` hit points, clamped into `0..=max_hp`; returns how many
    /// were actually gained.
    pub fn heal(&mut self, amount: i32) -> (r: i32)
        requires
            old(self).wf(),
        ensures
            final(self).wf(),
            final(self).max_hp == old(self).max_hp,
            final(self).hp as int == crate::systems::clamp_spec(old(self).hp + amount, 0, old(self).max_hp as int),
            r == final(self).hp - old(self).hp,
    {
        let v: i64 = self.hp as i64 + amount as i64;
        let c: i64 = if v < 0 { 0 } else if v > self.max_hp as i64 { self.max_hp as i64 } else { v };
        let old_hp = self.hp;
        self.hp = c as i32;
        self.hp - old_hp
    }
}

/// Combat statistics; all non-negative and `dmg_min <= dmg_max` once built
/// by `new`.
#[derive(Debug, Clone, Copy, PartialEq, Eq, Structural)]
pub struct CombatStats {
    pub accuracy: i32,
    pub evasion: i32,
    pub attack: i32,
    pub defense: i32,
    pub dmg_min: i32,
    pub dmg_max: i32,
}

pub open spec fn non_neg(v: i32) -> i32 {
    if v < 0 { 0 } else { v }
}

impl CombatStats {
    /// Stats with negative values raised to zero and the damage bounds put
    /// in order.
    pub fn new(accuracy: i32, evasion: i32, attack: i32, defense: i32, dmg_min: i32, dmg_max: i32) -> (r: CombatStats)
        ensures
            r.accuracy == non_neg(accuracy),
            r.evasion == non_neg(evasion),
            r.attack == non_neg(attack),
            r.defense == non_neg(defense),
            r.dmg_min == non_neg(if dmg_min <= dmg_max { dmg_min } else { dmg_max }),
            r.dmg_max == non_neg(if dmg_min <= dmg_max { dmg_max } else { dmg_min }),
    {
        let (lo, hi) = if dmg_min <= dmg_max { (dmg_min, dmg_max) } else { (dmg_max, dmg_min) };
        CombatStats {
            accuracy: if accuracy < 0 { 0 } else { accuracy },
            evasion: if evasion < 0 { 0 } else { evasion },
            attack: if attack < 0 { 0 } else { attack },
            defense: if defense < 0 { 0 } else { defense },
            dmg_min: if lo < 0 { 0 } else { lo },
            dmg_max: if hi < 0 { 0 } else { hi },
        }
    }

    /// Chance to hit in percent: `50 + 5 * (accuracy - evasion)`, clamped
    /// into `5..=95`.
    pub fn hit_chance(&self) -> (r: i32)
        ensures
            r as int == crate::systems::clamp_spec(50 + 5 * (self.accuracy - self.evasion), 5, 95),
    {
        let base: i64 = 50 + (self.accuracy as i64 - self.evasion as i64) * 5;
        if base < 5 { 5 } else if base > 95 { 95 } else { base as i32 }
    }
}

/// The tick from which an entity may attack again.
#[derive(Debug, Clone, Copy, PartialEq, Eq, Structural)]
pub struct AttackCooldown {
    pub until_tick: u64,
}

impl AttackCooldown {
    pub fn new(until_tick: u64) -> (r: AttackCooldown)
        ensures
            r.until_tick == until_tick,
    {
        AttackCooldown { until_tick }
    }

    pub fn is_ready(&self, current_tick: u64) -> (r: bool)
        ensures
            r == (current_tick >= self.until_tick),
    {
        current_tick >= self.until_tick
    }

    /// Ready again `duration_ticks` after `current_tick`.
    pub fn set_duration(&mut self, current_tick: u64, duration_ticks: u64)
        requires
            current_tick + duration_ticks <= u64::MAX,
        ensures
            final(self).until_tick == current_tick + duration_ticks,
    {
        self.until_tick = current_tick + duration_ticks;
    }
}

/// The entity an attacker is aiming at.
#[derive(Debug, Clone, Copy, PartialEq, Eq, Structural)]
pub struct Target {
    pub entity: Entity,
}

impl Target {
    pub fn new(entity: Entity) -> (r: Target)
        ensures
            r.entity == entity,
    {
        Target { entity }
    }
}

impl Default for AssignedJob {
    fn default() -> (r: AssignedJob)
        ensures
            r.0.is_none(),
    {
        AssignedJob(None)
    }
}

impl Default for Inventory {
    fn default() -> (r: Inventory)
        ensures
            r.0.is_none(),
    {
        Inventory(None)
    }
}

impl Default for DesignationLifecycle {
    fn default() -> (r: DesignationLifecycle)
        ensures
            r.0 == DesignationState::Active,
    {
        DesignationLifecycle(DesignationState::Active)
    }
}

} // verus!
