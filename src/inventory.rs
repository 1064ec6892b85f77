//! Picking up and putting down items.
use vstd::prelude::*;
use crate::components::{Agent, Entity, Inventory, ItemEntity};
use crate::world::Position;

verus! {

/// Puts item `item` into the hands of agent `agent`. Fails, changing
/// nothing, when either does not exist or the agent already holds something.
pub fn pick_up_item(agents: &mut Vec<Agent>, items: &Vec<ItemEntity>, agent: usize, item: Entity) -> (r: bool)
    ensures
        r == (item.0 < items@.len() && agent < old(agents)@.len() && old(agents)@[agent as int].inventory.0.is_none()),
        r ==> final(agents)@ == old(agents)@.update(
            agent as int,
            Agent { inventory: Inventory(Some(item)), ..old(agents)@[agent as int] },
        ),
        !r ==> final(agents)@ == old(agents)@,
{
    if item.0 >= items.len() || agent >= agents.len() {
        return false;
    }
    let mut a = agents[agent];
    if a.inventory.0.is_some() {
        return false;
    }
    a.inventory = Inventory(Some(item));
    agents.set(agent, a);
    true
}

/// Drops what agent `agent` holds at `world_position`. Fails, changing
/// nothing, when the agent does not exist, holds nothing, or holds an item
/// that does not exist.
pub fn put_down_item(agents: &mut Vec<Agent>, items: &mut Vec<ItemEntity>, agent: usize, world_position: (i32, i32)) -> (r: bool)
    ensures
        r == (agent < old(agents)@.len() && (old(agents)@[agent as int].inventory.0 matches Some(e) && e.0 < old(items)@.len())),
        r ==> ({
            let e = old(agents)@[agent as int].inventory.0.unwrap().0 as int;
            &&& final(agents)@ == old(agents)@.update(agent as int, Agent { inventory: Inventory(None), ..old(agents)@[agent as int] })
            &&& final(items)@ == old(items)@.update(e, ItemEntity { pos: Position(world_position.0, world_position.1), ..old(items)@[e] })
        }),
        !r ==> final(agents)@ == old(agents)@ && final(items)@ == old(items)@,
{
    if agent >= agents.len() {
        return false;
    }
    let mut a = agents[agent];
    let e = match a.inventory.0 {
        None => { return false; },
        Some(e) => e,
    };
    if e.0 >= items.len() {
        return false;
    }
    let mut it = items[e.0];
    it.pos = Position(world_position.0, world_position.1);
    items.set(e.0, it);
    a.inventory = Inventory(None);
    agents.set(agent, a);
    true
}

/// Whether agent `agent` exists and holds an item.
pub fn is_carrying_item(agents: &Vec<Agent>, agent: usize) -> (r: bool)
    ensures
        r == (agent < agents@.len() && agents@[agent as int].inventory.0.is_some()),
{
    agent < agents.len() && agents[agent].inventory.0.is_some()
}

/// The item agent `agent` holds, if it exists and holds one.
pub fn get_carried_item(agents: &Vec<Agent>, agent: usize) -> (r: Option<Entity>)
    ensures
        r == (if agent < agents@.len() { agents@[agent as int].inventory.0 } else { None }),
{
    if agent < agents.len() {
        agents[agent].inventory.0
    } else {
        None
    }
}

} // verus!
