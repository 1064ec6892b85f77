//! Task-scheduling core of a tile-based colony simulation.
//!
//! Designations become jobs, jobs are assigned to capable agents, and the
//! mining and hauling executors drive them to completion. Every step is a
//! plain function over the simulation state, so a run is fully determined
//! by the master seed and the order in which things are created.
use vstd::prelude::*;

pub mod bootstrap;
pub mod components;
pub mod designations;
pub mod fov;
pub mod inventory;
pub mod jobs;
pub mod mapgen;
pub mod path;
pub mod recipes;
pub mod render;
pub mod stockpiles;
pub mod systems;
pub mod world;

verus! {

/// Chronological record of notable simulation events.
#[derive(Debug)]
pub struct ActionLog {
    pub events: Vec<String>,
}

impl Default for ActionLog {
    fn default() -> (r: ActionLog)
        ensures
            r.events@.len() == 0,
    {
        ActionLog { events: Vec::new() }
    }
}

impl ActionLog {
    /// Appends an event after all earlier ones.
    pub fn log(&mut self, event: String)
        ensures
            final(self).events@ == old(self).events@.push(event),
    {
        self.events.push(event);
    }

    /// Forgets every event.
    pub fn clear(&mut self)
        ensures
            final(self).events@.len() == 0,
    {
        self.events.clear();
    }
}

} // verus!
