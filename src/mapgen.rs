//! Seed of procedural terrain generation.
use vstd::prelude::*;

verus! {

/// Generates terrain from a seed.
#[derive(Debug, Clone, Copy, PartialEq, Eq, Structural)]
pub struct MapGenerator {
    pub seed: u32,
}

impl MapGenerator {
    pub fn new(seed: u32) -> (r: MapGenerator)
        ensures
            r.seed == seed,
    {
        MapGenerator { seed }
    }
}

} // verus!
