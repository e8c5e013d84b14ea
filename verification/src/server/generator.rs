//! Generating a world from its definition.

use crate::server::model::World;
use crate::server::seed::Seed;
use crate::server::vec::Vec3i;
use vstd::prelude::*;

verus! {

/// What a generator makes a world from.
#[derive(Debug, Clone, Copy)]
pub struct WorldDefinition {
    pub seed: Seed,
    pub world_size: Vec3i,
    pub chunk_size: Vec3i,
}

/// Something that makes a world from a definition.
pub trait WorldGenerator {
    fn generate(&self, definition: WorldDefinition) -> World;
}

} // verus!
