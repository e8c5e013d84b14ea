//! Blocks, chunks of blocks, and the world that holds the chunks.

use crate::server::vec::linear_index;
use crate::server::vec::linear_index_defined;
use crate::server::vec::linear_offset;
use crate::server::vec::offset_as_index;
use crate::server::vec::quot_rem_vec3i;
use crate::server::vec::quot_rem_vec3i_defined;
use crate::server::vec::spec_quot;
use crate::server::vec::spec_rem;
use crate::server::vec::Vec3;
use crate::server::vec::Vec3i;
use std::collections::HashMap;
use vstd::prelude::*;

verus! {

/// One block of the world.
#[derive(Debug)]
pub struct Block {}

/// A box of blocks, stored in the order of their linear index.
#[derive(Debug)]
pub struct Chunk {
    pub chunk_size: Vec3i,
    pub blocks: Vec<Block>,
}

impl Chunk {
    /// The index into `blocks` that stands for `position`.
    pub open spec fn index_of(&self, position: Vec3i) -> int {
        offset_as_index(linear_offset(position, self.chunk_size))
    }

    /// The block that the chunk stores for `position`, if it stores one.
    pub open spec fn block_at(&self, position: Vec3i) -> Option<&Block> {
        if self.index_of(position) < self.blocks@.len() {
            Some(&self.blocks@[self.index_of(position)])
        } else {
            None
        }
    }

    /// The block at `position`, if the chunk stores one there.
    pub fn get_block_at(&self, position: &Vec3i) -> (block: Option<&Block>)
        requires
            linear_index_defined(*position, self.chunk_size),
        ensures
            block == self.block_at(*position),
    {
        let index = linear_index(position, &self.chunk_size);
        self.blocks.as_slice().get(index)
    }
}

/// The key under which the chunk at `position` is stored: the three
/// coordinates, each moved into `0..2^32`, as the digits of one number.
pub open spec fn chunk_key(position: Vec3i) -> u128 {
    ((position.0 + 0x8000_0000) * 0x1_0000_0000_0000_0000 + (position.1 + 0x8000_0000)
        * 0x1_0000_0000 + (position.2 + 0x8000_0000)) as u128
}

/// Different positions have different keys.
pub proof fn lemma_chunk_key_injective(a: Vec3i, b: Vec3i)
    requires
        chunk_key(a) == chunk_key(b),
    ensures
        a == b,
{
}

/// The key under which the chunk at `position` is stored.
pub fn key_of(position: &Vec3i) -> (key: u128)
    ensures
        key == chunk_key(*position),
{
    let x: u128 = (position.0 as i64 + 0x8000_0000) as u128;
    let y: u128 = (position.1 as i64 + 0x8000_0000) as u128;
    let z: u128 = (position.2 as i64 + 0x8000_0000) as u128;
    x * 0x1_0000_0000_0000_0000 + y * 0x1_0000_0000 + z
}

/// The chunks of a world, each under the key of its position.
#[derive(Debug)]
pub struct World {
    pub world_size: Vec3i,
    pub chunk_size: Vec3i,
    pub chunks: HashMap<u128, Chunk>,
}

impl World {
    /// The chunks that the world holds, by position.
    pub open spec fn chunks(&self) -> Map<Vec3i, Chunk> {
        Map::new(
            |position: Vec3i| self.chunks@.contains_key(chunk_key(position)),
            |position: Vec3i| self.chunks@[chunk_key(position)],
        )
    }

    /// The chunk at `position`, if the world holds one there.
    pub open spec fn chunk_at(&self, position: Vec3i) -> Option<&Chunk> {
        if self.chunks().contains_key(position) {
            Some(&self.chunks()[position])
        } else {
            None
        }
    }

    /// The chunk that the world position `position` lies in.
    pub open spec fn chunk_of(&self, position: Vec3i) -> Vec3i {
        Vec3(
            spec_quot(position.0 as int, self.chunk_size.0 as int) as i32,
            spec_quot(position.1 as int, self.chunk_size.1 as int) as i32,
            spec_quot(position.2 as int, self.chunk_size.2 as int) as i32,
        )
    }

    /// The place of the world position `position` within its chunk.
    pub open spec fn place_in_chunk(&self, position: Vec3i) -> Vec3i {
        Vec3(
            spec_rem(position.0 as int, self.chunk_size.0 as int) as i32,
            spec_rem(position.1 as int, self.chunk_size.1 as int) as i32,
            spec_rem(position.2 as int, self.chunk_size.2 as int) as i32,
        )
    }

    /// The block at the world position `position`: the block that the chunk
    /// it lies in stores for its place there.
    pub open spec fn block_at(&self, position: Vec3i) -> Option<&Block> {
        match self.chunk_at(self.chunk_of(position)) {
            Some(chunk) => chunk.block_at(self.place_in_chunk(position)),
            None => None,
        }
    }

    /// Whether `get_block_at` can look `position` up: the division by the
    /// chunk extent is defined, and so is the index into the chunk found.
    pub open spec fn block_lookup_defined(&self, position: Vec3i) -> bool {
        &&& quot_rem_vec3i_defined(position, self.chunk_size)
        &&& match self.chunk_at(self.chunk_of(position)) {
            Some(chunk) => linear_index_defined(self.place_in_chunk(position), chunk.chunk_size),
            None => true,
        }
    }

    /// A world of the given extents that holds no chunk yet.
    pub fn new(world_size: Vec3i, chunk_size: Vec3i) -> (world: Self)
        ensures
            world.world_size == world_size,
            world.chunk_size == chunk_size,
            world.chunks() == Map::<Vec3i, Chunk>::empty(),
    {
        let world = World { world_size, chunk_size, chunks: HashMap::new() };
        proof {
            assert(world.chunks() =~= Map::<Vec3i, Chunk>::empty());
        }
        world
    }

    /// Stores `chunk` at `position` and returns the chunk that was there.
    pub fn insert_chunk(&mut self, position: Vec3i, chunk: Chunk) -> (replaced: Option<Chunk>)
        ensures
            final(self).world_size == old(self).world_size,
            final(self).chunk_size == old(self).chunk_size,
            final(self).chunks() == old(self).chunks().insert(position, chunk),
            replaced == (if old(self).chunks().contains_key(position) {
                Some(old(self).chunks()[position])
            } else {
                None
            }),
    {
        let replaced = self.chunks.insert(key_of(&position), chunk);
        proof {
            assert forall|other: Vec3i| chunk_key(other) == chunk_key(position) implies other
                == position by {
                lemma_chunk_key_injective(other, position);
            }
            assert(self.chunks() =~= old(self).chunks().insert(position, chunk));
        }
        replaced
    }

    /// The chunk at `position`, if the world holds one there.
    pub fn get_chunk_at(&self, position: &Vec3i) -> (chunk: Option<&Chunk>)
        ensures
            chunk == self.chunk_at(*position),
    {
        let key = key_of(position);
        self.chunks.get(&key)
    }

    /// The block at the world position `position`, if the world holds the
    /// chunk it lies in and that chunk stores a block there.
    pub fn get_block_at(&self, position: &Vec3i) -> (block: Option<&Block>)
        requires
            self.block_lookup_defined(*position),
        ensures
            block == self.block_at(*position),
    {
        let (world_position, chunk_position) = quot_rem_vec3i(position, &self.chunk_size);
        match self.get_chunk_at(&world_position) {
            Some(chunk) => chunk.get_block_at(&chunk_position),
            None => None,
        }
    }
}

} // verus!

