use std::cell::Cell;
use std::collections::HashMap;
use voxel_server::server::model::{key_of, Block, Chunk, World};
use voxel_server::server::observe::{Observable, Observer};
use voxel_server::server::seed::{Seed, SeedError};
use voxel_server::server::vec::{linear_index, quot_rem_i, quot_rem_vec3i, Vec3};

#[test]
fn quot_rem_rounds_down_for_a_positive_divisor() {
    assert_eq!(quot_rem_i(25, 10), (2, 5));
    assert_eq!(quot_rem_i(0, 10), (0, 0));
    assert_eq!(quot_rem_i(-1, 10), (-1, 9));
    assert_eq!(quot_rem_i(-10, 10), (-1, 0));
    assert_eq!(quot_rem_i(-11, 10), (-2, 9));
    assert_eq!(quot_rem_i(i32::MIN, 1), (i32::MIN, 0));
    assert_eq!(quot_rem_i(i32::MIN, 2), (-1073741824, 0));
    assert_eq!(quot_rem_i(i32::MAX, i32::MAX), (1, 0));
    assert_eq!(quot_rem_i(i32::MIN, i32::MAX), (-2, 2147483646));
}

#[test]
fn quot_rem_with_a_negative_divisor() {
    assert_eq!(quot_rem_i(7, -2), (-3, 1));
    assert_eq!(quot_rem_i(-8, -2), (4, 0));
    assert_eq!(quot_rem_i(-7, -2), (2, -3));
    assert_eq!(quot_rem_i(0, -5), (0, 0));
}

#[test]
fn quot_rem_vec3i_divides_each_coordinate() {
    let (chunk, place) = quot_rem_vec3i(&Vec3(25, -1, -20), &Vec3(10, 10, 10));
    assert_eq!(chunk, Vec3(2, -1, -2));
    assert_eq!(place, Vec3(5, 9, 0));
}

#[test]
fn linear_index_follows_its_formula() {
    assert_eq!(linear_index(&Vec3(0, 0, 0), &Vec3(10, 10, 10)), 0);
    assert_eq!(linear_index(&Vec3(1, 2, 3), &Vec3(10, 10, 10)), 81);
    assert_eq!(linear_index(&Vec3(5, 5, 5), &Vec3(10, 10, 10)), 155);
    assert_eq!(linear_index(&Vec3(1, 2, 3), &Vec3(4, 7, 100)), 1 + 2 * 4 + 3 * 11);
}

#[test]
fn linear_index_of_a_negative_offset_wraps() {
    assert_eq!(linear_index(&Vec3(-1, 0, 0), &Vec3(10, 10, 10)), usize::MAX);
    assert_eq!(linear_index(&Vec3(0, -1, 0), &Vec3(10, 10, 10)), usize::MAX - 9);
    assert_eq!(linear_index(&Vec3(i32::MIN, 0, 0), &Vec3(1, 1, 1)), usize::MAX - 2147483647);
}

fn blocks(n: usize) -> Vec<Block> {
    let mut blocks = Vec::new();
    for _ in 0..n {
        blocks.push(Block {});
    }
    blocks
}

#[test]
fn chunk_finds_blocks_within_its_store() {
    let chunk = Chunk { chunk_size: Vec3(10, 10, 10), blocks: blocks(156) };
    assert!(chunk.get_block_at(&Vec3(0, 0, 0)).is_some());
    assert!(chunk.get_block_at(&Vec3(5, 5, 5)).is_some());
    assert!(chunk.get_block_at(&Vec3(6, 5, 5)).is_none());
    assert!(chunk.get_block_at(&Vec3(-1, 0, 0)).is_none());
}

#[test]
fn world_finds_the_block_of_a_position() {
    let chunk_size = Vec3(10, 10, 10);
    let mut chunks = HashMap::new();
    for x in -5..=5 {
        for y in -5..=5 {
            for z in -5..=5 {
                chunks.insert(key_of(&Vec3(x, y, z)), Chunk { chunk_size, blocks: blocks(1000) });
            }
        }
    }
    let world = World { world_size: Vec3(5, 5, 5), chunk_size, chunks };

    assert!(world.get_block_at(&Vec3(25, 25, 25)).is_some());
    assert!(world.get_block_at(&Vec3(-1, -1, -1)).is_some());
    assert!(world.get_block_at(&Vec3(-50, -50, -50)).is_some());
    assert!(world.get_block_at(&Vec3(60, 0, 0)).is_none());
    assert!(world.get_block_at(&Vec3(-51, 0, 0)).is_none());
    assert!(world.get_chunk_at(&Vec3(5, -5, 0)).is_some());
    assert!(world.get_chunk_at(&Vec3(6, 0, 0)).is_none());
}

#[test]
fn world_keeps_chunks_apart_by_position() {
    let mut world = World::new(Vec3(1, 1, 1), Vec3(2, 2, 2));
    assert!(world.get_chunk_at(&Vec3(0, 0, 0)).is_none());
    assert!(world.insert_chunk(Vec3(0, 0, 1), Chunk { chunk_size: Vec3(2, 2, 2), blocks: blocks(1) }).is_none());
    assert!(world.insert_chunk(Vec3(0, 1, 0), Chunk { chunk_size: Vec3(2, 2, 2), blocks: blocks(2) }).is_none());
    assert!(world.insert_chunk(Vec3(1, 0, 0), Chunk { chunk_size: Vec3(2, 2, 2), blocks: blocks(3) }).is_none());
    assert!(world.insert_chunk(Vec3(-1, 0, 0), Chunk { chunk_size: Vec3(2, 2, 2), blocks: blocks(4) }).is_none());
    assert_eq!(world.get_chunk_at(&Vec3(0, 0, 1)).unwrap().blocks.len(), 1);
    assert_eq!(world.get_chunk_at(&Vec3(0, 1, 0)).unwrap().blocks.len(), 2);
    assert_eq!(world.get_chunk_at(&Vec3(1, 0, 0)).unwrap().blocks.len(), 3);
    assert_eq!(world.get_chunk_at(&Vec3(-1, 0, 0)).unwrap().blocks.len(), 4);
    assert!(world.get_chunk_at(&Vec3(0, 0, 0)).is_none());
    let replaced = world.insert_chunk(Vec3(1, 0, 0), Chunk { chunk_size: Vec3(2, 2, 2), blocks: blocks(9) });
    assert_eq!(replaced.unwrap().blocks.len(), 3);
    assert_eq!(world.get_chunk_at(&Vec3(1, 0, 0)).unwrap().blocks.len(), 9);
    assert_eq!(world.world_size, Vec3(1, 1, 1));
    assert_eq!(world.chunk_size, Vec3(2, 2, 2));
}

#[test]
fn chunk_keys_order_the_coordinates() {
    assert_eq!(key_of(&Vec3(i32::MIN, i32::MIN, i32::MIN)), 0);
    assert_eq!(key_of(&Vec3(i32::MIN, i32::MIN, i32::MIN + 1)), 1);
    assert_eq!(key_of(&Vec3(i32::MIN, i32::MIN + 1, i32::MIN)), 1u128 << 32);
    assert_eq!(key_of(&Vec3(i32::MIN + 1, i32::MIN, i32::MIN)), 1u128 << 64);
    assert_eq!(key_of(&Vec3(i32::MAX, i32::MAX, i32::MAX)), (1u128 << 96) - 1);
}

#[test]
fn seed_reads_its_base64_text() {
    let text = "AAECAwQFBgcICQoLDA0ODxAREhMUFRYXGBkaGxwdHh8=";
    let seed = Seed::from_str(text).unwrap();
    let expected: Vec<u8> = (0..32).collect();
    assert_eq!(&seed.raw_value[..], &expected[..]);
    assert_eq!(seed.to_string(), text);
    let parsed: Seed = text.parse().unwrap();
    assert_eq!(parsed.raw_value, seed.raw_value);
}

#[test]
fn seed_writes_its_base64_text() {
    let seed = Seed { raw_value: [13; 32] };
    assert_eq!(seed.to_string(), "DQ0NDQ0NDQ0NDQ0NDQ0NDQ0NDQ0NDQ0NDQ0NDQ0NDQ0=");
    assert_eq!(Seed::from_str(&seed.to_string()).unwrap().raw_value, [13; 32]);
}

#[test]
fn seed_of_another_length_is_refused() {
    assert_eq!(Seed::from_str("").err(), Some(SeedError::InvalidLength));
    assert_eq!(Seed::from_str("aGVsbG8gd29ybGQ=").err(), Some(SeedError::InvalidLength));
    assert_eq!(Seed::from_str("AAECAwQFBgcICQoLDA0ODxAREhMUFRYXGBkaGxwdHh8g").err(), Some(SeedError::InvalidLength));
}

#[test]
fn seed_text_that_is_not_base64_is_refused() {
    assert_eq!(Seed::from_str("a").err(), Some(SeedError::InvalidLength));
    assert_eq!(Seed::from_str("!AECAwQFBgcICQoLDA0ODxAREhMUFRYXGBkaGxwdHh8=").err(), Some(SeedError::InvalidByte(0, b'!')));
    assert_eq!(Seed::from_str("AAECAwQFBgcICQoLDA0ODxAREhMUFRYXGBkaGxwdHh9=").err(), Some(SeedError::InvalidLastSymbol(42, b'9')));
}

#[test]
fn seed_parses_as_from_str_reads() {
    let good = "DQ0NDQ0NDQ0NDQ0NDQ0NDQ0NDQ0NDQ0NDQ0NDQ0NDQ0=";
    assert_eq!(good.parse::<Seed>().unwrap().raw_value, [13; 32]);
    assert_eq!("aGVsbG8gd29ybGQ=".parse::<Seed>().err(), Some(SeedError::InvalidLength));
    assert_eq!("!Q==".parse::<Seed>().err(), Some(SeedError::InvalidByte(0, b'!')));
}

#[test]
fn seed_from_decoded_passes_errors_on() {
    assert_eq!(Seed::from_decoded(Err(SeedError::InvalidByte(3, 7))).err(), Some(SeedError::InvalidByte(3, 7)));
    assert_eq!(Seed::from_decoded(Ok(vec![1; 31])).err(), Some(SeedError::InvalidLength));
    assert_eq!(Seed::from_decoded(Ok(vec![1; 33])).err(), Some(SeedError::InvalidLength));
    assert_eq!(Seed::from_decoded(Ok(vec![1; 32])).unwrap().raw_value, [1; 32]);
}

struct Counter {
    told: Cell<i32>,
}

impl Observer<i32> for Counter {
    fn notify(&self, value: &i32) {
        self.told.set(self.told.get() + *value);
    }
}

struct Watched<'a> {
    value: i32,
    observers: Vec<&'a dyn Observer<i32>>,
}

impl<'a> Observable<'a, i32> for Watched<'a> {
    fn subscribe_observer(&mut self, observer: &'a impl Observer<i32>) {
        self.observers.push(observer);
    }

    fn get_value(&'a self) -> &'a i32 {
        &self.value
    }

    fn get_observers(&self) -> &[&dyn Observer<i32>] {
        &self.observers
    }
}

#[test]
fn every_observer_is_told_once() {
    let first = Counter { told: Cell::new(0) };
    let second = Counter { told: Cell::new(100) };
    let mut watched = Watched { value: 7, observers: Vec::new() };
    watched.notify_observers();
    watched.subscribe_observer(&first);
    watched.subscribe_observer(&second);
    watched.subscribe_observer(&first);
    watched.notify_observers();
    assert_eq!(first.told.get(), 14);
    assert_eq!(second.told.get(), 107);
}
