//! The world model: coordinates, chunks and seeds.

pub mod definition;
pub mod generator;
pub mod model;
pub mod observe;
pub mod seed;
pub mod vec;
