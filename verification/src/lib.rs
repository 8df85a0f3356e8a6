//! One step of a cellular automaton on a toroidal hexagonal grid, with a
//! per-cell trace of the rule that fired, a histogram of rule usage, and an
//! order-sensitive checksum over byte buffers.

pub mod checksum;
pub mod tick;
pub mod topology;
pub mod world;

pub use world::{TickError, World};
