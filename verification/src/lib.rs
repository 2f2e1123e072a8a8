//! Reaction pipeline of a tile-based simulation.
//!
//! A proposed change to the world is judged by [`policy::check`] against a
//! read-only snapshot of the entity store and the spatial hash.  The verdict
//! comes with reaction descriptors, which [`scheduler::Scheduler`] turns into
//! live animations, and those are advanced by elapsed time until they hand out
//! further changes.
//!
//! All quantities are integers: time is counted in nanoseconds, positions in
//! thousandths of a cell, and other scalars that a presentation layer reads as
//! fractions are carried in thousandths as well.
//!
//! Around the pipeline stand the world it reads ([`entity_store`],
//! [`spatial_hash`]), the entities and the terrain that fill that world
//! ([`prototype`], [`terrain`]), the search for ways through it ([`search`]),
//! and the tables that a presentation layer keeps of it ([`renderer`]).

pub mod coord;
pub mod direction;
pub mod content;
pub mod entity_store;
pub mod static_grid;
pub mod spatial_hash;
pub mod policy;
pub mod scheduler;
pub mod renderer;
pub mod frontend;
pub mod dijkstra_map;
pub mod search;
pub mod prototype;
pub mod entity_id_allocator;
pub mod terrain;
