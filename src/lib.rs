//! An entity-component storage engine with generational handles, per-type
//! component arenas, presence bitmasks and splittable entity views, together
//! with the small value types (vertex layouts, window settings) that the
//! engine's collaborators exchange.

pub mod arena;
pub mod bitset;
pub mod handle;
pub mod handle_pool;
pub mod mesh;
pub mod object_pool;
pub mod resource;
pub mod window;
pub mod world;
