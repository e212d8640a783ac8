//! An archetype-based entity/component store.
//!
//! Entities are plain identifiers. Each entity belongs to the archetype of its
//! layout, the ordered list of its component types; each component type has one
//! append-only storage; and a location table records, per entity, where each of
//! its values lives. `world::World` keeps the three consistent.

pub mod archetype;
pub mod entry;
pub mod location;
pub mod query;
pub mod storage;
pub mod world;
