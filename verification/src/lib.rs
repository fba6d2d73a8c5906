//! Collider: a relational entity database with cacheable queries.
//!
//! The crate keeps the bookkeeping of an entity database: identifiers, component
//! sets, families of entities that share the same components, the tables which
//! lay out their rows, the column operations that keep rows dense, the entity
//! allocator, and the conflict graph that partitions transformations into
//! groups which may run together.

pub mod commutative;
pub mod id;
pub mod tyid;
pub mod component;
pub mod borrowed;
pub mod error;
pub mod column;
pub mod entity;
pub mod table;
pub mod transfer;
pub mod family;
pub mod conflict;
pub mod family_set;
pub mod mapping;
pub mod database;
pub mod transform;
pub mod spatial;
pub mod select;
pub mod selection;
