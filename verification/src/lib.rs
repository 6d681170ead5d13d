//! Storage core of an entity-component architecture.
//!
//! Entities are small integer handles drawn from a fixed universe and
//! recycled first-in, first-out; components are kept in packed, per-type
//! stores whose removal is a constant-time swap with the last slot.

pub mod component;
pub mod entity;
pub mod lifecycle;
pub mod packed;
pub mod signature;
