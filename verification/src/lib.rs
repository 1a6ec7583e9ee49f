//! A small entity-component simulation engine with a two-phase tick.
//!
//! Entities are bare identifiers, components are plain values attached to
//! them, and systems are behaviours that run once per tick over the entities
//! whose components match their interest. A tick first lets every system read
//! and write components, then applies the structural changes the systems asked
//! for, and finally brings every system's member set back in line with the
//! components that entities hold.

pub mod entity;
pub mod component;
pub mod store;
pub mod command;
pub mod input;
pub mod random;
pub mod system;
pub mod systems;
pub mod coordinator;
