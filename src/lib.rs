//! A schema-driven record store over fixed-capacity byte slots.
//!
//! Slots are allocated and addressed by a host; this library only reads and
//! writes bytes inside a slot's existing capacity. Records are layered: a
//! versioned header, registries of slot keys, tenants that issue ids,
//! schemas of typed fields, and instances of schemas.

mod error;
mod slot;
pub mod codec;
pub mod crud;
pub mod storage;
pub mod project;
pub mod template;
pub mod object;
pub mod instruction;

pub use error::StoreError;
pub use slot::{Key, Slot};
