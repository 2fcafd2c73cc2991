//! Core of a content-addressed contract runtime: a sandboxed VM host that
//! invokes bytecode contract entry points over opaque byte buffers, together
//! with the data model of an anti-flood token allocation contract — a tiered
//! temporal schedule of cryptographically signed slot assignments.

pub mod assignment;
pub mod bundle;
pub mod bytes;
pub mod datetime;
pub mod payload;
pub mod record;
pub mod runtime;
pub mod store;
pub mod tier;
