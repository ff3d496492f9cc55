//! A type-layout engine: given an abstract description of a composite data
//! type, it deterministically computes the physical memory representation —
//! byte size, alignment, per-member byte offsets, and (for tagged unions) the
//! discriminant encoding strategy — under either an optimizing layout policy,
//! which may reorder members to minimize size, or a fixed policy that keeps
//! declaration order for cross-boundary interoperability.

pub mod align;
pub mod descriptor;
pub mod engine;
pub mod laws;
pub mod model;
pub mod profile;
pub mod result;
