//! Byte layout of aggregate values: where each field of a struct-like value
//! lands under declaration order, size-optimised reordering, or packing, and
//! a few small ownership examples.
pub mod arith;
pub mod laws;
pub mod layout;
pub mod memory;
