//! Byte-level codec and evaluation-support abstractions for a Sigma
//! proposition expression tree.
//!
//! The crate provides the serialization protocol for a small, closed set of
//! expression node kinds (opcode-tagged, depth-guarded, with optional
//! constant segregation), the byte-stream primitives it is built on, the
//! per-tree constant and binding-type stores, the box-resolution arena used
//! by an evaluator to dereference on-chain objects, and the scalar codecs
//! bridging compact internal values to external textual form.

pub mod arena;
pub mod binding_store;
pub mod codec;
pub mod collection;
pub mod constant_store;
pub mod cursor;
pub mod errors;
pub mod expr;
pub mod header;
pub mod laws;
pub mod opcode;
pub mod scalar;
pub mod vlq;
