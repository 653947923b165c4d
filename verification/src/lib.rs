//! A reverse-mode automatic-differentiation engine over an append-only
//! arena of tensors.
//!
//! `graph` holds the engine: allocation, the forward and backward passes
//! and the optimizer step, with their models and the laws proved of them.
//! `funcs` holds the operations and losses that a graph records, `tensor`
//! and `shape` the dense tensors they compute on, and `scalar` the
//! arithmetic of tensor elements. `tokenizer` turns text into token ids
//! and back.

pub mod funcs;
pub mod graph;
pub mod optimizer;
pub mod random;
pub mod scalar;
pub mod shape;
pub mod tensor;
pub mod tokenizer;
