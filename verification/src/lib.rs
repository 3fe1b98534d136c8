//! Reverse-mode automatic differentiation bookkeeping: tensors carry an
//! exclusively owned gradient tape through elementwise and reduction
//! operations, and one backward sweep over the tape yields the gradients.

pub mod scalar;
pub mod shape;
pub mod function;
pub mod array;
pub mod identity;
pub mod tape_model;
pub mod tape;
pub mod holder;
pub mod tensor;
pub mod unary_ops;
pub mod theorems;
