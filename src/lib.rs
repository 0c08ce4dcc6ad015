//! Lowering of a small imperative language's syntax tree into textual,
//! basic-block-structured IR.

pub mod token;
pub mod node;
pub mod ir;
pub mod setting;
pub mod tree2code;
