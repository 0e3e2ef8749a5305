//! S-expression trees over an arena, their canonical byte encoding, the
//! operator type catalog, and a type-directed generator of sample programs.

pub mod catalog;
pub mod codec;
pub mod corpus;
pub mod generator;
pub mod node;
pub mod sexp;
