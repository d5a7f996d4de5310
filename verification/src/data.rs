//! The value model, the expression tree and the two ways of evaluating it.

pub mod equivalence;
pub mod eval;
pub mod expr;
pub mod op;
pub mod settled;
pub mod theorems;
pub mod value;
