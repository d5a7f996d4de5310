//! Scalar expressions of a query language: their evaluation against a row of
//! bound values, and their simplification before any row is known.
//!
//! [`data::expr::Expr`] is the expression tree. `row_eval` evaluates it against
//! a row, `partial_eval` simplifies it with what is known ahead of time. What
//! the two compute is defined on [`data::expr::ExprView`], the mathematical
//! form of the tree, and the executable functions are proved to compute it.
//! [`data::theorems`], [`data::equivalence`] and [`data::settled`] hold what
//! is proved of the two evaluations themselves: above all, that partial
//! evaluation does not change what an expression evaluates to.
//!
//! [`parse::sys`] reads system commands out of a parse tree.

pub mod data;
pub mod parse;
