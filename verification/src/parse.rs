//! What is read out of a parse tree.

pub mod sys;
