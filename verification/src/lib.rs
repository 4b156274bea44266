//! Constraint extraction and solving for a small CAD description language.

pub mod text;
pub mod span;
pub mod lexer;
pub mod hir;
pub mod expr_model;
pub mod solver;
