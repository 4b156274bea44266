//! Turning a resolved program into a constraint problem and solving it.

pub mod recursive_struct_detector;
pub mod struct_flattener;
pub mod constraint_extractor;
pub mod path;
pub mod z3_api;
pub mod z3_bridge;
pub mod solution_formatter;
pub mod function_inliner;
pub mod rune_code;
pub mod context;

pub use path::{PathComponent, VariablePath};
pub mod solve_loop;
pub mod expr_solver;
pub mod stmt_solver;
