//! Source positions attached to HIR nodes.

use vstd::prelude::*;

verus! {

/// A 1-based line and column.
#[derive(Debug, Clone, Copy, PartialEq, Eq)]
pub struct LineColumn {
    pub line: usize,
    pub column: usize,
}

/// The source extent of a HIR node: where it starts, how many further lines
/// it spans, and the column where it ends.
#[derive(Debug, Clone, Copy, PartialEq, Eq)]
pub struct Span {
    pub start: LineColumn,
    pub lines: usize,
    pub end_column: usize,
}

} // verus!
