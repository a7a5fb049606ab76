//! Turns a row/column specification, and optionally a comma-separated text
//! source, into a LaTeX `table`/`tabular` block.

pub mod arguments;
pub mod column_def;
pub mod formatter;
pub mod text;
