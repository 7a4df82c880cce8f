//! A single-pass compiler from the eight-symbol tape language to x86-64
//! assembly, with its output kept as structured lines.

pub mod command;
pub mod coalesce;
pub mod labels;
pub mod listing;
pub mod loops;
pub mod compiler;
pub mod laws;
pub mod machine;
