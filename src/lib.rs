//! Static detection of aliasing violations: a permission stack per function
//! activation, a points-to graph over storage slots, and an interpreter that
//! drives both over a control-flow-graph representation of a function.

pub mod analyzer;
pub mod stacked_borrows;
pub mod text;
pub mod points_to;
pub mod mir;
pub mod mir_visitor;
pub mod semantics;
