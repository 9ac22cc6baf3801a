//! The typed statements of the notation and the parser's error value.

use vstd::prelude::*;

verus! {

/// The three shape kinds a statement can have. Each kind maps to one
/// rendering primitive: `Goal` to a parallelogram, `Risk` to a
/// horizontally flipped parallelogram, `Agent` to a hexagon.
#[derive(Clone, Copy, Debug, PartialEq, Eq, Structural)]
pub enum ShapeKind {
    Goal,
    Risk,
    Agent,
}

/// One parsed source line: a shape kind and the label that stood
/// between the quote characters. An empty label is legal.
#[derive(Clone, Debug)]
pub struct Statement {
    pub kind: ShapeKind,
    pub label: String,
}

/// A line that matches no grammar alternative. Carries the 1-based
/// line number and the raw text of the offending line; the whole
/// parse aborts on the first such line.
#[derive(Clone, Debug)]
pub struct SyntaxError {
    pub line: usize,
    pub text: String,
}

} // verus!
