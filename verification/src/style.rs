use vstd::prelude::*;

verus! {

/// How the characters of a cell are drawn.
#[derive(Debug, Clone, Copy, PartialEq, Eq, Structural)]
pub enum CharStyle {
    Default,
    Bold,
    Reverse,
    Italic,
}

/// The colour scheme a cell is drawn in; the theme maps it to colours.
#[derive(Debug, Clone, Copy, PartialEq, Eq, Structural)]
pub enum Colors {
    Default,
    Focused,
    Inverted,
    Insert,
    Warning,
    PathMode,
    SearchMode,
    SelectMode,
}

} // verus!
