use vstd::prelude::*;

verus! {

/// A source position: file id, 1-based line and 1-based column.
#[derive(Debug, Clone, Copy, PartialEq, Eq, Structural)]
pub struct Span {
    pub file: u32,
    pub line: u32,
    pub col: u32,
}

impl Span {
    pub fn new(file: u32, line: u32, col: u32) -> (s: Span)
        ensures
            s.file == file,
            s.line == line,
            s.col == col,
    {
        Span { file, line, col }
    }
}

} // verus!
