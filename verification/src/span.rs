//! Source locations.
use vstd::prelude::*;

use crate::strings::GlobalIdentifier;

verus! {

/// The name of an input file, interned.
#[derive(Copy, Clone, Debug, PartialEq, Eq, Structural, Hash)]
pub struct FileName {
    pub id: GlobalIdentifier,
}

/// A range of byte offsets `start..end` in a file.
#[derive(Copy, Clone, Debug, PartialEq, Eq, Structural, Hash)]
pub struct Span {
    pub file: FileName,
    pub start: usize,
    pub end: usize,
}

impl Span {
    pub fn new(file: FileName, start: usize, end: usize) -> (r: Span)
        ensures
            r == (Span { file, start, end }),
    {
        Span { file, start, end }
    }

    /// The file this span lies in.
    pub fn file(&self) -> (r: FileName)
        ensures
            r == self.file,
    {
        self.file
    }
}

} // verus!
