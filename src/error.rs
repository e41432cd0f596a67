use vstd::prelude::*;

verus! {

/// The failures of the library; `General` adds a short description to an
/// inner failure at a call boundary.
#[derive(Debug)]
pub enum Error {
    /// The texture synthesis engine failed.
    TsError(String),
    /// A file could not be read, written or decoded.
    Io(String),
    /// A copy between two images found incompatible rectangles.
    SizeMismatch,
    /// An input broke a precondition of the operation.
    InvalidInput(String),
    /// A string did not name a known variation.
    ParseError(String),
    /// The layout solver found no tile for some cell.
    Unsolvable,
    /// An inner failure with a description of where it happened.
    General(Box<Error>, String),
}

impl Error {
    /// Wraps `self` with a description.
    pub fn context(self, reason: String) -> (r: Error)
        ensures
            r == Error::General(Box::new(self), reason),
    {
        Error::General(Box::new(self), reason)
    }
}

} // verus!
