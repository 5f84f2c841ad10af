//! The two ways an operation of the editor can fail.

use vstd::prelude::*;

verus! {

/// Why an operation was refused. Both kinds carry a message for people to read.
#[derive(Debug)]
pub enum ImageError {
    /// The input could not be turned into an image.
    LoadError(String),
    /// A transform was asked for something the current image does not allow,
    /// or the result could not be written out.
    OperationError(String),
}

impl ImageError {
    /// The message that the error carries.
    pub open spec fn text(self) -> Seq<char> {
        match self {
            ImageError::LoadError(m) => m@,
            ImageError::OperationError(m) => m@,
        }
    }

    /// The message that the error carries, for display.
    pub fn message(&self) -> (text: String)
        ensures
            text@ == self.text(),
    {
        match self {
            ImageError::LoadError(m) => m.clone(),
            ImageError::OperationError(m) => m.clone(),
        }
    }
}

} // verus!
