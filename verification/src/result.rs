//! Error type shared by the document-processing side of the library.

use vstd::prelude::*;

verus! {

/// An error surfaced while turning a fetched document into data points:
/// either some part of the document could not be parsed, or the extracted
/// metric arrays disagree in length with the timestamp list.
#[derive(Debug, Clone, PartialEq, Eq)]
pub enum SimpleError {
    /// A malformed numeric literal, a malformed timestamp, or a missing
    /// document section.
    Parse(String),
    /// A metric array whose length differs from the timestamp count.
    Alignment(String),
}

impl SimpleError {
    /// The human-readable description carried by the error.
    pub fn message(&self) -> (r: &String)
        ensures
            r@ == self.message_view(),
    {
        match self {
            SimpleError::Parse(m) => m,
            SimpleError::Alignment(m) => m,
        }
    }

    /// The description of the error, as a sequence of characters.
    pub open spec fn message_view(&self) -> Seq<char> {
        match self {
            SimpleError::Parse(m) => m@,
            SimpleError::Alignment(m) => m@,
        }
    }
}

pub type SimpleResult<T> = Result<T, SimpleError>;

} // verus!
