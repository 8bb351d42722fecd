//! The failures of commitment and verification.

use vstd::prelude::*;

verus! {

/// Why a commitment could not be computed or a disclosure was rejected.
#[derive(Clone, Copy, Debug, PartialEq, Eq, Structural)]
pub enum Error {
    /// The inputs have the wrong shape: the number of leaves is not a power
    /// of two, or the lists do not have matching lengths.
    InvalidInput,
    /// The root recomputed from the leaves differs from the commitment.
    CommitMismatch,
    /// The revealed preimage at this index does not hash to its selected leaf.
    PreImageMismatch(usize),
}

impl Error {
    /// The text that goes with each kind of failure.
    pub open spec fn spec_message(self) -> Seq<char> {
        match self {
            Error::InvalidInput => "input shape is not correct"@,
            Error::CommitMismatch => "commit is not correct"@,
            Error::PreImageMismatch(_) => "pre-image is not correct"@,
        }
    }

    /// A short description of the failure.
    pub fn message(&self) -> (text: String)
        ensures
            text@ == self.spec_message(),
    {
        match self {
            Error::InvalidInput => "input shape is not correct".to_owned(),
            Error::CommitMismatch => "commit is not correct".to_owned(),
            Error::PreImageMismatch(_) => "pre-image is not correct".to_owned(),
        }
    }
}

} // verus!
