//! What can go wrong while a file is loaded.

use vstd::prelude::*;
use vstd::std_specs::convert::FromSpecImpl;

verus! {

/// The opaque type of the errors that reading a file gives.
#[verifier::external_type_specification]
#[verifier::external_body]
pub struct ExIoError(std::io::Error);

/// Why a file was not loaded.
#[derive(Debug, Clone, Copy, PartialEq, Eq, Structural)]
pub enum BinpareError {
    /// The file could not be inspected or read.
    IoError,
    /// The file is larger than the comparison accepts.
    FileTooLarge,
}

impl From<std::io::Error> for BinpareError {
    fn from(_err: std::io::Error) -> (error: Self) {
        BinpareError::IoError
    }
}

impl FromSpecImpl<std::io::Error> for BinpareError {
    open spec fn obeys_from_spec() -> bool {
        true
    }

    /// Every read error is reported as [`BinpareError::IoError`].
    open spec fn from_spec(_err: std::io::Error) -> Self {
        BinpareError::IoError
    }
}

} // verus!
