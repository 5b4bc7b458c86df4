//! Crate-wide error type.

use vstd::prelude::*;

verus! {

/// Errors reported by the library's operations.
#[derive(Debug)]
pub enum BioError {
    /// A function argument was out of range or otherwise invalid.
    InvalidParameterError(String),
    /// File path does not end with a recognized sequence file extension.
    InvalidFileExtensionError(String),
    /// The specified file path does not exist on disk.
    FileDoesNotExistError(String),
}

} // verus!
