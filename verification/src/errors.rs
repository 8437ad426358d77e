//! The error kinds a run can end with, and the validation of the
//! invocation path that produces the first two of them. Every error kind
//! aborts the run; the two skip outcomes (non-regular entries,
//! unrecognized extensions) are not errors at all.

use vstd::prelude::*;

verus! {

/// Why a run aborted. Each variant is fatal: the first one encountered is
/// returned and no further entry is processed.
#[derive(Clone, Copy, Debug, PartialEq, Eq, Structural)]
pub enum Error {
    /// The supplied path was the empty string.
    InvalidInput,
    /// The path could not be opened as a directory listing.
    InvalidPath,
    /// A directory-iteration step itself failed.
    InvalidEntry,
    /// A file's metadata or creation timestamp could not be read or
    /// converted to a calendar date.
    MetadataError,
    /// No extension could be derived from an entry's name.
    NameExtractionError,
    /// The filesystem rename call failed.
    RenameError,
}

impl Error {
    /// The human-readable line reported when the run aborts.
    pub fn message(&self) -> (r: &'static str)
        ensures
            *self == Error::InvalidInput ==> r@ == "Please provide a non empty path"@,
            *self == Error::InvalidPath ==> r@ == "Invalid path directory"@,
            *self == Error::InvalidEntry ==> r@ == "Invalid file"@,
            *self == Error::MetadataError ==> r@ == "Cannot read or convert the creation time"@,
            *self == Error::NameExtractionError ==> r@ == "Cannot extract filename and extension"@,
            *self == Error::RenameError ==> r@ == "Cannot rename the file"@,
    {
        match self {
            Error::InvalidInput => "Please provide a non empty path",
            Error::InvalidPath => "Invalid path directory",
            Error::InvalidEntry => "Invalid file",
            Error::MetadataError => "Cannot read or convert the creation time",
            Error::NameExtractionError => "Cannot extract filename and extension",
            Error::RenameError => "Cannot rename the file",
        }
    }
}

/// Validates the invocation path ahead of any directory work: an empty path
/// is rejected outright; a path the caller could not open as a directory
/// listing is rejected next. `openable` reports the outcome of that probe.
pub fn verify_path(path: &str, openable: bool) -> (r: Result<(), Error>)
    ensures
        path@.len() == 0 ==> r == Err::<(), Error>(Error::InvalidInput),
        path@.len() > 0 && !openable ==> r == Err::<(), Error>(Error::InvalidPath),
        path@.len() > 0 && openable ==> r == Ok::<(), Error>(()),
{
    if path.is_empty() {
        return Err(Error::InvalidInput);
    }
    if !openable {
        return Err(Error::InvalidPath);
    }
    Ok(())
}

} // verus!
