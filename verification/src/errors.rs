use vstd::prelude::*;

verus! {

/// A supplied alias name failed validation; nothing was stored.
#[derive(Clone, Copy, Debug, PartialEq, Eq, Structural)]
pub struct InvalidName;

/// The digest accumulator was already finalized and accepts no more bytes.
#[derive(Clone, Copy, Debug, PartialEq, Eq, Structural)]
pub struct ClosedAccumulator;

/// Writing to the staging area failed.
#[derive(Clone, Copy, Debug, PartialEq, Eq, Structural)]
pub struct IoError;

/// The atomic promotion of a staged upload failed.
#[derive(Clone, Copy, Debug, PartialEq, Eq, Structural)]
pub struct CommitError;

/// The digest or alias mapping could not be updated.
#[derive(Clone, Copy, Debug, PartialEq, Eq, Structural)]
pub struct StoreError;

/// No committed object or alias answers to the requested locator.
#[derive(Clone, Copy, Debug, PartialEq, Eq, Structural)]
pub struct NotFound;

/// Everything that can go wrong while ingesting an upload.
#[derive(Clone, Copy, Debug, PartialEq, Eq, Structural)]
pub enum UploadError {
    /// The supplied alias name failed validation.
    InvalidName,
    /// Staging I/O failed before the upload could be committed.
    Io,
    /// The atomic promotion step failed.
    Commit,
    /// The mapping tables could not be updated.
    Store,
}

} // verus!
