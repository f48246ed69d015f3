use vstd::prelude::*;

verus! {

/// Why an upload was given up. Every error is fatal to the upload it belongs to.
#[derive(Clone, Copy, Debug, PartialEq, Eq, Structural)]
pub enum UploadError {
    /// The source holds no bytes; nothing is sent.
    EmptyFile,
    /// The file needs more parts than the store accepts; a larger chunk size is needed.
    TooManyParts,
    /// The store did not accept the part with this number.
    PartUpload { part_number: u32 },
    /// The parts offered for the commit are not exactly the parts of the plan.
    IncompleteUpload,
    /// Opening or committing the session failed, or the session was already used up.
    Session,
}

} // verus!
