//! The closed set of reasons a patch or unpatch operation can fail.

use vstd::prelude::*;

verus! {

/// Every failure an operation on the binary can report. The set is closed:
/// a failure is either a logic error in the patch catalog, a corrupted or
/// updated target binary, or an I/O failure around the engine.
#[derive(Clone, Copy, Debug, PartialEq, Eq, Structural)]
pub enum PatchError {
    /// The user selected neither patch nor unpatch.
    StrangeInputError,
    /// The target binary could not be opened.
    MissingBinary,
    /// The binary or a region of it could not be read: offset out of bounds.
    ReadFail,
    /// The result could not be written back.
    WriteFail,
    /// The target region already holds the patched form.
    AlreadyPatched,
    /// The target region already holds the original form.
    AlreadyUnpatched,
    /// The target region matches neither expected form: version mismatch
    /// or tampering.
    BinaryModified,
}

impl PatchError {
    /// The human-readable message for this failure.
    pub fn message(&self) -> (m: &'static str)
        ensures
            self is StrangeInputError ==> m@ == "Nothing happened."@,
            self is MissingBinary ==> m@ == "Err: Could not find hyperdemon.exe!"@,
            self is ReadFail ==> m@ == "Err: An error occured while reading the game binary!"@,
            self is WriteFail ==> m@ == "Err: Something went wrong while writing to the game binary!"@,
            self is AlreadyPatched ==> m@ == "Err: The game is already patched!"@,
            self is AlreadyUnpatched ==> m@ == "Err: The game is already unpatched!"@,
            self is BinaryModified ==> m@ == "Err: The game has been modifed (was there an update?)"@,
    {
        match self {
            PatchError::StrangeInputError => "Nothing happened.",
            PatchError::MissingBinary => "Err: Could not find hyperdemon.exe!",
            PatchError::ReadFail => "Err: An error occured while reading the game binary!",
            PatchError::WriteFail => "Err: Something went wrong while writing to the game binary!",
            PatchError::AlreadyPatched => "Err: The game is already patched!",
            PatchError::AlreadyUnpatched => "Err: The game is already unpatched!",
            PatchError::BinaryModified => "Err: The game has been modifed (was there an update?)",
        }
    }
}

} // verus!
