//! Verified byte-patching engine: region substitutions on an in-memory
//! binary image, with detection of already-applied and tampered states,
//! and ordered, fail-fast composition of many substitutions.

pub mod errors;
pub mod laws;
pub mod patch;

pub use errors::PatchError;
pub use patch::Action;
pub use patch::Patch;
pub use patch::PatchDescriptor;
pub use patch::choose_action;
