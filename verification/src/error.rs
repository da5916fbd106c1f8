//! The errors the engine can surface. All are terminal for the current
//! document: the first one is propagated to the caller, which decides what
//! to do with the partially transformed tree.

use vstd::prelude::*;

verus! {

/// Why a transformation was refused.
#[derive(Debug)]
pub enum StripError {
    /// A malformed extra-key entry (no namespace), or a pattern that does
    /// not compile; carries the offending text.
    Configuration(String),
    /// A structurally invalid document: an expected field is missing, or a
    /// node has the wrong type where a specific one is required.
    MalformedDocument,
    /// A cell's `keep_output = false` flag conflicts with a `keep_output`
    /// tag.
    ContradictoryMetadata,
}

/// The mathematical model of a [`StripError`].
#[verifier::ext_equal]
pub enum ErrV {
    Configuration(Seq<char>),
    MalformedDocument,
    ContradictoryMetadata,
}

impl View for StripError {
    type V = ErrV;

    open spec fn view(&self) -> ErrV {
        match self {
            StripError::Configuration(s) => ErrV::Configuration(s@),
            StripError::MalformedDocument => ErrV::MalformedDocument,
            StripError::ContradictoryMetadata => ErrV::ContradictoryMetadata,
        }
    }
}

} // verus!
