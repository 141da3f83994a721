//! The single failure kind surfaced by every operation of this layer.

use vstd::prelude::*;

verus! {

/// An opaque failure: either the constraint-system backend rejected an
/// operation, or a deferred witness provider could not produce its value.
/// The two causes are deliberately indistinguishable at this layer; a build
/// that fails anywhere is discarded in its entirety by the caller.
#[derive(Clone, Copy, Debug, PartialEq, Eq, Structural)]
pub struct SynthesisError;

} // verus!
