//! The single error surfaced by the sequence grammar.

use vstd::prelude::*;

verus! {

/// Failure of a grammar production.
///
/// Both "input exhausted" and "input present but malformed" collapse into this
/// one variant at every production boundary; a caller can only tell them apart
/// by inspecting how much input the cursor still holds.
#[derive(PartialEq, Eq, Debug)]
pub enum Error {
    InvalidSequence,
}

} // verus!
