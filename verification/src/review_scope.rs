//! Where the reviewed candidate comes from.
use vstd::prelude::*;

verus! {

/// The source of the candidate bytes under review.
#[derive(Debug, Clone, Copy, PartialEq, Eq, Structural)]
pub enum ReviewSource {
    Staged,
    Unstaged,
    Branch,
}

} // verus!
