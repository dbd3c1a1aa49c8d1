//! A word-alignment link: a pairing of a source-side token index with a
//! target-side token index. Links are supplied by the corpus, not computed;
//! a token may appear in zero, one, or many links.

use vstd::prelude::*;

verus! {

/// One alignment link between token indices of the two sides.
#[derive(Debug, Clone, Copy, PartialEq, Eq, Structural)]
pub struct Link {
    pub source: usize,
    pub target: usize,
}

} // verus!
