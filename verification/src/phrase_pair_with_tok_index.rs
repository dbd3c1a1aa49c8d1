//! Phrase ranges over token indices, paired across the two sides.

use vstd::prelude::*;

verus! {

/// A half-open range of token indices on one side.
#[derive(Debug, Clone, Copy, PartialEq, Eq, Structural)]
pub struct PhraseRangeWithTokIndex {
    pub s: usize,
    pub e: usize,
}

/// A source-side phrase range paired with a target-side phrase range.
#[derive(Debug, Clone, Copy, PartialEq, Eq, Structural)]
pub struct PhrasePairWithTokIndex {
    pub source: PhraseRangeWithTokIndex,
    pub target: PhraseRangeWithTokIndex,
}

} // verus!
