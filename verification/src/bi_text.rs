//! The two original, untokenized sentences forming one translation pair.

use vstd::prelude::*;

verus! {

/// One original sentence per language side.
#[derive(Debug, Clone)]
pub struct BiText {
    pub source: String,
    pub target: String,
}

} // verus!
