//! The two language sides of a translation pair.

use vstd::prelude::*;

verus! {

/// Which side of a sentence pair is meant.
#[derive(Debug, Clone, Copy, PartialEq, Eq, Structural)]
#[allow(non_camel_case_types)]
pub enum LangKey {
    SOURCE,
    TARGET,
}

} // verus!
