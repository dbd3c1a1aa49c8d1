//! An aligned token: a token's text together with the half-open range of
//! UTF-16 code units it occupies in the original sentence.

use vstd::prelude::*;

verus! {

/// The mathematical value of an aligned token: its span bounds and its
/// characters.
pub ghost struct SpanV {
    pub s: int,
    pub e: int,
    pub text: Seq<char>,
}

/// A token aligned to the original text: `text` spans the code units
/// `[s, e)`.
#[derive(Debug, Clone, PartialEq)]
pub struct RTok {
    pub s: usize,
    pub e: usize,
    pub text: String,
}

impl View for RTok {
    type V = SpanV;

    open spec fn view(&self) -> SpanV {
        SpanV { s: self.s as int, e: self.e as int, text: self.text@ }
    }
}

impl DeepView for RTok {
    type V = SpanV;

    open spec fn deep_view(&self) -> SpanV {
        self@
    }
}

impl RTok {
    /// Whether the two spans share at least one position; ranges that only
    /// touch at an endpoint count as overlapping.
    pub fn is_overlap(&self, another: &RTok) -> (r: bool)
        ensures
            r == !(self@.e < another@.s || another@.e < self@.s),
    {
        !(self.e < another.s || another.e < self.s)
    }
}

} // verus!
