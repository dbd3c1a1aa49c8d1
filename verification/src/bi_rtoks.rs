//! Aligned tokens for both sides of one sentence pair.

use crate::lang::LangKey;
use crate::rtok::RTok;
use vstd::prelude::*;

verus! {

/// The outputs of running the alignment engine independently on each side.
#[derive(Debug, Clone)]
pub struct BiRToks {
    pub source: Vec<RTok>,
    pub target: Vec<RTok>,
}

impl BiRToks {
    /// The aligned tokens of the requested side, as an owned vector.
    pub fn rtoks(&self, lang_key: LangKey) -> (r: Vec<RTok>)
        ensures
            r@ == (match lang_key {
                LangKey::SOURCE => self.source@,
                LangKey::TARGET => self.target@,
            }),
    {
        match lang_key {
            LangKey::SOURCE => clone_rtoks(&self.source),
            LangKey::TARGET => clone_rtoks(&self.target),
        }
    }
}

/// An owned copy of an aligned-token vector, equal element for element.
fn clone_rtoks(v: &Vec<RTok>) -> (r: Vec<RTok>)
    ensures
        r@ == v@,
{
    let mut r: Vec<RTok> = Vec::new();
    let mut i: usize = 0;
    while i < v.len()
        invariant
            i <= v@.len(),
            r@ == v@.subrange(0, i as int),
        decreases v.len() - i,
    {
        let t = &v[i];
        r.push(RTok { s: t.s, e: t.e, text: t.text.clone() });
        proof {
            assert(r@ =~= v@.subrange(0, i + 1));
        }
        i = i + 1;
    }
    proof {
        assert(v@.subrange(0, v@.len() as int) =~= v@);
    }
    r
}

} // verus!
