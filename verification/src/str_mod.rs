//! Normalization strategies.
//!
//! A strategy reconciles tokenizer output with the surface form of the
//! original text through two pure transforms: one undoes tokenizer-side
//! entity escaping in a token, the other undoes original-text-side
//! substitutions in a substring. Strategies are tried in a fixed priority
//! order; exactly one concrete strategy exists.

use crate::text::replaced;
use vstd::prelude::*;

verus! {

/// A text-normalization strategy. The closed set of strategies is iterated
/// in priority order by the alignment engine.
#[derive(Debug, Clone, Copy, PartialEq, Eq, Structural)]
pub enum StrMod {
    Identity,
}

pub open spec fn pat_apos() -> Seq<char> {
    seq!['&', 'a', 'p', 'o', 's', ';']
}

pub open spec fn pat_quot() -> Seq<char> {
    seq!['&', 'q', 'u', 'o', 't', ';']
}

pub open spec fn pat_amp() -> Seq<char> {
    seq!['&', 'a', 'm', 'p', ';']
}

pub open spec fn pat_lbracket() -> Seq<char> {
    seq!['&', '#', '9', '1', ';']
}

pub open spec fn pat_rbracket() -> Seq<char> {
    seq!['&', '#', '9', '3', ';']
}

/// A token with the fixed table of entity-like escapes undone, each
/// replacement applied in turn: apostrophe, quote, ampersand, left bracket,
/// right bracket.
pub open spec fn unescape_tok(t: Seq<char>) -> Seq<char> {
    let t1 = replaced(t, pat_apos(), seq!['\'']);
    let t2 = replaced(t1, pat_quot(), seq!['"']);
    let t3 = replaced(t2, pat_amp(), seq!['&']);
    let t4 = replaced(t3, pat_lbracket(), seq!['[']);
    replaced(t4, pat_rbracket(), seq![']'])
}

/// An original-text substring with the private-use placeholder character
/// mapped to an ordinary space.
pub open spec fn placeholder_to_space(s: Seq<char>) -> Seq<char> {
    s.map_values(|c: char| if c == '\u{F112}' { ' ' } else { c })
}

/// What the strategy makes of a raw token.
pub open spec fn mod_tok_spec(m: StrMod, t: Seq<char>) -> Seq<char> {
    match m {
        StrMod::Identity => unescape_tok(t),
    }
}

/// What the strategy makes of a raw original-text substring.
pub open spec fn mod_orig_spec(m: StrMod, s: Seq<char>) -> Seq<char> {
    match m {
        StrMod::Identity => placeholder_to_space(s),
    }
}

fn entity_apos() -> (r: Vec<char>)
    ensures
        r@ == pat_apos(),
{
    let mut v: Vec<char> = Vec::new();
    v.push('&');
    v.push('a');
    v.push('p');
    v.push('o');
    v.push('s');
    v.push(';');
    proof {
        assert(v@ =~= pat_apos());
    }
    v
}

fn entity_quot() -> (r: Vec<char>)
    ensures
        r@ == pat_quot(),
{
    let mut v: Vec<char> = Vec::new();
    v.push('&');
    v.push('q');
    v.push('u');
    v.push('o');
    v.push('t');
    v.push(';');
    proof {
        assert(v@ =~= pat_quot());
    }
    v
}

fn entity_amp() -> (r: Vec<char>)
    ensures
        r@ == pat_amp(),
{
    let mut v: Vec<char> = Vec::new();
    v.push('&');
    v.push('a');
    v.push('m');
    v.push('p');
    v.push(';');
    proof {
        assert(v@ =~= pat_amp());
    }
    v
}

fn entity_lbracket() -> (r: Vec<char>)
    ensures
        r@ == pat_lbracket(),
{
    let mut v: Vec<char> = Vec::new();
    v.push('&');
    v.push('#');
    v.push('9');
    v.push('1');
    v.push(';');
    proof {
        assert(v@ =~= pat_lbracket());
    }
    v
}

fn entity_rbracket() -> (r: Vec<char>)
    ensures
        r@ == pat_rbracket(),
{
    let mut v: Vec<char> = Vec::new();
    v.push('&');
    v.push('#');
    v.push('9');
    v.push('3');
    v.push(';');
    proof {
        assert(v@ =~= pat_rbracket());
    }
    v
}

fn single(c: char) -> (r: Vec<char>)
    ensures
        r@ == seq![c],
{
    let mut v: Vec<char> = Vec::new();
    v.push(c);
    proof {
        assert(v@ =~= seq![c]);
    }
    v
}

/// Undoes the strategy's token-side escaping.
pub(crate) fn mod_tok(m: &StrMod, t: &Vec<char>) -> (r: Vec<char>)
    ensures
        r@ == mod_tok_spec(*m, t@),
{
    match m {
        StrMod::Identity => {
            let t1 = crate::text::replace_chars(t, &entity_apos(), &single('\''));
            let t2 = crate::text::replace_chars(&t1, &entity_quot(), &single('"'));
            let t3 = crate::text::replace_chars(&t2, &entity_amp(), &single('&'));
            let t4 = crate::text::replace_chars(&t3, &entity_lbracket(), &single('['));
            crate::text::replace_chars(&t4, &entity_rbracket(), &single(']'))
        },
    }
}

/// Undoes the strategy's original-text-side substitution.
pub(crate) fn mod_orig(m: &StrMod, s: &Vec<char>) -> (r: Vec<char>)
    ensures
        r@ == mod_orig_spec(*m, s@),
{
    match m {
        StrMod::Identity => {
            let mut out: Vec<char> = Vec::new();
            let mut i: usize = 0;
            while i < s.len()
                invariant
                    i <= s@.len(),
                    out@ == placeholder_to_space(s@.subrange(0, i as int)),
                decreases s.len() - i,
            {
                let c = s[i];
                if c == '\u{F112}' {
                    out.push(' ');
                } else {
                    out.push(c);
                }
                proof {
                    assert(out@ =~= placeholder_to_space(s@.subrange(0, i + 1)));
                }
                i = i + 1;
            }
            proof {
                assert(s@.subrange(0, s@.len() as int) =~= s@);
            }
            out
        },
    }
}

} // verus!
