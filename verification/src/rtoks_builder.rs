//! The alignment engine.
//!
//! Given one original sentence and its ordered token list, the engine
//! re-derives, for every token, the half-open range of UTF-16 code units the
//! token occupies in the original text, despite tokenizer-side normalization
//! (entity escaping, placeholder characters, ASCII case). The scan is greedy
//! and strictly left to right: a token is matched at the cursor by trying
//! each normalization strategy in priority order; on a match the cursor jumps
//! past the span, otherwise the cursor skips exactly one code unit. The scan
//! never backtracks, so spans come out in non-decreasing offset order.

use crate::rtok::{RTok, SpanV};
use crate::str_mod::{mod_orig, mod_orig_spec, mod_tok, mod_tok_spec, StrMod};
use crate::text::{
    eq_ignore_ascii_case, eq_ignore_ascii_case_exec, str_chars, str_views,
};
use crate::utf16::{encode_chars, substring, utf16_decode, utf16_encode, utf16_len, valid_utf16};
use vstd::prelude::*;

verus! {

/// Where an alignment got stuck: the index of the token that could not be
/// matched, and the cursor when the scan gave up.
pub ghost struct AlignFailure {
    pub token_index: int,
    pub cursor: int,
}

/// The code-unit width a token occupies once matched: the length of the
/// UTF-16 encoding of its normalized form.
pub open spec fn spec_tok_width(m: StrMod, tok: Seq<char>) -> int {
    utf16_encode(mod_tok_spec(m, tok)).len() as int
}

/// Whether the token, normalized by the strategy, matches the original text
/// at code-unit offset `s`: the window of the token's width must lie inside
/// the text, decode to characters, and — after the original-side
/// normalization — equal the normalized token up to ASCII case.
pub open spec fn spec_match_at(m: StrMod, orig: Seq<char>, tok: Seq<char>, s: int) -> bool {
    let t = mod_tok_spec(m, tok);
    let units = utf16_encode(orig);
    let e = s + utf16_encode(t).len();
    &&& e <= units.len()
    &&& valid_utf16(units.subrange(s, e))
    &&& eq_ignore_ascii_case(mod_orig_spec(m, utf16_decode(units.subrange(s, e))), t)
}

/// The raw (unnormalized) original-text characters of the window a match at
/// offset `s` covers.
pub open spec fn spec_matched_text(m: StrMod, orig: Seq<char>, tok: Seq<char>, s: int) -> Seq<
    char,
> {
    utf16_decode(utf16_encode(orig).subrange(s, s + spec_tok_width(m, tok)))
}

/// The greedy scan, from token `i` and cursor `s` on: done when the tokens
/// are exhausted; stuck when the cursor has reached the end of the text
/// first; otherwise one matched span, or one skipped code unit, at a time.
pub open spec fn spec_align_from(orig: Seq<char>, toks: Seq<Seq<char>>, i: int, s: int) -> Result<
    Seq<SpanV>,
    AlignFailure,
>
    decreases toks.len() - i, utf16_encode(orig).len() - s,
    when 0 <= i <= toks.len() && 0 <= s <= utf16_encode(orig).len()
{
    if i == toks.len() {
        Ok(Seq::empty())
    } else if s >= utf16_encode(orig).len() {
        Err(AlignFailure { token_index: i, cursor: s })
    } else if spec_match_at(StrMod::Identity, orig, toks[i], s) {
        let e = s + spec_tok_width(StrMod::Identity, toks[i]);
        match spec_align_from(orig, toks, i + 1, e) {
            Ok(rest) => Ok(
                seq![
                    SpanV { s, e, text: spec_matched_text(StrMod::Identity, orig, toks[i], s) },
                ] + rest,
            ),
            Err(f) => Err(f),
        }
    } else {
        spec_align_from(orig, toks, i, s + 1)
    }
}

/// The result of aligning the whole token list against the original text.
pub open spec fn spec_align(orig: Seq<char>, toks: Seq<Seq<char>>) -> Result<
    Seq<SpanV>,
    AlignFailure,
> {
    spec_align_from(orig, toks, 0, 0)
}

/// The scan cursor reached the end of the original text before all tokens
/// were consumed. Carries the original text, the tokens not yet consumed,
/// the index of the first of them, the cursor, and the original's code-unit
/// length.
#[derive(Debug)]
pub enum CharAlignError {
    CannotMatchSomeToks {
        original_text: String,
        remaining_tokens: Vec<String>,
        token_index: usize,
        cursor: usize,
        original_length: usize,
    },
}

/// The observable content of an alignment failure.
pub open spec fn align_err_view(e: CharAlignError) -> (Seq<char>, Seq<Seq<char>>, int, int, int) {
    match e {
        CharAlignError::CannotMatchSomeToks {
            original_text,
            remaining_tokens,
            token_index,
            cursor,
            original_length,
        } => (
            original_text@,
            str_views(remaining_tokens@),
            token_index as int,
            cursor as int,
            original_length as int,
        ),
    }
}

/// How a returned alignment relates to the scan's mathematical result: a
/// successful run carries exactly the spans of the scan, a failed run
/// carries the scan's failure point together with the original text, the
/// unconsumed tokens, and the original's code-unit length.
pub open spec fn align_result_matches(
    orig: Seq<char>,
    toks: Seq<Seq<char>>,
    r: Result<Vec<RTok>, CharAlignError>,
) -> bool {
    match spec_align(orig, toks) {
        Ok(spans) => r matches Ok(v) && v.deep_view() == spans,
        Err(f) => r matches Err(e) && align_err_view(e) == (
            orig,
            toks.skip(f.token_index),
            f.token_index,
            f.cursor,
            utf16_encode(orig).len() as int,
        ),
    }
}

/// The alignment engine: an ordered list of normalization strategies, tried
/// in priority order at every offset.
pub struct RToksBuilder {
    str_mods: Vec<StrMod>,
}

impl RToksBuilder {
    /// A well-formed engine holds at least one strategy, and only the
    /// identity strategy, in its list.
    pub closed spec fn wf(&self) -> bool {
        &&& self.str_mods@.len() > 0
        &&& forall|k: int|
            0 <= k < self.str_mods@.len() ==> self.str_mods@[k] == StrMod::Identity
    }

    /// An engine with the default strategy list.
    pub fn new() -> (r: RToksBuilder)
        ensures
            r.wf(),
    {
        let mut mods: Vec<StrMod> = Vec::new();
        mods.push(StrMod::Identity);
        mods.push(StrMod::Identity);
        RToksBuilder { str_mods: mods }
    }

    /// Tries one strategy at one offset: the window of the normalized
    /// token's width is cut out of the original, normalized on the original
    /// side, and compared up to ASCII case; a match returns the window's raw
    /// text.
    fn match_tok_internal(s: usize, orig: &str, tok: &str, str_mod: &StrMod) -> (r: Option<String>)
        ensures
            r is Some <==> spec_match_at(*str_mod, orig@, tok@, s as int),
            r matches Some(p) ==> {
                &&& p@ == spec_matched_text(*str_mod, orig@, tok@, s as int)
                &&& utf16_encode(p@) == utf16_encode(orig@).subrange(
                    s as int,
                    s + spec_tok_width(*str_mod, tok@),
                )
            },
    {
        let tok_chars = str_chars(tok);
        let tok_m = mod_tok(str_mod, &tok_chars);
        let tok_units = encode_chars(&tok_m);
        let w = tok_units.len();
        let orig_len = utf16_len(orig);
        if w > orig_len || s > orig_len - w {
            return None;
        }
        let e = s + w;
        match substring(orig, s, e) {
            Err(_) => None,
            Ok(prefix) => {
                let prefix_chars = str_chars(prefix.as_str());
                let mod_prefix = mod_orig(str_mod, &prefix_chars);
                if eq_ignore_ascii_case_exec(&mod_prefix, &tok_m) {
                    Some(prefix)
                } else {
                    None
                }
            },
        }
    }

    /// Tries every strategy in priority order at one offset; the first
    /// match wins.
    fn match_tok(&self, orig: &str, tok: &str, s: usize) -> (r: Option<String>)
        requires
            self.wf(),
        ensures
            r is Some <==> spec_match_at(StrMod::Identity, orig@, tok@, s as int),
            r matches Some(p) ==> {
                &&& p@ == spec_matched_text(StrMod::Identity, orig@, tok@, s as int)
                &&& utf16_encode(p@) == utf16_encode(orig@).subrange(
                    s as int,
                    s + spec_tok_width(StrMod::Identity, tok@),
                )
            },
    {
        let mut k: usize = 0;
        while k < self.str_mods.len()
            invariant
                self.wf(),
                k <= self.str_mods@.len(),
                k > 0 ==> !spec_match_at(StrMod::Identity, orig@, tok@, s as int),
            decreases self.str_mods@.len() - k,
        {
            let prefix = Self::match_tok_internal(s, orig, tok, &self.str_mods[k]);
            if prefix.is_some() {
                return prefix;
            }
            k = k + 1;
        }
        None
    }

    /// Aligns the token list against the original text: on success, one span
    /// per token, in non-decreasing offset order, each holding the exact
    /// original-text characters of its code-unit range; on failure, the
    /// diagnostic names the first token that could not be matched, the
    /// tokens from it on, and where the scan gave up. An empty token list
    /// aligns trivially, whatever the original text.
    pub fn align_text_toks(&self, orig: &str, toks: &[String]) -> (r: Result<
        Vec<RTok>,
        CharAlignError,
    >)
        requires
            self.wf(),
        ensures
            align_result_matches(orig@, str_views(toks@), r),
            toks@.len() == 0 ==> (r matches Ok(v) && v@.len() == 0),
    {
        let ghost toksv = str_views(toks@);
        let orig_len = utf16_len(orig);
        let mut s: usize = 0;
        let mut i: usize = 0;
        let mut aligned_toks: Vec<RTok> = Vec::new();
        proof {
            assert(aligned_toks.deep_view() =~= Seq::<SpanV>::empty());
        }
        while i < toks.len() && s < orig_len
            invariant
                self.wf(),
                i <= toks@.len(),
                s <= orig_len,
                orig_len == utf16_encode(orig@).len(),
                toksv == str_views(toks@),
                spec_align(orig@, toksv) == (match spec_align_from(
                    orig@,
                    toksv,
                    i as int,
                    s as int,
                ) {
                    Ok(rest) => Ok::<Seq<SpanV>, AlignFailure>(aligned_toks.deep_view() + rest),
                    Err(f) => Err::<Seq<SpanV>, AlignFailure>(f),
                }),
            decreases toks@.len() - i, orig_len - s,
        {
            let tok = &toks[i];
            proof {
                assert(toksv[i as int] == toks@[i as int]@);
            }
            match self.match_tok(orig, tok.as_str(), s) {
                Some(prefix) => {
                    let w = utf16_len(prefix.as_str());
                    proof {
                        assert(w == spec_tok_width(StrMod::Identity, toksv[i as int]));
                        assert(s + w <= orig_len);
                    }
                    let e = s + w;
                    let ghost head = SpanV {
                        s: s as int,
                        e: e as int,
                        text: spec_matched_text(StrMod::Identity, orig@, toksv[i as int], s as int),
                    };
                    let ghost rest0 = spec_align_from(orig@, toksv, i + 1, e as int);
                    let ghost old_deep = aligned_toks.deep_view();
                    let aligned_tok = RTok { s, e, text: prefix };
                    proof {
                        assert(aligned_tok@ == head);
                        if rest0 is Ok {
                            assert(old_deep + (seq![head] + rest0->Ok_0) =~= old_deep.push(head)
                                + rest0->Ok_0);
                        }
                    }
                    aligned_toks.push(aligned_tok);
                    proof {
                        assert(aligned_toks.deep_view() =~= old_deep.push(head));
                    }
                    s = e;
                    i = i + 1;
                },
                None => {
                    s = s + 1;
                },
            }
        }
        if i == toks.len() {
            proof {
                assert(spec_align_from(orig@, toksv, i as int, s as int) == Ok::<
                    Seq<SpanV>,
                    AlignFailure,
                >(Seq::empty()));
                assert(aligned_toks.deep_view() + Seq::<SpanV>::empty() =~= aligned_toks.deep_view());
            }
            Ok(aligned_toks)
        } else {
            proof {
                assert(s == orig_len);
                assert(spec_align_from(orig@, toksv, i as int, s as int) == Err::<
                    Seq<SpanV>,
                    AlignFailure,
                >(AlignFailure { token_index: i as int, cursor: s as int }));
            }
            let mut remaining: Vec<String> = Vec::new();
            let mut k: usize = i;
            while k < toks.len()
                invariant
                    i <= k <= toks@.len(),
                    remaining@ == toks@.subrange(i as int, k as int),
                decreases toks@.len() - k,
            {
                remaining.push(toks[k].clone());
                proof {
                    assert(remaining@ =~= toks@.subrange(i as int, k + 1));
                }
                k = k + 1;
            }
            proof {
                assert(toks@.subrange(i as int, toks@.len() as int) =~= toks@.skip(i as int));
                assert(str_views(toks@.skip(i as int)) =~= toksv.skip(i as int));
            }
            Err(
                CharAlignError::CannotMatchSomeToks {
                    original_text: orig.to_owned(),
                    remaining_tokens: remaining,
                    token_index: i,
                    cursor: s,
                    original_length: orig_len,
                },
            )
        }
    }
}

/// Every property of a successful scan from token `i` and cursor `s` on:
/// one span per remaining token; every span within `[s, len)` with its start
/// not before its end; consecutive spans in non-decreasing offset order; and
/// every span's text exactly the characters its code-unit range decodes to.
proof fn lemma_align_from_ok(orig: Seq<char>, toks: Seq<Seq<char>>, i: int, s: int)
    requires
        0 <= i <= toks.len(),
        0 <= s <= utf16_encode(orig).len(),
        spec_align_from(orig, toks, i, s) is Ok,
    ensures
        ({
            let spans = spec_align_from(orig, toks, i, s)->Ok_0;
            &&& spans.len() == toks.len() - i
            &&& forall|j: int|
                0 <= j < spans.len() ==> s <= #[trigger] spans[j].s <= spans[j].e <= utf16_encode(
                    orig,
                ).len()
            &&& forall|j: int| 0 <= j < spans.len() - 1 ==> #[trigger] spans[j].e <= spans[j + 1].s
            &&& forall|j: int|
                0 <= j < spans.len() ==> {
                    &&& valid_utf16(
                        utf16_encode(orig).subrange(#[trigger] spans[j].s, spans[j].e),
                    )
                    &&& spans[j].text == utf16_decode(
                        utf16_encode(orig).subrange(spans[j].s, spans[j].e),
                    )
                }
        }),
    decreases toks.len() - i, utf16_encode(orig).len() - s,
{
    let spans = spec_align_from(orig, toks, i, s)->Ok_0;
    if i == toks.len() {
    } else if s >= utf16_encode(orig).len() {
    } else if spec_match_at(StrMod::Identity, orig, toks[i], s) {
        let e = s + spec_tok_width(StrMod::Identity, toks[i]);
        lemma_align_from_ok(orig, toks, i + 1, e);
        let rest = spec_align_from(orig, toks, i + 1, e)->Ok_0;
        assert(spans[0].s == s && spans[0].e == e);
        assert(forall|j: int| 0 <= j < rest.len() ==> spans[j + 1] == rest[j]);
    } else {
        lemma_align_from_ok(orig, toks, i, s + 1);
    }
}

/// Spans of a successful alignment never overlap and come in
/// non-decreasing offset order: each span starts not before the previous
/// one ends, and no span's start lies after its end.
pub proof fn lemma_align_spans_ordered(orig: Seq<char>, toks: Seq<Seq<char>>)
    requires
        spec_align(orig, toks) is Ok,
    ensures
        ({
            let spans = spec_align(orig, toks)->Ok_0;
            &&& spans.len() == toks.len()
            &&& forall|j: int|
                0 <= j < spans.len() ==> 0 <= #[trigger] spans[j].s <= spans[j].e <= utf16_encode(
                    orig,
                ).len()
            &&& forall|j: int| 0 <= j < spans.len() - 1 ==> #[trigger] spans[j].e <= spans[j + 1].s
        }),
{
    lemma_align_from_ok(orig, toks, 0, 0);
}

/// Each span of a successful alignment carries exactly the original text's
/// characters over its own code-unit range `[s, e)` — what `substring`
/// returns for that range.
pub proof fn lemma_align_text_exact(orig: Seq<char>, toks: Seq<Seq<char>>)
    requires
        spec_align(orig, toks) is Ok,
    ensures
        ({
            let spans = spec_align(orig, toks)->Ok_0;
            forall|j: int|
                0 <= j < spans.len() ==> {
                    &&& valid_utf16(
                        utf16_encode(orig).subrange(#[trigger] spans[j].s, spans[j].e),
                    )
                    &&& spans[j].text == utf16_decode(
                        utf16_encode(orig).subrange(spans[j].s, spans[j].e),
                    )
                }
        }),
{
    lemma_align_from_ok(orig, toks, 0, 0);
}

/// Alignment is deterministic: two runs over the same original text and the
/// same token list return the same observable result — success agrees with
/// success, span for span, and failure agrees with failure, field for
/// field.
pub proof fn lemma_align_deterministic(
    orig: Seq<char>,
    toks: Seq<Seq<char>>,
    r1: Result<Vec<RTok>, CharAlignError>,
    r2: Result<Vec<RTok>, CharAlignError>,
)
    requires
        align_result_matches(orig, toks, r1),
        align_result_matches(orig, toks, r2),
    ensures
        r1 is Ok <==> r2 is Ok,
        r1 is Ok && r2 is Ok ==> r1->Ok_0.deep_view() == r2->Ok_0.deep_view(),
        r1 is Err && r2 is Err ==> align_err_view(r1->Err_0) == align_err_view(r2->Err_0),
{
}

/// When the current token, once normalized, matches at no offset in the
/// remaining original text, the scan fails at exactly that token, with the
/// cursor driven to the original's full code-unit length.
pub proof fn lemma_align_stuck_token(orig: Seq<char>, toks: Seq<Seq<char>>, i: int, s: int)
    requires
        0 <= i < toks.len(),
        0 <= s <= utf16_encode(orig).len(),
        forall|t: int|
            s <= t < utf16_encode(orig).len() ==> !spec_match_at(
                StrMod::Identity,
                orig,
                toks[i],
                t,
            ),
    ensures
        spec_align_from(orig, toks, i, s) == Err::<Seq<SpanV>, AlignFailure>(
            AlignFailure { token_index: i, cursor: utf16_encode(orig).len() as int },
        ),
    decreases utf16_encode(orig).len() - s,
{
    if s < utf16_encode(orig).len() {
        lemma_align_stuck_token(orig, toks, i, s + 1);
    }
}

} // verus!

