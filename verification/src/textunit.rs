//! Corpus assembly: one record per line of the corpus window.
//!
//! Five independently read, line-indexed sources — alignment links, source
//! tokens, target tokens, source text, target text — are joined line by
//! line: the alignment engine runs once per side, and the two aligned-token
//! lists are packaged with the original line text and the line's links. A
//! failed alignment on either side aborts the whole load and names the line
//! and the side that failed; no partial result is returned.

use crate::bi_rtoks::BiRToks;
use crate::bi_text::BiText;
use crate::lang::LangKey;
use crate::link::Link;
use crate::rtok::RTok;
use crate::rtoks_builder::{align_result_matches, spec_align, CharAlignError, RToksBuilder};
use crate::text::str_views;
use vstd::prelude::*;

verus! {

/// Alignment failed on one side of one line; `line_no` counts from one.
#[derive(Debug)]
pub enum TextunitLoadingError {
    CannotAlignToks { lang: LangKey, line_no: usize, err: CharAlignError },
}

/// One assembled record: a sentence pair, its derived aligned tokens, and
/// its word-alignment links.
#[derive(Debug)]
pub struct Textunit {
    pub bi_text: BiText,
    pub bi_rtoks: BiRToks,
    pub links: Vec<Link>,
}

/// The number of whole lines the five sources have in common.
pub open spec fn min5(a: int, b: int, c: int, d: int, e: int) -> int {
    let m1 = if a < b {
        a
    } else {
        b
    };
    let m2 = if m1 < c {
        m1
    } else {
        c
    };
    let m3 = if m2 < d {
        m2
    } else {
        d
    };
    if m3 < e {
        m3
    } else {
        e
    }
}

/// Whether one side of one line aligns.
pub open spec fn side_aligns(text: String, toks: Vec<String>) -> bool {
    spec_align(text@, str_views(toks@)) is Ok
}

/// Whether both sides of every line before `n` align.
pub open spec fn lines_align(
    source_toks_list: Seq<Vec<String>>,
    target_toks_list: Seq<Vec<String>>,
    source_text_list: Seq<String>,
    target_text_list: Seq<String>,
    n: int,
) -> bool {
    forall|m: int|
        0 <= m < n ==> side_aligns(#[trigger] source_text_list[m], source_toks_list[m])
            && side_aligns(target_text_list[m], target_toks_list[m])
}

/// How a load result relates to its five sources: success carries one
/// record per shared line, each pairing the line's texts, links, and the
/// scan's spans for both sides; failure names the first line with a side
/// that does not align, every line before it aligning on both sides, and
/// carries that side's alignment diagnostic.
pub open spec fn load_result_matches(
    r: Result<Vec<Textunit>, TextunitLoadingError>,
    links_list: Seq<Vec<Link>>,
    source_toks_list: Seq<Vec<String>>,
    target_toks_list: Seq<Vec<String>>,
    source_text_list: Seq<String>,
    target_text_list: Seq<String>,
) -> bool {
    let n = min5(
        links_list.len() as int,
        source_toks_list.len() as int,
        target_toks_list.len() as int,
        source_text_list.len() as int,
        target_text_list.len() as int,
    );
    match r {
        Ok(units) => {
            &&& lines_align(source_toks_list, target_toks_list, source_text_list, target_text_list, n)
            &&& units@.len() == n
            &&& forall|m: int|
                0 <= m < n ==> {
                    let u = #[trigger] units@[m];
                    &&& u.bi_text.source@ == source_text_list[m]@
                    &&& u.bi_text.target@ == target_text_list[m]@
                    &&& u.links@ == links_list[m]@
                    &&& u.bi_rtoks.source.deep_view() == spec_align(
                        source_text_list[m]@,
                        str_views(source_toks_list[m]@),
                    )->Ok_0
                    &&& u.bi_rtoks.target.deep_view() == spec_align(
                        target_text_list[m]@,
                        str_views(target_toks_list[m]@),
                    )->Ok_0
                }
        },
        Err(e) => match e {
            TextunitLoadingError::CannotAlignToks { lang, line_no, err } => {
                let j = line_no - 1;
                &&& 1 <= line_no <= n
                &&& lines_align(
                    source_toks_list,
                    target_toks_list,
                    source_text_list,
                    target_text_list,
                    j,
                )
                &&& match lang {
                    LangKey::SOURCE => align_result_matches(
                        source_text_list[j]@,
                        str_views(source_toks_list[j]@),
                        Err::<Vec<RTok>, CharAlignError>(err),
                    ),
                    LangKey::TARGET => side_aligns(source_text_list[j], source_toks_list[j])
                        && align_result_matches(
                        target_text_list[j]@,
                        str_views(target_toks_list[j]@),
                        Err::<Vec<RTok>, CharAlignError>(err),
                    ),
                }
            },
        },
    }
}

/// An owned copy of a link vector, element for element.
fn clone_links(v: &Vec<Link>) -> (r: Vec<Link>)
    ensures
        r@ == v@,
{
    let mut r: Vec<Link> = Vec::new();
    let mut i: usize = 0;
    while i < v.len()
        invariant
            i <= v@.len(),
            r@ == v@.subrange(0, i as int),
        decreases v.len() - i,
    {
        r.push(v[i]);
        proof {
            assert(r@ =~= v@.subrange(0, i + 1));
        }
        i = i + 1;
    }
    proof {
        assert(v@.subrange(0, v@.len() as int) =~= v@);
    }
    r
}

impl Textunit {
    /// Assembles one record per line over the window the five sources
    /// share: both sides of every line are aligned, and each record pairs
    /// the line's original texts, its aligned tokens, and its links. The
    /// first line with a side that does not align fails the whole load,
    /// with that line's number (from one) and side.
    #[verifier::loop_isolation(false)]
    pub fn load(
        rtoks_builder: &RToksBuilder,
        links_list: Vec<Vec<Link>>,
        source_toks_list: Vec<Vec<String>>,
        target_toks_list: Vec<Vec<String>>,
        source_text_list: Vec<String>,
        target_text_list: Vec<String>,
    ) -> (r: Result<Vec<Textunit>, TextunitLoadingError>)
        requires
            rtoks_builder.wf(),
        ensures
            load_result_matches(
                r,
                links_list@,
                source_toks_list@,
                target_toks_list@,
                source_text_list@,
                target_text_list@,
            ),
    {
        let mut n = links_list.len();
        if source_toks_list.len() < n {
            n = source_toks_list.len();
        }
        if target_toks_list.len() < n {
            n = target_toks_list.len();
        }
        if source_text_list.len() < n {
            n = source_text_list.len();
        }
        if target_text_list.len() < n {
            n = target_text_list.len();
        }
        let mut textunits: Vec<Textunit> = Vec::new();
        let mut j: usize = 0;
        while j < n
            invariant
                j <= n,
                textunits@.len() == j,
                lines_align(
                    source_toks_list@,
                    target_toks_list@,
                    source_text_list@,
                    target_text_list@,
                    j as int,
                ),
                forall|m: int|
                    0 <= m < j ==> {
                        let u = #[trigger] textunits@[m];
                        &&& u.bi_text.source@ == source_text_list@[m]@
                        &&& u.bi_text.target@ == target_text_list@[m]@
                        &&& u.links@ == links_list@[m]@
                        &&& u.bi_rtoks.source.deep_view() == spec_align(
                            source_text_list@[m]@,
                            str_views(source_toks_list@[m]@),
                        )->Ok_0
                        &&& u.bi_rtoks.target.deep_view() == spec_align(
                            target_text_list@[m]@,
                            str_views(target_toks_list@[m]@),
                        )->Ok_0
                    },
            decreases n - j,
        {
            let source_text = &source_text_list[j];
            let target_text = &target_text_list[j];
            let source_rtoks = match rtoks_builder.align_text_toks(
                source_text.as_str(),
                source_toks_list[j].as_slice(),
            ) {
                Ok(v) => v,
                Err(err) => {
                    return Err(
                        TextunitLoadingError::CannotAlignToks {
                            lang: LangKey::SOURCE,
                            line_no: j + 1,
                            err,
                        },
                    );
                },
            };
            let target_rtoks = match rtoks_builder.align_text_toks(
                target_text.as_str(),
                target_toks_list[j].as_slice(),
            ) {
                Ok(v) => v,
                Err(err) => {
                    return Err(
                        TextunitLoadingError::CannotAlignToks {
                            lang: LangKey::TARGET,
                            line_no: j + 1,
                            err,
                        },
                    );
                },
            };
            let bi_text = BiText { source: source_text.clone(), target: target_text.clone() };
            let bi_rtoks = BiRToks { source: source_rtoks, target: target_rtoks };
            let links = clone_links(&links_list[j]);
            textunits.push(Textunit { bi_text, bi_rtoks, links });
            j = j + 1;
        }
        Ok(textunits)
    }
}

} // verus!
