//! Parsing and windowing of corpus lines.
//!
//! A line of tokens is split on whitespace. A line of alignment links holds
//! whitespace-separated link tokens, each two non-negative integers joined
//! by a hyphen (`"<source>-<target>"`); a malformed link token fails the
//! whole line. A reader's configuration selects a window of lines: those
//! after a skip count, up to a maximum count.

use crate::config::Config;
use crate::lang::LangKey;
use crate::link::Link;
use crate::text::{chars_range, str_chars, str_views, string_from_chars};
use vstd::prelude::*;

verus! {

/// Whether the character counts as whitespace for token splitting.
pub uninterp spec fn unicode_whitespace(c: char) -> bool;

/// Relies on char::is_whitespace: whether the character has the Unicode
/// White_Space property. The result depends on the character alone.
pub assume_specification[ char::is_whitespace ](c: char) -> (r: bool)
    ensures
        r == unicode_whitespace(c),
;

/// The index of the first whitespace character, or the length when there is
/// none.
pub open spec fn first_ws(s: Seq<char>) -> int
    decreases s.len(),
{
    if s.len() == 0 {
        0
    } else if unicode_whitespace(s[0]) {
        0
    } else {
        1 + first_ws(s.drop_first())
    }
}

/// `first_ws` stays within the sequence.
proof fn lemma_first_ws_bounds(s: Seq<char>)
    ensures
        0 <= first_ws(s) <= s.len(),
    decreases s.len(),
{
    if s.len() > 0 && !unicode_whitespace(s[0]) {
        lemma_first_ws_bounds(s.drop_first());
    }
}

/// The position after a run of non-whitespace characters, when whitespace
/// or the end follows, is exactly `first_ws`.
proof fn lemma_first_ws_is(s: Seq<char>, k: int)
    requires
        0 <= k <= s.len(),
        forall|j: int| 0 <= j < k ==> !unicode_whitespace(#[trigger] s[j]),
        k < s.len() ==> unicode_whitespace(s[k]),
    ensures
        first_ws(s) == k,
    decreases k,
{
    if s.len() == 0 {
    } else if k == 0 {
    } else {
        assert(forall|j: int|
            0 <= j < k - 1 ==> !unicode_whitespace(#[trigger] s.drop_first()[j]));
        lemma_first_ws_is(s.drop_first(), k - 1);
    }
}

/// The whitespace-separated tokens of a line, in order: leading whitespace
/// is dropped, then the maximal run of non-whitespace characters forms one
/// token, and the rest of the line is split in the same way.
pub open spec fn split_ws(s: Seq<char>) -> Seq<Seq<char>>
    decreases s.len(),
    via split_ws_decreases
{
    if s.len() == 0 {
        Seq::empty()
    } else if unicode_whitespace(s[0]) {
        split_ws(s.drop_first())
    } else {
        let k = first_ws(s);
        seq![s.subrange(0, k)] + split_ws(s.skip(k))
    }
}

#[via_fn]
proof fn split_ws_decreases(s: Seq<char>) {
    if s.len() > 0 && !unicode_whitespace(s[0]) {
        lemma_first_ws_bounds(s.drop_first());
    }
}

/// Whether the character is an ASCII decimal digit.
pub open spec fn is_digit(c: char) -> bool {
    48 <= c as u32 <= 57
}

/// Whether every character of the sequence is an ASCII decimal digit.
pub open spec fn all_digits(s: Seq<char>) -> bool {
    forall|j: int| 0 <= j < s.len() ==> is_digit(#[trigger] s[j])
}

/// The number a digit sequence denotes in base ten.
pub open spec fn digits_val(s: Seq<char>) -> nat
    decreases s.len(),
{
    if s.len() == 0 {
        0
    } else {
        digits_val(s.drop_last()) * 10 + (s.last() as u32 - 48) as nat
    }
}

/// A digit prefix never denotes more than the whole digit sequence.
proof fn lemma_digits_val_prefix_le(s: Seq<char>, i: int)
    requires
        0 <= i <= s.len(),
    ensures
        digits_val(s.subrange(0, i)) <= digits_val(s),
    decreases s.len() - i,
{
    if i < s.len() {
        assert(s.subrange(0, i + 1).drop_last() =~= s.subrange(0, i));
        assert(digits_val(s.subrange(0, i + 1)) == digits_val(s.subrange(0, i)) * 10 + (s.subrange(
            0,
            i + 1,
        ).last() as u32 - 48) as nat);
        lemma_digits_val_prefix_le(s, i + 1);
        assert(s.subrange(0, s.len() as int) =~= s);
    } else {
        assert(s.subrange(0, i) =~= s);
    }
}

/// The index of the first hyphen, or the length when there is none.
pub open spec fn first_hyphen(s: Seq<char>) -> int
    decreases s.len(),
{
    if s.len() == 0 {
        0
    } else if s[0] == '-' {
        0
    } else {
        1 + first_hyphen(s.drop_first())
    }
}

/// The position after a run of non-hyphen characters, when a hyphen or the
/// end follows, is exactly `first_hyphen`.
proof fn lemma_first_hyphen_is(s: Seq<char>, k: int)
    requires
        0 <= k <= s.len(),
        forall|j: int| 0 <= j < k ==> #[trigger] s[j] != '-',
        k < s.len() ==> s[k] == '-',
    ensures
        first_hyphen(s) == k,
    decreases k,
{
    if s.len() == 0 {
    } else if k == 0 {
    } else {
        assert(forall|j: int| 0 <= j < k - 1 ==> #[trigger] s.drop_first()[j] != '-');
        lemma_first_hyphen_is(s.drop_first(), k - 1);
    }
}

/// The two digit groups of a link token of the shape
/// `"<digits>-<digits>"`, split at its first hyphen; nothing when the token
/// does not have that shape.
pub open spec fn link_parts(s: Seq<char>) -> Option<(Seq<char>, Seq<char>)> {
    let i = first_hyphen(s);
    if i < s.len() {
        let left = s.subrange(0, i);
        let right = s.subrange(i + 1, s.len() as int);
        if left.len() > 0 && right.len() > 0 && all_digits(left) && all_digits(right) {
            Some((left, right))
        } else {
            None
        }
    } else {
        None
    }
}

/// Whether a link token is well formed and both its numbers fit the machine.
pub open spec fn link_ok(t: Seq<char>) -> bool {
    &&& link_parts(t) is Some
    &&& digits_val(link_parts(t)->Some_0.0) <= usize::MAX
    &&& digits_val(link_parts(t)->Some_0.1) <= usize::MAX
}

/// A link token failed the `"<int>-<int>"` grammar, or a number in it does
/// not fit the machine.
#[derive(Debug, Clone, Copy, PartialEq, Eq, Structural)]
pub enum ParsingError {
    ParseLink,
    ParseNumber,
}

/// The error a link token earns: a shape failure, or a number out of range.
pub open spec fn link_err(t: Seq<char>) -> ParsingError {
    if link_parts(t) is None {
        ParsingError::ParseLink
    } else {
        ParsingError::ParseNumber
    }
}

/// The index of the first link token that does not parse, or the length
/// when all parse.
pub open spec fn first_bad_link(toks: Seq<Seq<char>>) -> int
    decreases toks.len(),
{
    if toks.len() == 0 {
        0
    } else if !link_ok(toks[0]) {
        0
    } else {
        1 + first_bad_link(toks.drop_first())
    }
}

/// The position after a run of well-formed link tokens, when a bad one or
/// the end follows, is exactly `first_bad_link`.
proof fn lemma_first_bad_link_is(toks: Seq<Seq<char>>, k: int)
    requires
        0 <= k <= toks.len(),
        forall|j: int| 0 <= j < k ==> link_ok(#[trigger] toks[j]),
        k < toks.len() ==> !link_ok(toks[k]),
    ensures
        first_bad_link(toks) == k,
    decreases k,
{
    if toks.len() == 0 {
    } else if k == 0 {
    } else {
        assert(forall|j: int| 0 <= j < k - 1 ==> link_ok(#[trigger] toks.drop_first()[j]));
        lemma_first_bad_link_is(toks.drop_first(), k - 1);
    }
}

/// Whether every link token of the line parses.
pub open spec fn line_links_ok(line: Seq<char>) -> bool {
    forall|k: int| 0 <= k < split_ws(line).len() ==> link_ok(#[trigger] split_ws(line)[k])
}

/// The error the first malformed link token of the line earns.
pub open spec fn line_links_err(line: Seq<char>) -> ParsingError {
    let toks = split_ws(line);
    link_err(toks[first_bad_link(toks)])
}

/// Whether `links` is exactly the link list the line denotes.
pub open spec fn links_of_line(line: Seq<char>, links: Seq<Link>) -> bool {
    let toks = split_ws(line);
    &&& links.len() == toks.len()
    &&& forall|k: int|
        0 <= k < toks.len() ==> {
            &&& (#[trigger] links[k]).source == digits_val(link_parts(toks[k])->Some_0.0)
            &&& links[k].target == digits_val(link_parts(toks[k])->Some_0.1)
        }
}

/// The index of the first line whose links do not parse, or the length when
/// every line parses.
pub open spec fn first_bad_line(lines: Seq<Seq<char>>) -> int
    decreases lines.len(),
{
    if lines.len() == 0 {
        0
    } else if !line_links_ok(lines[0]) {
        0
    } else {
        1 + first_bad_line(lines.drop_first())
    }
}

/// The position after a run of lines whose links parse, when a bad line or
/// the end follows, is exactly `first_bad_line`.
proof fn lemma_first_bad_line_is(lines: Seq<Seq<char>>, k: int)
    requires
        0 <= k <= lines.len(),
        forall|j: int| 0 <= j < k ==> line_links_ok(#[trigger] lines[j]),
        k < lines.len() ==> !line_links_ok(lines[k]),
    ensures
        first_bad_line(lines) == k,
    decreases k,
{
    if lines.len() == 0 {
    } else if k == 0 {
    } else {
        assert(forall|j: int| 0 <= j < k - 1 ==> line_links_ok(#[trigger] lines.drop_first()[j]));
        lemma_first_bad_line_is(lines.drop_first(), k - 1);
    }
}

fn is_digit_exec(c: char) -> (r: bool)
    ensures
        r == is_digit(c),
{
    let u = c as u32;
    48 <= u && u <= 57
}

/// The machine number a digit vector denotes, or nothing when it does not
/// fit.
fn parse_usize(digits: &Vec<char>) -> (r: Option<usize>)
    requires
        all_digits(digits@),
    ensures
        r is Some <==> digits_val(digits@) <= usize::MAX,
        r matches Some(v) ==> v == digits_val(digits@),
{
    let mut acc: usize = 0;
    let mut i: usize = 0;
    proof {
        assert(digits@.subrange(0, 0) =~= Seq::<char>::empty());
    }
    while i < digits.len()
        invariant
            i <= digits@.len(),
            all_digits(digits@),
            acc == digits_val(digits@.subrange(0, i as int)),
        decreases digits@.len() - i,
    {
        let c = digits[i];
        let d = (c as u32 - 48) as usize;
        proof {
            assert(digits@.subrange(0, i + 1).drop_last() =~= digits@.subrange(0, i as int));
            assert(digits@.subrange(0, i + 1).last() == digits@[i as int]);
        }
        let acc10 = match acc.checked_mul(10) {
            Some(x) => x,
            None => {
                proof {
                    lemma_digits_val_prefix_le(digits@, i + 1);
                }
                return None;
            },
        };
        acc = match acc10.checked_add(d) {
            Some(x) => x,
            None => {
                proof {
                    lemma_digits_val_prefix_le(digits@, i + 1);
                }
                return None;
            },
        };
        i = i + 1;
    }
    proof {
        assert(digits@.subrange(0, digits@.len() as int) =~= digits@);
    }
    Some(acc)
}

/// Reads one corpus window: holds the configuration that names the corpus
/// files and selects the window of lines.
pub struct Reader {
    pub config: Config,
}

impl Reader {
    /// Parses one link token of the shape `"<source>-<target>"`. Fails the
    /// grammar when there is no hyphen, a digit group is empty, or a
    /// character outside the digits appears; fails the number when a digit
    /// group does not fit the machine.
    #[verifier::loop_isolation(false)]
    pub fn parse_link(txt: &str) -> (r: Result<Link, ParsingError>)
        ensures
            r is Ok <==> link_ok(txt@),
            r matches Ok(l) ==> {
                &&& l.source == digits_val(link_parts(txt@)->Some_0.0)
                &&& l.target == digits_val(link_parts(txt@)->Some_0.1)
            },
            r matches Err(e) ==> e == link_err(txt@),
    {
        let chars = str_chars(txt);
        let n = chars.len();
        let mut i: usize = 0;
        while i < n && chars[i] != '-'
            invariant
                i <= n,
                n == chars@.len(),
                forall|j: int| 0 <= j < i ==> #[trigger] chars@[j] != '-',
            decreases n - i,
        {
            i = i + 1;
        }
        proof {
            lemma_first_hyphen_is(chars@, i as int);
        }
        if i == n {
            return Err(ParsingError::ParseLink);
        }
        let left = chars_range(&chars, 0, i);
        let right = chars_range(&chars, i + 1, n);
        if left.len() == 0 || right.len() == 0 {
            return Err(ParsingError::ParseLink);
        }
        let mut k: usize = 0;
        while k < left.len()
            invariant
                k <= left@.len(),
                forall|j: int| 0 <= j < k ==> is_digit(#[trigger] left@[j]),
            decreases left@.len() - k,
        {
            if !is_digit_exec(left[k]) {
                proof {
                    assert(!is_digit(left@[k as int]));
                }
                return Err(ParsingError::ParseLink);
            }
            k = k + 1;
        }
        let mut k: usize = 0;
        while k < right.len()
            invariant
                k <= right@.len(),
                forall|j: int| 0 <= j < k ==> is_digit(#[trigger] right@[j]),
            decreases right@.len() - k,
        {
            if !is_digit_exec(right[k]) {
                proof {
                    assert(!is_digit(right@[k as int]));
                }
                return Err(ParsingError::ParseLink);
            }
            k = k + 1;
        }
        let source = match parse_usize(&left) {
            Some(v) => v,
            None => {
                return Err(ParsingError::ParseNumber);
            },
        };
        let target = match parse_usize(&right) {
            Some(v) => v,
            None => {
                return Err(ParsingError::ParseNumber);
            },
        };
        Ok(Link { source, target })
    }

    /// Splits a line into its whitespace-separated tokens.
    pub fn parse_toks(line: &str) -> (r: Vec<String>)
        ensures
            str_views(r@) == split_ws(line@),
    {
        let chars = str_chars(line);
        let n = chars.len();
        let mut out: Vec<String> = Vec::new();
        let mut i: usize = 0;
        proof {
            assert(str_views(out@) + split_ws(chars@.skip(0)) =~= split_ws(chars@.skip(0)));
            assert(chars@.skip(0) =~= chars@);
        }
        while i < n
            invariant
                i <= n,
                n == chars@.len(),
                split_ws(line@) == str_views(out@) + split_ws(chars@.skip(i as int)),
                line@ == chars@,
            decreases n - i,
        {
            let ghost rest = chars@.skip(i as int);
            proof {
                assert(rest[0] == chars@[i as int]);
                assert(rest.drop_first() =~= chars@.skip(i + 1));
            }
            if chars[i].is_whitespace() {
                i = i + 1;
            } else {
                let mut j: usize = i + 1;
                while j < n && !chars[j].is_whitespace()
                    invariant
                        i < j <= n,
                        n == chars@.len(),
                        forall|m: int|
                            i <= m < j ==> !unicode_whitespace(#[trigger] chars@[m]),
                    decreases n - j,
                {
                    j = j + 1;
                }
                proof {
                    assert(forall|m: int|
                        0 <= m < j - i ==> !unicode_whitespace(#[trigger] rest[m]));
                    if (j as int) < n as int {
                        assert(rest[j - i] == chars@[j as int]);
                    }
                    lemma_first_ws_is(rest, j - i);
                    assert(rest.subrange(0, j - i) =~= chars@.subrange(i as int, j as int));
                    assert(rest.skip(j - i) =~= chars@.skip(j as int));
                }
                let tok_chars = chars_range(&chars, i, j);
                let tok = string_from_chars(&tok_chars);
                let ghost old_views = str_views(out@);
                out.push(tok);
                proof {
                    assert(str_views(out@) =~= old_views.push(tok@));
                    assert(old_views + (seq![tok@] + split_ws(chars@.skip(j as int)))
                        =~= old_views.push(tok@) + split_ws(chars@.skip(j as int)));
                }
                i = j;
            }
        }
        proof {
            assert(chars@.skip(n as int) =~= Seq::<char>::empty());
            assert(str_views(out@) + Seq::<Seq<char>>::empty() =~= str_views(out@));
        }
        out
    }

    /// Parses one line of whitespace-separated link tokens; a blank line
    /// parses to no links. The first malformed token fails the whole line
    /// with its own error.
    #[verifier::loop_isolation(false)]
    pub fn parse_links(line: &str) -> (r: Result<Vec<Link>, ParsingError>)
        ensures
            ({
                let toks = split_ws(line@);
                &&& (r is Ok <==> forall|k: int| 0 <= k < toks.len() ==> link_ok(#[trigger] toks[k]))
                &&& r matches Ok(v) ==> {
                    &&& v@.len() == toks.len()
                    &&& forall|k: int|
                        0 <= k < toks.len() ==> {
                            &&& (#[trigger] v@[k]).source == digits_val(
                                link_parts(toks[k])->Some_0.0,
                            )
                            &&& v@[k].target == digits_val(link_parts(toks[k])->Some_0.1)
                        }
                }
                &&& r matches Err(e) ==> {
                    &&& first_bad_link(toks) < toks.len()
                    &&& e == link_err(toks[first_bad_link(toks)])
                }
            }),
    {
        let ghost toksv = split_ws(line@);
        let toks = Self::parse_toks(line);
        let mut links: Vec<Link> = Vec::new();
        let mut k: usize = 0;
        while k < toks.len()
            invariant
                k <= toks@.len(),
                str_views(toks@) == toksv,
                links@.len() == k,
                forall|j: int| 0 <= j < k ==> link_ok(#[trigger] toksv[j]),
                forall|j: int|
                    0 <= j < k ==> {
                        &&& (#[trigger] links@[j]).source == digits_val(
                            link_parts(toksv[j])->Some_0.0,
                        )
                        &&& links@[j].target == digits_val(link_parts(toksv[j])->Some_0.1)
                    },
            decreases toks@.len() - k,
        {
            proof {
                assert(toksv[k as int] == toks@[k as int]@);
            }
            match Self::parse_link(toks[k].as_str()) {
                Ok(l) => {
                    links.push(l);
                },
                Err(e) => {
                    proof {
                        lemma_first_bad_link_is(toksv, k as int);
                    }
                    return Err(e);
                },
            }
            k = k + 1;
        }
        Ok(links)
    }

    /// Parses a window of link lines, one link list per line, in order.
    /// The first line with a malformed token fails the whole window with
    /// that token's error.
    #[verifier::loop_isolation(false)]
    pub fn parse_links_lines(lines: &Vec<String>) -> (r: Result<Vec<Vec<Link>>, ParsingError>)
        ensures
            ({
                let n = lines@.len() as int;
                &&& (r is Ok <==> forall|m: int| 0 <= m < n ==> line_links_ok(#[trigger] lines@[m]@))
                &&& r matches Ok(lists) ==> {
                    &&& lists@.len() == n
                    &&& forall|m: int|
                        0 <= m < n ==> links_of_line(#[trigger] lines@[m]@, lists@[m]@)
                }
                &&& r matches Err(e) ==> ({
                    let b = first_bad_line(str_views(lines@));
                    &&& 0 <= b < n
                    &&& !line_links_ok(lines@[b]@)
                    &&& e == line_links_err(lines@[b]@)
                })
            }),
    {
        let ghost linesv = str_views(lines@);
        let mut lists: Vec<Vec<Link>> = Vec::new();
        let mut m: usize = 0;
        while m < lines.len()
            invariant
                m <= lines@.len(),
                lists@.len() == m,
                forall|k: int| 0 <= k < m ==> line_links_ok(#[trigger] lines@[k]@),
                forall|k: int| 0 <= k < m ==> links_of_line(#[trigger] lines@[k]@, lists@[k]@),
            decreases lines@.len() - m,
        {
            proof {
                assert(linesv[m as int] == lines@[m as int]@);
            }
            match Self::parse_links(lines[m].as_str()) {
                Ok(links) => {
                    lists.push(links);
                },
                Err(e) => {
                    proof {
                        assert(forall|k: int|
                            0 <= k < m ==> line_links_ok(#[trigger] linesv[k]));
                        lemma_first_bad_line_is(linesv, m as int);
                    }
                    return Err(e);
                },
            }
            m = m + 1;
        }
        Ok(lists)
    }

    /// The language name the key selects in this reader's configuration.
    pub fn lang_key_to_lang(&self, lang_key: LangKey) -> (r: String)
        ensures
            r@ == (match lang_key {
                LangKey::SOURCE => self.config.langs.source@,
                LangKey::TARGET => self.config.langs.target@,
            }),
    {
        match lang_key {
            LangKey::SOURCE => self.config.langs.source.clone(),
            LangKey::TARGET => self.config.langs.target.clone(),
        }
    }

    /// The window of lines this reader's configuration selects: the lines
    /// after the first `textunit_offset`, at most `textunit_limit` of them.
    pub fn window<T>(&self, lines: Vec<T>) -> (r: Vec<T>)
        ensures
            r@ == window_spec(
                lines@,
                self.config.textunit_offset as int,
                self.config.textunit_limit as int,
            ),
    {
        let mut v = lines;
        let off = if self.config.textunit_offset > v.len() {
            v.len()
        } else {
            self.config.textunit_offset
        };
        let cap = if self.config.textunit_limit > v.len() - off {
            v.len()
        } else {
            off + self.config.textunit_limit
        };
        let ghost lines0 = v@;
        while v.len() > cap
            invariant
                cap <= v@.len() <= lines0.len(),
                v@ == lines0.subrange(0, v@.len() as int),
            decreases v@.len(),
        {
            v.pop();
            proof {
                assert(lines0.subrange(0, v@.len() as int + 1).drop_last() =~= lines0.subrange(
                    0,
                    v@.len() as int,
                ));
            }
        }
        let mut k: usize = 0;
        while k < off
            invariant
                k <= off,
                off <= cap <= lines0.len(),
                v@ == lines0.subrange(k as int, cap as int),
            decreases off - k,
        {
            v.remove(0);
            proof {
                assert(lines0.subrange(k as int, cap as int).remove(0) =~= lines0.subrange(
                    k + 1,
                    cap as int,
                ));
            }
            k = k + 1;
        }
        proof {
            assert(v@ =~= window_spec(
                lines0,
                self.config.textunit_offset as int,
                self.config.textunit_limit as int,
            ));
        }
        v
    }
}

/// The window a skip count and a maximum count select from a sequence.
pub open spec fn window_spec<T>(s: Seq<T>, offset: int, limit: int) -> Seq<T> {
    let lo = if offset > s.len() {
        s.len() as int
    } else {
        offset
    };
    let hi = if limit > s.len() - lo {
        s.len() as int
    } else {
        lo + limit
    };
    s.subrange(lo, hi)
}

} // verus!
