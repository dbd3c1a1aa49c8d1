//! Character-level helpers: moving between strings and character vectors,
//! ASCII-only case-insensitive comparison, and literal substring replacement.

use vstd::prelude::*;

verus! {

/// Relies on String::push: it appends exactly the given character.
#[verifier::external_body]
fn push_char(s: &mut String, c: char)
    ensures
        final (s)@ == old(s)@.push(c),
{
    s.push(c);
}

/// Builds the string whose characters are exactly the given vector.
pub(crate) fn string_from_chars(v: &Vec<char>) -> (r: String)
    ensures
        r@ == v@,
{
    let mut r = String::new();
    let mut i: usize = 0;
    while i < v.len()
        invariant
            i <= v.len(),
            r@ == v@.subrange(0, i as int),
        decreases v.len() - i,
    {
        push_char(&mut r, v[i]);
        proof {
            assert(r@ =~= v@.subrange(0, i + 1));
        }
        i = i + 1;
    }
    proof {
        assert(v@.subrange(0, v@.len() as int) =~= v@);
    }
    r
}

/// The characters of the text, as a vector.
pub(crate) fn str_chars(txt: &str) -> (r: Vec<char>)
    ensures
        r@ == txt@,
{
    let n = txt.unicode_len();
    let mut r: Vec<char> = Vec::new();
    let mut i: usize = 0;
    while i < n
        invariant
            i <= n,
            n == txt@.len(),
            r@ == txt@.subrange(0, i as int),
        decreases n - i,
    {
        r.push(txt.get_char(i));
        proof {
            assert(r@ =~= txt@.subrange(0, i + 1));
        }
        i = i + 1;
    }
    proof {
        assert(txt@.subrange(0, n as int) =~= txt@);
    }
    r
}

/// The character sequences of a sequence of strings.
pub open spec fn str_views(ts: Seq<String>) -> Seq<Seq<char>> {
    ts.map_values(|t: String| t@)
}

/// The character's code, with an ASCII capital letter folded to lower case.
/// Case outside ASCII is left as it is.
pub open spec fn fold_ascii(c: char) -> u32 {
    let u = c as u32;
    if 65 <= u <= 90 {
        (u + 32) as u32
    } else {
        u
    }
}

/// Equality of two character sequences up to ASCII case.
pub open spec fn eq_ignore_ascii_case(a: Seq<char>, b: Seq<char>) -> bool {
    a.len() == b.len() && forall|i: int|
        0 <= i < a.len() ==> fold_ascii(#[trigger] a[i]) == fold_ascii(b[i])
}

fn fold_ascii_exec(c: char) -> (r: u32)
    ensures
        r == fold_ascii(c),
{
    let u = c as u32;
    if 65 <= u && u <= 90 {
        u + 32
    } else {
        u
    }
}

/// Whether two character vectors are equal up to ASCII case.
pub(crate) fn eq_ignore_ascii_case_exec(a: &Vec<char>, b: &Vec<char>) -> (r: bool)
    ensures
        r == eq_ignore_ascii_case(a@, b@),
{
    if a.len() != b.len() {
        return false;
    }
    let mut i: usize = 0;
    while i < a.len()
        invariant
            i <= a.len(),
            a@.len() == b@.len(),
            forall|j: int| 0 <= j < i ==> fold_ascii(#[trigger] a@[j]) == fold_ascii(b@[j]),
        decreases a.len() - i,
    {
        if fold_ascii_exec(a[i]) != fold_ascii_exec(b[i]) {
            return false;
        }
        i = i + 1;
    }
    true
}

/// The sequence with every occurrence of a non-empty pattern replaced, taking
/// occurrences leftmost first and without overlap, as str::replace does.
pub open spec fn replaced(s: Seq<char>, pat: Seq<char>, to: Seq<char>) -> Seq<char>
    decreases s.len(),
{
    if pat.len() == 0 || s.len() < pat.len() {
        s
    } else if s.subrange(0, pat.len() as int) == pat {
        to + replaced(s.skip(pat.len() as int), pat, to)
    } else {
        seq![s[0]] + replaced(s.drop_first(), pat, to)
    }
}

/// Whether the pattern occurs in s starting at position i.
fn matches_at(s: &Vec<char>, pat: &Vec<char>, i: usize) -> (r: bool)
    requires
        i + pat@.len() <= s@.len(),
    ensures
        r == (s@.subrange(i as int, i + pat@.len()) == pat@),
{
    let n = s.len();
    let mut k: usize = 0;
    while k < pat.len()
        invariant
            k <= pat@.len(),
            n == s@.len(),
            i + pat@.len() <= s@.len(),
            forall|j: int| 0 <= j < k ==> s@[i + j] == pat@[j],
        decreases pat.len() - k,
    {
        if s[i + k] != pat[k] {
            proof {
                assert(s@.subrange(i as int, i + pat@.len())[k as int] != pat@[k as int]);
            }
            return false;
        }
        k = k + 1;
    }
    proof {
        assert(s@.subrange(i as int, i + pat@.len()) =~= pat@);
    }
    true
}

/// The characters in the half-open range, as their own vector.
pub(crate) fn chars_range(v: &Vec<char>, s: usize, e: usize) -> (r: Vec<char>)
    requires
        s <= e <= v@.len(),
    ensures
        r@ == v@.subrange(s as int, e as int),
{
    let mut r: Vec<char> = Vec::new();
    let mut i: usize = s;
    while i < e
        invariant
            s <= i <= e <= v@.len(),
            r@ == v@.subrange(s as int, i as int),
        decreases e - i,
    {
        r.push(v[i]);
        proof {
            assert(r@ =~= v@.subrange(s as int, i + 1));
        }
        i = i + 1;
    }
    r
}

/// Appends every character of the second vector to the first.
fn push_all(r: &mut Vec<char>, v: &Vec<char>)
    ensures
        final (r)@ == old(r)@ + v@,
{
    let mut k: usize = 0;
    while k < v.len()
        invariant
            k <= v@.len(),
            r@ == old(r)@ + v@.subrange(0, k as int),
        decreases v.len() - k,
    {
        r.push(v[k]);
        proof {
            assert(old(r)@ + v@.subrange(0, k as int) + seq![v@[k as int]] =~= old(r)@
                + v@.subrange(0, k + 1));
        }
        k = k + 1;
    }
    proof {
        assert(old(r)@ + v@.subrange(0, 0) =~= old(r)@);
        assert(old(r)@ + v@.subrange(0, v@.len() as int) =~= old(r)@ + v@);
    }
}

/// Replaces every occurrence of a non-empty pattern, leftmost first and
/// without overlap.
pub(crate) fn replace_chars(s: &Vec<char>, pat: &Vec<char>, to: &Vec<char>) -> (r: Vec<char>)
    requires
        pat@.len() > 0,
    ensures
        r@ == replaced(s@, pat@, to@),
{
    let mut r: Vec<char> = Vec::new();
    let mut i: usize = 0;
    proof {
        assert(Seq::<char>::empty() + replaced(s@.skip(0), pat@, to@) =~= replaced(
            s@.skip(0),
            pat@,
            to@,
        ));
        assert(s@.skip(0) =~= s@);
    }
    while i < s.len()
        invariant
            i <= s@.len(),
            pat@.len() > 0,
            replaced(s@, pat@, to@) == r@ + replaced(s@.skip(i as int), pat@, to@),
        decreases s.len() - i,
    {
        let ghost rest = s@.skip(i as int);
        if pat.len() <= s.len() - i && matches_at(s, pat, i) {
            proof {
                assert(rest.subrange(0, pat@.len() as int) =~= s@.subrange(
                    i as int,
                    i + pat@.len(),
                ));
                assert(rest.skip(pat@.len() as int) =~= s@.skip(i + pat@.len()));
                assert(replaced(rest, pat@, to@) == to@ + replaced(
                    s@.skip(i + pat@.len()),
                    pat@,
                    to@,
                ));
                assert(r@ + (to@ + replaced(s@.skip(i + pat@.len()), pat@, to@)) =~= (r@ + to@)
                    + replaced(s@.skip(i + pat@.len()), pat@, to@));
            }
            push_all(&mut r, to);
            i = i + pat.len();
        } else {
            proof {
                if pat@.len() <= rest.len() {
                    assert(rest.subrange(0, pat@.len() as int) =~= s@.subrange(
                        i as int,
                        i + pat@.len(),
                    ));
                }
                assert(rest.drop_first() =~= s@.skip(i + 1));
                if rest.len() < pat@.len() {
                    assert(replaced(rest, pat@, to@) == rest);
                    assert(replaced(rest.drop_first(), pat@, to@) == rest.drop_first());
                    assert(rest =~= seq![rest[0]] + rest.drop_first());
                }
                assert(replaced(rest, pat@, to@) == seq![s@[i as int]] + replaced(
                    s@.skip(i + 1),
                    pat@,
                    to@,
                ));
                assert(r@ + (seq![s@[i as int]] + replaced(s@.skip(i + 1), pat@, to@)) =~= r@.push(
                    s@[i as int],
                ) + replaced(s@.skip(i + 1), pat@, to@));
            }
            r.push(s[i]);
            i = i + 1;
        }
    }
    proof {
        assert(s@.skip(s@.len() as int) =~= Seq::<char>::empty());
        assert(r@ + Seq::<char>::empty() =~= r@);
    }
    r
}

} // verus!
