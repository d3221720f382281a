//! Trimming, prefixes and splitting.

use crate::text::{
    blacks, chars, copy, eq_to, find, find_black, find_white, first, is_white, last_end, lemma_first,
    lemma_last_end_is, not_eq_to, rfind_end, same, skip, take, texts, white, whites,
};
use vstd::prelude::*;

verus! {

broadcast use vstd::seq_lib::group_seq_properties;

// ---------------------------------------------------------------------
// Trimming
// ---------------------------------------------------------------------

/// `s` without leading white space.
pub open spec fn trim_start(s: Seq<char>) -> Seq<char> {
    s.skip(first(s, blacks()) as int)
}

/// `s` without trailing white space.
pub open spec fn trim_end(s: Seq<char>) -> Seq<char> {
    s.take(last_end(s, blacks()) as int)
}

/// `s` without leading and trailing white space.
pub open spec fn trim(s: Seq<char>) -> Seq<char> {
    trim_end(trim_start(s))
}

/// `s` without the run of `c` at its start.
pub open spec fn trim_start_char(s: Seq<char>, c: char) -> Seq<char> {
    s.skip(first(s, not_eq_to(c)) as int)
}

/// `s` without the run of `c` at its end.
pub open spec fn trim_end_char(s: Seq<char>, c: char) -> Seq<char> {
    s.take(last_end(s, not_eq_to(c)) as int)
}

/// `s` without every copy of `p` at its end.
pub open spec fn trim_end_str(s: Seq<char>, p: Seq<char>) -> Seq<char>
    decreases s.len(),
{
    if p.len() > 0 && ends_with(s, p) {
        trim_end_str(s.take(s.len() - p.len()), p)
    } else {
        s
    }
}

/// Drop leading and trailing white space.
pub fn trimmed(s: &[char]) -> (r: &[char])
    ensures
        r@ == trim(s@),
{
    let a: usize = find_black(s);
    trimmed_end(skip(s, a))
}

/// Drop trailing white space.
pub fn trimmed_end(s: &[char]) -> (r: &[char])
    ensures
        r@ == trim_end(s@),
{
    let mut i: usize = s.len();
    while i > 0 && white(s[i - 1])
        invariant
            i <= s@.len(),
            forall|j: int| i <= j < s@.len() ==> is_white(#[trigger] s@[j]),
        decreases i,
    {
        i = i - 1;
    }
    proof {
        lemma_last_end_is(s@, blacks(), i as int);
    }
    take(s, i)
}

/// Drop the run of `c` at the start.
pub fn trimmed_start_char(s: &[char], c: char) -> (r: &[char])
    ensures
        r@ == trim_start_char(s@, c),
{
    let mut i: usize = 0;
    while i < s.len() && s[i] == c
        invariant
            i <= s@.len(),
            forall|j: int| 0 <= j < i ==> #[trigger] s@[j] == c,
        decreases s@.len() - i,
    {
        i = i + 1;
    }
    proof {
        crate::text::lemma_first_is(s@, not_eq_to(c), i as int);
    }
    skip(s, i)
}

/// Drop the run of `c` at the end.
pub fn trimmed_end_char(s: &[char], c: char) -> (r: &[char])
    ensures
        r@ == trim_end_char(s@, c),
{
    let mut i: usize = s.len();
    while i > 0 && s[i - 1] == c
        invariant
            i <= s@.len(),
            forall|j: int| i <= j < s@.len() ==> #[trigger] s@[j] == c,
        decreases i,
    {
        i = i - 1;
    }
    proof {
        lemma_last_end_is(s@, not_eq_to(c), i as int);
    }
    take(s, i)
}

/// Drop every copy of `p` at the end.
pub fn trimmed_end_str<'a>(s: &'a [char], p: &str) -> (r: &'a [char])
    ensures
        r@ == trim_end_str(s@, p@),
{
    let pat = chars(p);
    let mut t: &'a [char] = s;
    while pat.len() > 0 && ends_with_chars(t, pat.as_slice())
        invariant
            pat@ == p@,
            trim_end_str(t@, p@) == trim_end_str(s@, p@),
        decreases t@.len(),
    {
        t = take(t, t.len() - pat.len());
    }
    t
}

// ---------------------------------------------------------------------
// Prefixes and suffixes
// ---------------------------------------------------------------------

/// `s` begins with `p`.
pub open spec fn starts_with(s: Seq<char>, p: Seq<char>) -> bool {
    p.len() <= s.len() && s.take(p.len() as int) == p
}

/// `s` ends with `p`.
pub open spec fn ends_with(s: Seq<char>, p: Seq<char>) -> bool {
    p.len() <= s.len() && s.skip(s.len() - p.len()) == p
}

/// What follows the prefix `p`, if `s` has it.
pub open spec fn strip_prefix(s: Seq<char>, p: Seq<char>) -> Option<Seq<char>> {
    if starts_with(s, p) {
        Some(s.skip(p.len() as int))
    } else {
        None
    }
}

/// Whether `s` begins with the character `c`.
pub open spec fn starts_char(s: Seq<char>, c: char) -> bool {
    s.len() > 0 && s[0] == c
}

/// Whether `s` ends with the character `c`.
pub open spec fn ends_char(s: Seq<char>, c: char) -> bool {
    s.len() > 0 && s.last() == c
}

/// `p` occurs somewhere in `s`.
pub open spec fn contains(s: Seq<char>, p: Seq<char>) -> bool {
    exists|i: int| 0 <= i <= s.len() && starts_with(#[trigger] s.skip(i), p)
}

pub fn starts_with_chars(s: &[char], p: &[char]) -> (r: bool)
    ensures
        r == starts_with(s@, p@),
{
    if p.len() > s.len() {
        return false;
    }
    same(take(s, p.len()), p)
}

pub fn ends_with_chars(s: &[char], p: &[char]) -> (r: bool)
    ensures
        r == ends_with(s@, p@),
{
    if p.len() > s.len() {
        return false;
    }
    same(skip(s, s.len() - p.len()), p)
}

/// Whether `s` begins with `p`.
pub fn has_prefix(s: &[char], p: &str) -> (r: bool)
    ensures
        r == starts_with(s@, p@),
{
    let pat = chars(p);
    starts_with_chars(s, pat.as_slice())
}

/// Whether `s` ends with `p`.
pub fn has_suffix(s: &[char], p: &str) -> (r: bool)
    ensures
        r == ends_with(s@, p@),
{
    let pat = chars(p);
    ends_with_chars(s, pat.as_slice())
}

/// What follows the prefix `p`.
pub fn after_prefix<'a>(s: &'a [char], p: &str) -> (r: Option<&'a [char]>)
    ensures
        match r {
            Some(t) => strip_prefix(s@, p@) == Some(t@),
            None => strip_prefix(s@, p@) is None,
        },
{
    let pat = chars(p);
    if starts_with_chars(s, pat.as_slice()) {
        Some(skip(s, pat.len()))
    } else {
        None
    }
}

/// Whether `s` begins with `c`.
pub fn begins(s: &[char], c: char) -> (r: bool)
    ensures
        r == starts_char(s@, c),
{
    s.len() > 0 && s[0] == c
}

/// Whether `s` ends with `c`.
pub fn ends(s: &[char], c: char) -> (r: bool)
    ensures
        r == ends_char(s@, c),
{
    s.len() > 0 && s[s.len() - 1] == c
}

/// Whether `p` occurs in `s`.
pub fn has_text(s: &[char], p: &str) -> (r: bool)
    ensures
        r == contains(s@, p@),
{
    let pat = chars(p);
    let mut i: usize = 0;
    while i <= s.len()
        invariant
            i <= s@.len() + 1,
            pat@ == p@,
            forall|j: int| 0 <= j < i ==> !starts_with(#[trigger] s@.skip(j), p@),
        decreases s@.len() + 1 - i,
    {
        if starts_with_chars(skip(s, i), pat.as_slice()) {
            return true;
        }
        if i == s.len() {
            return false;
        }
        i = i + 1;
    }
    false
}

// ---------------------------------------------------------------------
// Splitting
// ---------------------------------------------------------------------

/// The parts of `s` before and after the first `c`.
pub open spec fn split_once(s: Seq<char>, c: char) -> Option<(Seq<char>, Seq<char>)> {
    let i = first(s, eq_to(c)) as int;
    if i < s.len() {
        Some((s.take(i), s.skip(i + 1)))
    } else {
        None
    }
}

/// The parts of `s` before and after the first white space.
pub open spec fn split_once_white(s: Seq<char>) -> Option<(Seq<char>, Seq<char>)> {
    let i = first(s, whites()) as int;
    if i < s.len() {
        Some((s.take(i), s.skip(i + 1)))
    } else {
        None
    }
}

/// The parts of `s` before and after the last `c`.
pub open spec fn rsplit_once(s: Seq<char>, c: char) -> Option<(Seq<char>, Seq<char>)> {
    let i = last_end(s, eq_to(c)) as int;
    if i > 0 {
        Some((s.take(i - 1), s.skip(i)))
    } else {
        None
    }
}

/// What follows the last `c`; all of `s`, if there is none.
pub open spec fn after_last(s: Seq<char>, c: char) -> Seq<char> {
    s.skip(last_end(s, eq_to(c)) as int)
}

/// What precedes the first `c`; all of `s`, if there is none.
pub open spec fn before_first(s: Seq<char>, c: char) -> Seq<char> {
    s.take(first(s, eq_to(c)) as int)
}

/// The pieces between the occurrences of `c`: one more than there are.
pub open spec fn split(s: Seq<char>, c: char) -> Seq<Seq<char>>
    decreases s.len(),
{
    let i = first(s, eq_to(c)) as int;
    if i < s.len() {
        seq![s.take(i)] + split(s.skip(i + 1), c)
    } else {
        seq![s]
    }
}

/// `s` without one carriage return at its end.
pub open spec fn strip_cr(s: Seq<char>) -> Seq<char> {
    if ends_char(s, '\r') {
        s.drop_last()
    } else {
        s
    }
}

/// The lines of `s`: each ends at a newline, with a carriage return in front
/// of it dropped too; the newline of the last line is optional.
pub open spec fn lines(s: Seq<char>) -> Seq<Seq<char>>
    decreases s.len(),
{
    let i = first(s, eq_to('\n')) as int;
    if s.len() == 0 {
        seq![]
    } else if i < s.len() {
        seq![strip_cr(s.take(i))] + lines(s.skip(i + 1))
    } else {
        seq![s]
    }
}

/// The maximal runs of characters that are not white space.
pub open spec fn words(s: Seq<char>) -> Seq<Seq<char>>
    decreases s.len(),
{
    let t = trim_start(s);
    let n = first(t, whites()) as int;
    if t.len() == 0 {
        seq![]
    } else {
        proof {
            lemma_first(s, blacks());
            lemma_first(t, whites());
        }
        seq![t.take(n)] + words(t.skip(n))
    }
}

/// `parts` with `sep` between each two.
pub open spec fn join(parts: Seq<Seq<char>>, sep: Seq<char>) -> Seq<char>
    decreases parts.len(),
{
    if parts.len() == 0 {
        seq![]
    } else if parts.len() == 1 {
        parts[0]
    } else {
        join(parts.drop_last(), sep) + sep + parts.last()
    }
}

/// Split at the first `c`.
pub fn cut(s: &[char], c: char) -> (r: Option<(&[char], &[char])>)
    ensures
        match r {
            Some((a, b)) => split_once(s@, c) == Some((a@, b@)),
            None => split_once(s@, c) is None,
        },
{
    let i: usize = find(s, c);
    if i < s.len() {
        Some((take(s, i), skip(s, i + 1)))
    } else {
        None
    }
}

/// Split at the first white space.
pub fn cut_white(s: &[char]) -> (r: Option<(&[char], &[char])>)
    ensures
        match r {
            Some((a, b)) => split_once_white(s@) == Some((a@, b@)),
            None => split_once_white(s@) is None,
        },
{
    let i: usize = find_white(s);
    if i < s.len() {
        Some((take(s, i), skip(s, i + 1)))
    } else {
        None
    }
}

/// Split at the last `c`.
pub fn rcut(s: &[char], c: char) -> (r: Option<(&[char], &[char])>)
    ensures
        match r {
            Some((a, b)) => rsplit_once(s@, c) == Some((a@, b@)),
            None => rsplit_once(s@, c) is None,
        },
{
    let i: usize = rfind_end(s, c);
    if i > 0 {
        Some((take(s, i - 1), skip(s, i)))
    } else {
        None
    }
}

/// What follows the last `c`.
pub fn tail_after(s: &[char], c: char) -> (r: &[char])
    ensures
        r@ == after_last(s@, c),
{
    let i: usize = rfind_end(s, c);
    skip(s, i)
}

/// What precedes the first `c`.
pub fn head_before(s: &[char], c: char) -> (r: &[char])
    ensures
        r@ == before_first(s@, c),
{
    let i: usize = find(s, c);
    take(s, i)
}

/// The pieces between the occurrences of `c`.
pub fn pieces<'a>(s: &'a [char], c: char) -> (r: Vec<&'a [char]>)
    ensures
        texts(r@) == split(s@, c),
{
    let mut out: Vec<&'a [char]> = Vec::new();
    let mut rest: &'a [char] = s;
    let mut i: usize = find(rest, c);
    assert(texts(out@) + split(rest@, c) =~= split(s@, c));
    while i < rest.len()
        invariant
            i == first(rest@, eq_to(c)),
            i <= rest@.len(),
            texts(out@) + split(rest@, c) == split(s@, c),
        decreases rest@.len(),
    {
        let ghost before = out@;
        let part = take(rest, i);
        let next = skip(rest, i + 1);
        out.push(part);
        proof {
            assert(texts(out@) =~= texts(before).push(part@));
            assert(texts(before) + (seq![part@] + split(next@, c)) =~= texts(out@) + split(next@, c));
        }
        rest = next;
        i = find(rest, c);
    }
    let ghost before = out@;
    out.push(rest);
    assert(texts(out@) =~= texts(before) + seq![rest@]);
    out
}

/// The lines of a text.
pub fn text_lines<'a>(s: &'a [char]) -> (r: Vec<&'a [char]>)
    ensures
        texts(r@) == lines(s@),
{
    let mut out: Vec<&'a [char]> = Vec::new();
    let mut rest: &'a [char] = s;
    assert(texts(out@) + lines(rest@) =~= lines(s@));
    while rest.len() > 0
        invariant
            texts(out@) + lines(rest@) == lines(s@),
        decreases rest@.len(),
    {
        let ghost before = out@;
        let i: usize = find(rest, '\n');
        if i < rest.len() {
            let mut part = take(rest, i);
            if ends(part, '\r') {
                part = take(part, part.len() - 1);
            }
            assert(part@ =~= strip_cr(rest@.take(i as int)));
            let next = skip(rest, i + 1);
            out.push(part);
            proof {
                assert(texts(out@) =~= texts(before).push(part@));
                assert(texts(before) + (seq![part@] + lines(next@)) =~= texts(out@) + lines(next@));
            }
            rest = next;
        } else {
            out.push(rest);
            let next = skip(rest, rest.len());
            proof {
                assert(texts(out@) =~= texts(before).push(rest@));
                assert(texts(before) + seq![rest@] =~= texts(out@) + lines(next@));
            }
            rest = next;
        }
    }
    assert(texts(out@) =~= lines(s@));
    out
}

/// The words of a text.
pub fn text_words<'a>(s: &'a [char]) -> (r: Vec<&'a [char]>)
    ensures
        texts(r@) == words(s@),
{
    let mut out: Vec<&'a [char]> = Vec::new();
    let k: usize = find_black(s);
    let mut rest: &'a [char] = skip(s, k);
    proof {
        lemma_words_skip(s@);
        assert(texts(out@) + words(rest@) =~= words(s@));
    }
    while rest.len() > 0
        invariant
            texts(out@) + words(rest@) == words(s@),
            rest@.len() > 0 ==> !is_white(rest@[0]),
        decreases rest@.len(),
    {
        let ghost before = out@;
        let n: usize = find_white(rest);
        let part = take(rest, n);
        let after = skip(rest, n);
        let m: usize = find_black(after);
        let next = skip(after, m);
        out.push(part);
        proof {
            crate::text::lemma_first_is(rest@, blacks(), 0);
            assert(trim_start(rest@) =~= rest@);
            lemma_words_skip(after@);
            assert(n > 0);
            assert(texts(out@) =~= texts(before).push(part@));
            assert(texts(before) + (seq![part@] + words(after@)) =~= texts(out@) + words(after@));
        }
        rest = next;
    }
    assert(texts(out@) =~= words(s@));
    out
}

/// White space in front changes no word.
pub proof fn lemma_words_skip(s: Seq<char>)
    ensures
        words(trim_start(s)) == words(s),
{
    let t = trim_start(s);
    lemma_first(s, blacks());
    if t.len() > 0 {
        crate::text::lemma_first_is(t, blacks(), 0);
        assert(trim_start(t) =~= t);
    } else {
        assert(trim_start(t) =~= t);
    }
}

/// Write `parts` one after another with `sep` between each two.
pub fn join_parts(parts: &Vec<&[char]>, sep: &str) -> (r: Vec<char>)
    ensures
        r@ == join(texts(parts@), sep@),
{
    let sp = chars(sep);
    let mut out: Vec<char> = Vec::new();
    let mut i: usize = 0;
    assert(texts(parts@).take(0) =~= Seq::<Seq<char>>::empty());
    while i < parts.len()
        invariant
            i <= parts@.len(),
            sp@ == sep@,
            out@ == join(texts(parts@).take(i as int), sep@),
        decreases parts@.len() - i,
    {
        if i > 0 {
            let mut s2 = copy(sp.as_slice());
            out.append(&mut s2);
        }
        let mut p = copy(parts[i]);
        out.append(&mut p);
        proof {
            let t = texts(parts@).take(i + 1);
            assert(t.drop_last() =~= texts(parts@).take(i as int));
            assert(t.last() == parts@[i as int]@);
            if i == 0 {
                assert(out@ =~= t[0]);
            }
        }
        i = i + 1;
    }
    assert(texts(parts@).take(i as int) =~= texts(parts@));
    out
}

} // verus!
