//! rpm-style version comparison for kernel version strings
//! ("6.6.30-200.fc39" > "6.6.9-100.fc39", which plain string sort gets wrong).

use crate::seqs::views;
use crate::text::split::{trim_start_char, trimmed_start_char};
use crate::text::{alpha, chars, digit, first, is_alpha, is_digit, lemma_first, lemma_first_is, skip, take};
use core::cmp::Ordering;
use vstd::arithmetic::power::{lemma_pow_increases, lemma_pow_positive, pow};
use vstd::prelude::*;

verus! {

broadcast use vstd::seq_lib::group_seq_properties;

/// A maximal run of digits or of letters.
pub enum Segment {
    Num(Seq<char>),
    Alpha(Seq<char>),
}

/// The predicate "is not a digit".
pub open spec fn no_digit() -> spec_fn(char) -> bool {
    |c: char| !is_digit(c)
}

/// The predicate "is not a letter".
pub open spec fn no_alpha() -> spec_fn(char) -> bool {
    |c: char| !is_alpha(c)
}

/// The runs of digits and of letters; everything else separates them.
pub open spec fn segments_of(s: Seq<char>) -> Seq<Segment>
    decreases s.len(),
{
    if s.len() == 0 {
        seq![]
    } else if is_digit(s[0]) {
        let n = first(s, no_digit()) as int;
        proof {
            lemma_first(s, no_digit());
        }
        seq![Segment::Num(s.take(n))] + segments_of(s.skip(n))
    } else if is_alpha(s[0]) {
        let n = first(s, no_alpha()) as int;
        proof {
            lemma_first(s, no_alpha());
        }
        seq![Segment::Alpha(s.take(n))] + segments_of(s.skip(n))
    } else {
        segments_of(s.skip(1))
    }
}

/// Dictionary order of two texts, by character: negative, zero or positive.
pub open spec fn text_order(a: Seq<char>, b: Seq<char>) -> int
    decreases a.len(),
{
    if a.len() == 0 && b.len() == 0 {
        0
    } else if a.len() == 0 {
        -1
    } else if b.len() == 0 {
        1
    } else if a[0] < b[0] {
        -1
    } else if b[0] < a[0] {
        1
    } else {
        text_order(a.skip(1), b.skip(1))
    }
}

/// Order of two numerals by value, however long they are.
pub open spec fn numeral_order(a: Seq<char>, b: Seq<char>) -> int {
    let x = trim_start_char(a, '0');
    let y = trim_start_char(b, '0');
    if x.len() < y.len() {
        -1
    } else if y.len() < x.len() {
        1
    } else {
        text_order(x, y)
    }
}

/// Order of two segments: numbers by value, letters by dictionary, and a
/// number above letters.
pub open spec fn segment_order(x: Segment, y: Segment) -> int {
    match (x, y) {
        (Segment::Num(a), Segment::Num(b)) => numeral_order(a, b),
        (Segment::Alpha(a), Segment::Alpha(b)) => text_order(a, b),
        (Segment::Num(_), Segment::Alpha(_)) => 1,
        (Segment::Alpha(_), Segment::Num(_)) => -1,
    }
}

/// Dictionary order of two lists of segments.
pub open spec fn segments_order(a: Seq<Segment>, b: Seq<Segment>) -> int
    decreases a.len(),
{
    if a.len() == 0 && b.len() == 0 {
        0
    } else if a.len() == 0 {
        -1
    } else if b.len() == 0 {
        1
    } else if segment_order(a[0], b[0]) != 0 {
        segment_order(a[0], b[0])
    } else {
        segments_order(a.skip(1), b.skip(1))
    }
}

/// Order of two versions: negative where `a` is the older one.
pub open spec fn version_order(a: Seq<char>, b: Seq<char>) -> int {
    segments_order(segments_of(a), segments_of(b))
}

/// A segment of a version.
enum Seg<'a> {
    Num(&'a [char]),
    Alpha(&'a [char]),
}

impl<'a> View for Seg<'a> {
    type V = Segment;

    closed spec fn view(&self) -> Segment {
        match *self {
            Seg::Num(s) => Segment::Num(s@),
            Seg::Alpha(s) => Segment::Alpha(s@),
        }
    }
}

fn segments<'a>(s: &'a [char]) -> (r: Vec<Seg<'a>>)
    ensures
        views(r@) == segments_of(s@),
{
    let mut out: Vec<Seg<'a>> = Vec::new();
    let mut rest: &'a [char] = s;
    assert(views(out@) + segments_of(rest@) =~= segments_of(s@));
    while rest.len() > 0
        invariant
            views(out@) + segments_of(rest@) == segments_of(s@),
        decreases rest@.len(),
    {
        let ghost before = out@;
        if digit(rest[0]) {
            let mut n: usize = 0;
            while n < rest.len() && digit(rest[n])
                invariant
                    n <= rest@.len(),
                    forall|j: int| 0 <= j < n ==> is_digit(#[trigger] rest@[j]),
                decreases rest@.len() - n,
            {
                n = n + 1;
            }
            proof {
                lemma_first_is(rest@, no_digit(), n as int);
            }
            let part = take(rest, n);
            let next = skip(rest, n);
            out.push(Seg::Num(part));
            proof {
                assert(views(out@) =~= views(before).push(Segment::Num(part@)));
                assert(views(before) + (seq![Segment::Num(part@)] + segments_of(next@)) =~= views(out@)
                    + segments_of(next@));
            }
            rest = next;
        } else if alpha(rest[0]) {
            let mut n: usize = 0;
            while n < rest.len() && alpha(rest[n])
                invariant
                    n <= rest@.len(),
                    forall|j: int| 0 <= j < n ==> is_alpha(#[trigger] rest@[j]),
                decreases rest@.len() - n,
            {
                n = n + 1;
            }
            proof {
                lemma_first_is(rest@, no_alpha(), n as int);
            }
            let part = take(rest, n);
            let next = skip(rest, n);
            out.push(Seg::Alpha(part));
            proof {
                assert(views(out@) =~= views(before).push(Segment::Alpha(part@)));
                assert(views(before) + (seq![Segment::Alpha(part@)] + segments_of(next@))
                    =~= views(out@) + segments_of(next@));
            }
            rest = next;
        } else {
            rest = skip(rest, 1);
        }
    }
    assert(views(out@) =~= segments_of(s@));
    out
}

/// Dictionary order of two texts.
pub fn compare_text(a: &[char], b: &[char]) -> (r: i8)
    ensures
        r == text_order(a@, b@),
{
    let mut i: usize = 0;
    assert(a@.skip(0) =~= a@);
    assert(b@.skip(0) =~= b@);
    while i < a.len() && i < b.len()
        invariant
            i <= a@.len(),
            i <= b@.len(),
            text_order(a@, b@) == text_order(a@.skip(i as int), b@.skip(i as int)),
        decreases a@.len() - i,
    {
        proof {
            assert(a@.skip(i as int)[0] == a@[i as int]);
            assert(b@.skip(i as int)[0] == b@[i as int]);
            assert(a@.skip(i as int).skip(1) =~= a@.skip(i + 1));
            assert(b@.skip(i as int).skip(1) =~= b@.skip(i + 1));
        }
        if a[i] < b[i] {
            return -1;
        }
        if b[i] < a[i] {
            return 1;
        }
        i = i + 1;
    }
    if a.len() == b.len() {
        0
    } else if a.len() < b.len() {
        -1
    } else {
        1
    }
}

/// Order of two numerals by value, without parsing them (kernel versions
/// won't overflow u64, but build hashes in version strings might).
fn compare_numerals(a: &[char], b: &[char]) -> (r: i8)
    ensures
        r == numeral_order(a@, b@),
{
    let x = trimmed_start_char(a, '0');
    let y = trimmed_start_char(b, '0');
    if x.len() < y.len() {
        -1
    } else if y.len() < x.len() {
        1
    } else {
        compare_text(x, y)
    }
}

/// Order of two versions.
pub fn compare_versions(a: &[char], b: &[char]) -> (r: i8)
    ensures
        r == version_order(a@, b@),
{
    let sa = segments(a);
    let sb = segments(b);
    let ghost va = views(sa@);
    let ghost vb = views(sb@);
    let mut i: usize = 0;
    assert(va.skip(0) =~= va);
    assert(vb.skip(0) =~= vb);
    while i < sa.len() && i < sb.len()
        invariant
            i <= sa@.len(),
            i <= sb@.len(),
            va == views(sa@),
            vb == views(sb@),
            version_order(a@, b@) == segments_order(va, vb),
            segments_order(va, vb) == segments_order(va.skip(i as int), vb.skip(i as int)),
        decreases sa@.len() - i,
    {
        let ord: i8 = match (&sa[i], &sb[i]) {
            (Seg::Num(x), Seg::Num(y)) => compare_numerals(x, y),
            (Seg::Alpha(x), Seg::Alpha(y)) => compare_text(x, y),
            (Seg::Num(_), Seg::Alpha(_)) => 1,
            (Seg::Alpha(_), Seg::Num(_)) => -1,
        };
        proof {
            assert(va.skip(i as int)[0] == sa@[i as int]@);
            assert(vb.skip(i as int)[0] == sb@[i as int]@);
            assert(va.skip(i as int).skip(1) =~= va.skip(i + 1));
            assert(vb.skip(i as int).skip(1) =~= vb.skip(i + 1));
        }
        if ord != 0 {
            return ord;
        }
        i = i + 1;
    }
    if sa.len() == sb.len() {
        0
    } else if sa.len() < sb.len() {
        -1
    } else {
        1
    }
}

/// Compare two version strings, rpmvercmp-style: split into alternating
/// numeric/alphabetic segments (separators ignored), numeric segments
/// compare numerically, and a numeric segment beats an alphabetic one.
pub fn vercmp(a: &str, b: &str) -> (r: Ordering)
    ensures
        match r {
            Ordering::Less => version_order(a@, b@) < 0,
            Ordering::Equal => version_order(a@, b@) == 0,
            Ordering::Greater => version_order(a@, b@) > 0,
        },
{
    let ca = chars(a);
    let cb = chars(b);
    let ord: i8 = compare_versions(ca.as_slice(), cb.as_slice());
    if ord < 0 {
        Ordering::Less
    } else if ord > 0 {
        Ordering::Greater
    } else {
        Ordering::Equal
    }
}

// ---------------------------------------------------------------------
// Laws
// ---------------------------------------------------------------------

proof fn lemma_text_order(a: Seq<char>, b: Seq<char>, c: Seq<char>)
    ensures
        text_order(a, a) == 0,
        text_order(b, a) == -text_order(a, b),
        text_order(a, b) <= 0 && text_order(b, c) <= 0 ==> text_order(a, c) <= 0,
        text_order(a, b) <= 0 && text_order(b, c) < 0 ==> text_order(a, c) < 0,
        text_order(a, b) < 0 && text_order(b, c) <= 0 ==> text_order(a, c) < 0,
    decreases a.len() + b.len() + c.len(),
{
    if a.len() > 0 && b.len() > 0 && c.len() > 0 {
        lemma_text_order(a.skip(1), b.skip(1), c.skip(1));
    } else if a.len() > 0 && b.len() > 0 {
        lemma_text_order(a.skip(1), b.skip(1), c);
    } else if a.len() > 0 {
        lemma_text_order(a.skip(1), b, c);
    }
}

proof fn lemma_segment_order(a: Segment, b: Segment, c: Segment)
    ensures
        segment_order(a, a) == 0,
        segment_order(b, a) == -segment_order(a, b),
        segment_order(a, b) <= 0 && segment_order(b, c) <= 0 ==> segment_order(a, c) <= 0,
        segment_order(a, b) <= 0 && segment_order(b, c) < 0 ==> segment_order(a, c) < 0,
        segment_order(a, b) < 0 && segment_order(b, c) <= 0 ==> segment_order(a, c) < 0,
{
    let txt = |x: Segment|
        match x {
            Segment::Num(s) => trim_start_char(s, '0'),
            Segment::Alpha(s) => s,
        };
    lemma_text_order(txt(a), txt(b), txt(c));
}

proof fn lemma_segments_order(a: Seq<Segment>, b: Seq<Segment>, c: Seq<Segment>)
    ensures
        segments_order(a, a) == 0,
        segments_order(b, a) == -segments_order(a, b),
        segments_order(a, b) <= 0 && segments_order(b, c) <= 0 ==> segments_order(a, c) <= 0,
        segments_order(a, b) <= 0 && segments_order(b, c) < 0 ==> segments_order(a, c) < 0,
        segments_order(a, b) < 0 && segments_order(b, c) <= 0 ==> segments_order(a, c) < 0,
    decreases a.len() + b.len() + c.len(),
{
    if a.len() > 0 && b.len() > 0 && c.len() > 0 {
        lemma_segment_order(a[0], b[0], c[0]);
        lemma_segments_order(a.skip(1), b.skip(1), c.skip(1));
    } else if a.len() > 0 && b.len() > 0 {
        lemma_segment_order(a[0], b[0], b[0]);
        lemma_segments_order(a.skip(1), b.skip(1), c);
    } else if a.len() > 0 {
        lemma_segment_order(a[0], a[0], a[0]);
        lemma_segments_order(a.skip(1), b, c);
    }
}

/// Versions are totally ordered: a version is as new as itself, swapping two
/// versions swaps the verdict, and being no newer passes on.
pub proof fn law_versions_are_ordered(a: Seq<char>, b: Seq<char>, c: Seq<char>)
    ensures
        version_order(a, a) == 0,
        version_order(b, a) == -version_order(a, b),
        version_order(a, b) <= 0 && version_order(b, c) <= 0 ==> version_order(a, c) <= 0,
{
    lemma_segments_order(segments_of(a), segments_of(b), segments_of(c));
}

/// Separators do not matter: what is neither a digit nor a letter changes
/// nothing in front of a version.
pub proof fn law_separators_are_ignored(c: char, a: Seq<char>, b: Seq<char>)
    requires
        !is_digit(c),
        !is_alpha(c),
    ensures
        version_order(seq![c] + a, b) == version_order(a, b),
{
    assert((seq![c] + a).skip(1) =~= a);
}

/// The number that a run of decimal digits denotes: the sum of each digit times
/// ten to the power of its place.
pub open spec fn number(s: Seq<char>) -> int
    decreases s.len(),
{
    if s.len() == 0 {
        0
    } else {
        (s[0] as int - '0' as int) * pow(10, (s.len() - 1) as nat) + number(s.skip(1))
    }
}

/// All of `s` are decimal digits, and there is one.
pub open spec fn is_numeral(s: Seq<char>) -> bool {
    s.len() > 0 && forall|i: int| 0 <= i < s.len() ==> '0' <= #[trigger] s[i] <= '9'
}

/// All of `s` are letters, and there is one.
pub open spec fn is_word(s: Seq<char>) -> bool {
    s.len() > 0 && forall|i: int|
        0 <= i < s.len() ==> ('a' <= #[trigger] s[i] <= 'z' || 'A' <= s[i] <= 'Z')
}

/// `s` does not go on with a digit.
pub open spec fn no_digit_next(s: Seq<char>) -> bool {
    s.len() == 0 || !('0' <= s[0] <= '9')
}

/// `s` does not go on with a letter.
pub open spec fn no_letter_next(s: Seq<char>) -> bool {
    s.len() == 0 || !('a' <= s[0] <= 'z' || 'A' <= s[0] <= 'Z')
}

/// `a` comes before `b` in a dictionary: it is the start of `b`, or is smaller
/// at the first place where they differ.
pub open spec fn before(a: Seq<char>, b: Seq<char>) -> bool {
    exists|k: int|
        0 <= k <= a.len() && k < b.len() && #[trigger] a.take(k) == b.take(k) && (k == a.len()
            || a[k] < b[k])
}

proof fn lemma_number_bound(s: Seq<char>)
    requires
        forall|i: int| 0 <= i < s.len() ==> '0' <= #[trigger] s[i] <= '9',
    ensures
        0 <= number(s) < pow(10, s.len()),
    decreases s.len(),
{
    lemma_pow_positive(10, s.len());
    if s.len() > 0 {
        let t = s.skip(1);
        assert forall|i: int| 0 <= i < t.len() implies '0' <= #[trigger] t[i] <= '9' by {
            assert(t[i] == s[i + 1]);
        }
        lemma_number_bound(t);
        reveal(pow);
        let q = pow(10, t.len());
        let d = s[0] as int - '0' as int;
        assert(pow(10, s.len()) == 10 * q);
        assert(0 <= d * q <= 9 * q) by (nonlinear_arith)
            requires
                0 <= d <= 9,
                q >= 0,
        ;
    }
}

proof fn lemma_leading_zeros(s: Seq<char>)
    requires
        forall|i: int| 0 <= i < s.len() ==> '0' <= #[trigger] s[i] <= '9',
    ensures
        number(trim_start_char(s, '0')) == number(s),
        trim_start_char(s, '0').len() > 0 ==> trim_start_char(s, '0')[0] != '0',
        forall|i: int|
            0 <= i < trim_start_char(s, '0').len() ==> '0' <= #[trigger] trim_start_char(s, '0')[i]
                <= '9',
    decreases s.len(),
{
    let p = crate::text::not_eq_to('0');
    lemma_first(s, p);
    if s.len() > 0 && s[0] == '0' {
        let t = s.skip(1);
        assert(t =~= s.drop_first());
        assert forall|i: int| 0 <= i < t.len() implies '0' <= #[trigger] t[i] <= '9' by {
            assert(t[i] == s[i + 1]);
        }
        lemma_leading_zeros(t);
        lemma_first(t, p);
        assert(trim_start_char(s, '0') =~= trim_start_char(t, '0'));
        assert(0 * pow(10, t.len()) == 0);
    } else {
        assert(trim_start_char(s, '0') =~= s);
    }
}

proof fn lemma_same_length(x: Seq<char>, y: Seq<char>)
    requires
        x.len() == y.len(),
        forall|i: int| 0 <= i < x.len() ==> '0' <= #[trigger] x[i] <= '9',
        forall|i: int| 0 <= i < y.len() ==> '0' <= #[trigger] y[i] <= '9',
    ensures
        text_order(x, y) < 0 <==> number(x) < number(y),
        text_order(x, y) > 0 <==> number(x) > number(y),
    decreases x.len(),
{
    if x.len() > 0 {
        let t = x.skip(1);
        let u = y.skip(1);
        assert forall|i: int| 0 <= i < t.len() implies '0' <= #[trigger] t[i] <= '9' by {
            assert(t[i] == x[i + 1]);
        }
        assert forall|i: int| 0 <= i < u.len() implies '0' <= #[trigger] u[i] <= '9' by {
            assert(u[i] == y[i + 1]);
        }
        lemma_same_length(t, u);
        lemma_number_bound(t);
        lemma_number_bound(u);
        let q = pow(10, t.len());
        let d = x[0] as int - '0' as int;
        let e = y[0] as int - '0' as int;
        if d < e {
            assert(d * q + q <= e * q) by (nonlinear_arith)
                requires
                    d + 1 <= e,
                    q >= 0,
            ;
        } else if e < d {
            assert(e * q + q <= d * q) by (nonlinear_arith)
                requires
                    e + 1 <= d,
                    q >= 0,
            ;
        }
    }
}

proof fn lemma_shorter(x: Seq<char>, y: Seq<char>)
    requires
        x.len() < y.len(),
        y[0] != '0',
        forall|i: int| 0 <= i < x.len() ==> '0' <= #[trigger] x[i] <= '9',
        forall|i: int| 0 <= i < y.len() ==> '0' <= #[trigger] y[i] <= '9',
    ensures
        number(x) < number(y),
{
    lemma_number_bound(x);
    let u = y.skip(1);
    assert forall|i: int| 0 <= i < u.len() implies '0' <= #[trigger] u[i] <= '9' by {
        assert(u[i] == y[i + 1]);
    }
    lemma_number_bound(u);
    lemma_pow_increases(10, x.len(), u.len());
    let q = pow(10, u.len());
    let e = y[0] as int - '0' as int;
    assert(e * q >= q) by (nonlinear_arith)
        requires
            e >= 1,
            q >= 0,
    ;
}

proof fn lemma_numerals(a: Seq<char>, b: Seq<char>)
    requires
        is_numeral(a),
        is_numeral(b),
    ensures
        numeral_order(a, b) < 0 <==> number(a) < number(b),
        numeral_order(a, b) > 0 <==> number(a) > number(b),
{
    let x = trim_start_char(a, '0');
    let y = trim_start_char(b, '0');
    lemma_leading_zeros(a);
    lemma_leading_zeros(b);
    if x.len() < y.len() {
        lemma_shorter(x, y);
    } else if y.len() < x.len() {
        lemma_shorter(y, x);
    } else {
        lemma_same_length(x, y);
    }
}

/// A run in front of a text that does not go on with it is its first segment.
proof fn lemma_run_in_front(run: Seq<char>, rest: Seq<char>)
    requires
        is_numeral(run) && no_digit_next(rest) || is_word(run) && no_letter_next(rest),
    ensures
        segments_of(run + rest) == seq![
            if is_numeral(run) {
                Segment::Num(run)
            } else {
                Segment::Alpha(run)
            },
        ] + segments_of(rest),
{
    let s = run + rest;
    let n = run.len() as int;
    assert(s[0] == run[0]);
    assert(s.take(n) =~= run);
    assert(s.skip(n) =~= rest);
    let p = if is_numeral(run) {
        no_digit()
    } else {
        no_alpha()
    };
    assert forall|j: int| 0 <= j < n implies !p(#[trigger] s[j]) by {
        assert(s[j] == run[j]);
    }
    if n < s.len() {
        assert(s[n] == rest[0]);
    }
    lemma_first_is(s, p, n);
}

/// Numbers are compared by what they denote, however they are written; where
/// they are the same, what follows them decides.
pub proof fn law_numbers_go_by_value(a: Seq<char>, s: Seq<char>, b: Seq<char>, t: Seq<char>)
    requires
        is_numeral(a),
        is_numeral(b),
        no_digit_next(s),
        no_digit_next(t),
    ensures
        number(a) < number(b) ==> version_order(a + s, b + t) < 0,
        number(a) > number(b) ==> version_order(a + s, b + t) > 0,
        number(a) == number(b) ==> version_order(a + s, b + t) == version_order(s, t),
{
    lemma_run_in_front(a, s);
    lemma_run_in_front(b, t);
    lemma_numerals(a, b);
    let x = segments_of(a + s);
    let y = segments_of(b + t);
    assert(x.skip(1) =~= segments_of(s));
    assert(y.skip(1) =~= segments_of(t));
}

proof fn lemma_before(a: Seq<char>, b: Seq<char>, k: int)
    requires
        0 <= k <= a.len(),
        k < b.len(),
        a.take(k) == b.take(k),
        k == a.len() || a[k] < b[k],
    ensures
        text_order(a, b) < 0,
    decreases a.len(),
{
    if k > 0 {
        assert(a[0] == a.take(k)[0] && b[0] == b.take(k)[0]);
        assert(a.skip(1).take(k - 1) =~= a.take(k).skip(1));
        assert(b.skip(1).take(k - 1) =~= b.take(k).skip(1));
        lemma_before(a.skip(1), b.skip(1), k - 1);
    }
}

/// Letters are compared as in a dictionary; where they are the same, what
/// follows them decides.
pub proof fn law_letters_go_by_dictionary(a: Seq<char>, s: Seq<char>, b: Seq<char>, t: Seq<char>)
    requires
        is_word(a),
        is_word(b),
        no_letter_next(s),
        no_letter_next(t),
    ensures
        before(a, b) ==> version_order(a + s, b + t) < 0 && version_order(b + t, a + s) > 0,
        a == b ==> version_order(a + s, b + t) == version_order(s, t),
{
    lemma_run_in_front(a, s);
    lemma_run_in_front(b, t);
    lemma_text_order(a, b, b);
    let x = segments_of(a + s);
    let y = segments_of(b + t);
    assert(x.skip(1) =~= segments_of(s));
    assert(y.skip(1) =~= segments_of(t));
    if before(a, b) {
        let k = choose|k: int|
            0 <= k <= a.len() && k < b.len() && #[trigger] a.take(k) == b.take(k) && (k == a.len()
                || a[k] < b[k]);
        lemma_before(a, b, k);
    }
}

/// A number is newer than letters in the same place.
pub proof fn law_numbers_beat_letters(a: Seq<char>, s: Seq<char>, b: Seq<char>, t: Seq<char>)
    requires
        is_numeral(a),
        is_word(b),
        no_digit_next(s),
        no_letter_next(t),
    ensures
        version_order(a + s, b + t) > 0,
        version_order(b + t, a + s) < 0,
{
    lemma_run_in_front(a, s);
    lemma_run_in_front(b, t);
    assert(!is_numeral(b)) by {
        assert(b[0] == b[0]);
    }
}

/// What goes on where another version ends is newer, as long as a digit or a
/// letter comes.
pub proof fn law_longer_is_newer(a: Seq<char>)
    ensures
        (exists|i: int|
            0 <= i < a.len() && ('0' <= #[trigger] a[i] <= '9' || 'a' <= a[i] <= 'z' || 'A' <= a[i]
                <= 'Z')) ==> version_order(a, seq![]) > 0 && version_order(seq![], a) < 0,
        (forall|i: int|
            0 <= i < a.len() ==> !('0' <= #[trigger] a[i] <= '9' || 'a' <= a[i] <= 'z' || 'A'
                <= a[i] <= 'Z')) ==> version_order(a, seq![]) == 0,
    decreases a.len(),
{
    if a.len() > 0 {
        let t = a.skip(1);
        law_longer_is_newer(t);
        if !is_digit(a[0]) && !is_alpha(a[0]) {
            if exists|i: int|
                0 <= i < a.len() && ('0' <= #[trigger] a[i] <= '9' || 'a' <= a[i] <= 'z' || 'A'
                    <= a[i] <= 'Z') {
                let i = choose|i: int|
                    0 <= i < a.len() && ('0' <= #[trigger] a[i] <= '9' || 'a' <= a[i] <= 'z' || 'A'
                        <= a[i] <= 'Z');
                assert(t[i - 1] == a[i]);
            } else {
                assert forall|i: int| 0 <= i < t.len() implies !('0' <= #[trigger] t[i] <= '9'
                    || 'a' <= t[i] <= 'z' || 'A' <= t[i] <= 'Z') by {
                    assert(t[i] == a[i + 1]);
                }
            }
        } else {
            assert('0' <= a[0] <= '9' || 'a' <= a[0] <= 'z' || 'A' <= a[0] <= 'Z');
        }
    }
}

/// The segments of a text that is cut where no run goes on.
proof fn lemma_segments_join(p: Seq<char>, x: Seq<char>)
    requires
        p.len() == 0 || x.len() == 0 || !(is_digit(p.last()) && is_digit(x[0])) && !(is_alpha(
            p.last(),
        ) && is_alpha(x[0])),
    ensures
        segments_of(p + x) == segments_of(p) + segments_of(x),
    decreases p.len(),
{
    let s = p + x;
    if p.len() == 0 {
        assert(s =~= x);
        assert(segments_of(p) + segments_of(x) =~= segments_of(x));
    } else if is_digit(p[0]) || is_alpha(p[0]) {
        let q = if is_digit(p[0]) {
            no_digit()
        } else {
            no_alpha()
        };
        lemma_first(p, q);
        let n = first(p, q) as int;
        assert(s[0] == p[0]);
        assert forall|j: int| 0 <= j < n implies !q(#[trigger] s[j]) by {
            assert(s[j] == p[j]);
        }
        if n < p.len() {
            assert(s[n] == p[n]);
        } else if x.len() > 0 {
            assert(s[n] == x[0]);
            assert(p.last() == p[n - 1]);
            assert(!q(p[n - 1]));
        }
        lemma_first_is(s, q, n);
        assert(n > 0) by {
            assert(!q(p[0]));
        }
        lemma_segments_join(p.skip(n), x);
        assert(s.skip(n) =~= p.skip(n) + x);
        assert(s.take(n) =~= p.take(n));
        let one = segments_of(p)[0];
        assert(seq![one] + (segments_of(p.skip(n)) + segments_of(x)) =~= (seq![one] + segments_of(
            p.skip(n),
        )) + segments_of(x));
    } else {
        assert(s[0] == p[0]);
        lemma_segments_join(p.skip(1), x);
        assert(s.skip(1) =~= p.skip(1) + x);
    }
}

proof fn lemma_common_segments(p: Seq<Segment>, x: Seq<Segment>, y: Seq<Segment>)
    ensures
        segments_order(p + x, p + y) == segments_order(x, y),
    decreases p.len(),
{
    if p.len() == 0 {
        assert(p + x =~= x);
        assert(p + y =~= y);
    } else {
        lemma_segment_order(p[0], p[0], p[0]);
        lemma_common_segments(p.skip(1), x, y);
        assert((p + x).skip(1) =~= p.skip(1) + x);
        assert((p + y).skip(1) =~= p.skip(1) + y);
    }
}

/// What two versions start with alike does not matter, if it ends where neither
/// a number nor a word goes on.
pub proof fn law_common_start_does_not_matter(p: Seq<char>, x: Seq<char>, y: Seq<char>)
    requires
        p.len() > 0,
        '0' <= p.last() <= '9' ==> no_digit_next(x) && no_digit_next(y),
        'a' <= p.last() <= 'z' || 'A' <= p.last() <= 'Z' ==> no_letter_next(x) && no_letter_next(y),
    ensures
        version_order(p + x, p + y) == version_order(x, y),
{
    lemma_segments_join(p, x);
    lemma_segments_join(p, y);
    lemma_common_segments(segments_of(p), segments_of(x), segments_of(y));
}

} // verus!
