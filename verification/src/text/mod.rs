//! Text as a sequence of characters: the searching, splitting, trimming and
//! number formats that the config parsers are written in.
//!
//! A spec function on `Seq<char>` says what each operation yields; the
//! executable function of the same name works on a `&[char]` and hands out
//! parts of it without copying.

pub mod laws;
pub mod number;
pub mod split;
pub mod utf16;

use vstd::prelude::*;
use vstd::string::*;

verus! {

broadcast use vstd::seq_lib::group_seq_properties;

/// `String::push` appends one character.
pub assume_specification[ String::push ](s: &mut String, c: char)
    ensures
        final(s)@ == old(s)@.push(c),
;

// ---------------------------------------------------------------------
// Characters
// ---------------------------------------------------------------------

/// The characters with Unicode's `White_Space` property.
pub open spec fn is_white(c: char) -> bool {
    ||| '\u{9}' <= c <= '\u{d}'
    ||| c == ' '
    ||| c == '\u{85}'
    ||| c == '\u{a0}'
    ||| c == '\u{1680}'
    ||| '\u{2000}' <= c <= '\u{200a}'
    ||| c == '\u{2028}'
    ||| c == '\u{2029}'
    ||| c == '\u{202f}'
    ||| c == '\u{205f}'
    ||| c == '\u{3000}'
}

/// Whether `c` has Unicode's `White_Space` property.
pub fn white(c: char) -> (r: bool)
    ensures
        r == is_white(c),
{
    ('\u{9}' <= c && c <= '\u{d}') || c == ' ' || c == '\u{85}' || c == '\u{a0}' || c == '\u{1680}'
        || ('\u{2000}' <= c && c <= '\u{200a}') || c == '\u{2028}' || c == '\u{2029}' || c
        == '\u{202f}' || c == '\u{205f}' || c == '\u{3000}'
}

/// An ASCII decimal digit.
pub open spec fn is_digit(c: char) -> bool {
    '0' <= c <= '9'
}

/// An ASCII letter.
pub open spec fn is_alpha(c: char) -> bool {
    'a' <= c <= 'z' || 'A' <= c <= 'Z'
}

/// Whether `c` is an ASCII decimal digit.
pub fn digit(c: char) -> (r: bool)
    ensures
        r == is_digit(c),
{
    '0' <= c && c <= '9'
}

/// Whether `c` is an ASCII letter.
pub fn alpha(c: char) -> (r: bool)
    ensures
        r == is_alpha(c),
{
    ('a' <= c && c <= 'z') || ('A' <= c && c <= 'Z')
}

/// `c` with an ASCII upper-case letter turned into its lower-case one.
pub open spec fn lower_char(c: char) -> char {
    if 'A' <= c <= 'Z' {
        ((c as u32 + 32) as u32) as char
    } else {
        c
    }
}

/// ASCII lower case of one character.
pub fn lower_of(c: char) -> (r: char)
    ensures
        r == lower_char(c),
{
    if 'A' <= c && c <= 'Z' {
        let n: u8 = c as u8;
        (n + 32) as char
    } else {
        c
    }
}

/// `s` with every ASCII upper-case letter turned into its lower-case one.
pub open spec fn lower(s: Seq<char>) -> Seq<char> {
    Seq::new(s.len(), |i: int| lower_char(s[i]))
}

/// ASCII lower case.
pub fn to_lower(s: &[char]) -> (r: Vec<char>)
    ensures
        r@ == lower(s@),
{
    let mut out: Vec<char> = Vec::new();
    let mut i: usize = 0;
    while i < s.len()
        invariant
            i <= s@.len(),
            out@ == lower(s@.take(i as int)),
        decreases s@.len() - i,
    {
        out.push(lower_of(s[i]));
        i = i + 1;
        assert(out@ =~= lower(s@.take(i as int)));
    }
    assert(s@.take(i as int) =~= s@);
    out
}

/// Lower case of a text is that of its parts.
pub proof fn lemma_lower_joins(a: Seq<char>, b: Seq<char>)
    ensures
        lower(a + b) == lower(a) + lower(b),
{
    assert(lower(a + b) =~= lower(a) + lower(b));
}

/// Whether two texts are the same but for case.
pub fn same_but_case(a: &str, b: &str) -> (r: bool)
    ensures
        r == (lower(a@) == lower(b@)),
{
    let x = chars(a);
    let y = chars(b);
    let lx = to_lower(x.as_slice());
    let ly = to_lower(y.as_slice());
    same(lx.as_slice(), ly.as_slice())
}

// ---------------------------------------------------------------------
// Strings and character sequences
// ---------------------------------------------------------------------

/// The characters of a string.
pub fn chars(s: &str) -> (v: Vec<char>)
    ensures
        v@ == s@,
{
    let mut v: Vec<char> = Vec::new();
    for c in it: s.chars()
        invariant
            v@ == it.seq().take(it.index()),
    {
        v.push(c);
    }
    v
}

/// The string that holds the characters `s`.
pub fn string(s: &[char]) -> (r: String)
    ensures
        r@ == s@,
{
    let mut out: String = String::new();
    push_chars(&mut out, s);
    assert(out@ =~= s@);
    out
}

/// Append the characters `s`.
pub fn push_chars(out: &mut String, s: &[char])
    ensures
        final(out)@ == old(out)@ + s@,
{
    let mut i: usize = 0;
    assert(out@ =~= old(out)@ + s@.take(0));
    while i < s.len()
        invariant
            i <= s@.len(),
            out@ == old(out)@ + s@.take(i as int),
        decreases s@.len() - i,
    {
        out.push(s[i]);
        i = i + 1;
        assert(out@ =~= old(out)@ + s@.take(i as int));
    }
    assert(s@.take(i as int) =~= s@);
}

/// A copy of the characters `s`.
pub fn copy(s: &[char]) -> (r: Vec<char>)
    ensures
        r@ == s@,
{
    vstd::slice::slice_to_vec(s)
}

/// `a` followed by `b`.
pub fn join2(a: &str, b: &str) -> (r: String)
    ensures
        r@ == a@ + b@,
{
    let mut out: String = String::new();
    out.append(a);
    out.append(b);
    assert(out@ =~= a@ + b@);
    out
}

/// What the parts of a split hold.
pub open spec fn texts(v: Seq<&[char]>) -> Seq<Seq<char>> {
    Seq::new(v.len(), |i: int| v[i]@)
}

/// What an optional string holds.
pub open spec fn opt(s: Option<String>) -> Option<Seq<char>> {
    match s {
        Some(t) => Some(t@),
        None => None,
    }
}

/// Whether two character sequences are the same.
pub fn same(a: &[char], b: &[char]) -> (r: bool)
    ensures
        r == (a@ == b@),
{
    if a.len() != b.len() {
        return false;
    }
    let mut i: usize = 0;
    while i < a.len()
        invariant
            i <= a@.len(),
            a@.len() == b@.len(),
            forall|j: int| 0 <= j < i ==> a@[j] == b@[j],
        decreases a@.len() - i,
    {
        if a[i] != b[i] {
            return false;
        }
        i = i + 1;
    }
    assert(a@ =~= b@);
    true
}

/// Whether `a` is the text of `lit`.
pub fn is_str(a: &[char], lit: &str) -> (r: bool)
    ensures
        r == (a@ == lit@),
{
    let l = chars(lit);
    same(a, l.as_slice())
}

/// Whether two strings hold the same text.
pub fn eq(a: &str, b: &str) -> (r: bool)
    ensures
        r == (a@ == b@),
{
    let ca = chars(a);
    is_str(ca.as_slice(), b)
}

/// Whether an optional string is there and holds `name`.
pub fn opt_is(a: &Option<String>, name: &[char]) -> (r: bool)
    ensures
        r == (opt(*a) == Some(name@)),
{
    match a {
        Some(t) => is_str(name, t.as_str()),
        None => false,
    }
}

/// A copy of an optional string.
pub fn opt_copy(a: &Option<String>) -> (r: Option<String>)
    ensures
        opt(r) == opt(*a),
{
    match a {
        Some(t) => Some(t.clone()),
        None => None,
    }
}

/// What [`String::from_utf8_lossy`] makes of `bytes`.
pub uninterp spec fn utf8_lossy(bytes: Seq<u8>) -> Seq<char>;

/// `String::from_utf8_lossy`: the text that `bytes` encode, with a replacement
/// character for what is not UTF-8; valid UTF-8 comes out as it is.
#[verifier::external_body]
pub(crate) fn lossy(bytes: &[u8]) -> (r: String)
    ensures
        r@ == utf8_lossy(bytes@),
        vstd::utf8::valid_utf8(bytes@) ==> r@ == vstd::utf8::decode_utf8(bytes@),
{
    String::from_utf8_lossy(bytes).into_owned()
}

/// `std::str::from_utf8`: the text that `bytes` encode, if they are UTF-8.
#[verifier::external_body]
pub(crate) fn utf8(bytes: &[u8]) -> (r: Option<String>)
    ensures
        opt(r) == (if vstd::utf8::valid_utf8(bytes@) {
            Some(vstd::utf8::decode_utf8(bytes@))
        } else {
            None
        }),
{
    match std::str::from_utf8(bytes) {
        Ok(s) => Some(s.to_owned()),
        Err(_) => None,
    }
}

// ---------------------------------------------------------------------
// Searching
// ---------------------------------------------------------------------

/// The predicate "is the character `c`".
pub open spec fn eq_to(c: char) -> spec_fn(char) -> bool {
    |x: char| x == c
}

/// The predicate "is not the character `c`".
pub open spec fn not_eq_to(c: char) -> spec_fn(char) -> bool {
    |x: char| x != c
}

/// The predicate "is white space".
pub open spec fn whites() -> spec_fn(char) -> bool {
    |x: char| is_white(x)
}

/// The predicate "is not white space".
pub open spec fn blacks() -> spec_fn(char) -> bool {
    |x: char| !is_white(x)
}

/// The first position whose character satisfies `p`; the length, if none does.
pub open spec fn first(s: Seq<char>, p: spec_fn(char) -> bool) -> nat
    decreases s.len(),
{
    if s.len() == 0 || p(s[0]) {
        0
    } else {
        1 + first(s.drop_first(), p)
    }
}

/// One past the last position whose character satisfies `p`; 0, if none does.
pub open spec fn last_end(s: Seq<char>, p: spec_fn(char) -> bool) -> nat
    decreases s.len(),
{
    if s.len() == 0 || p(s.last()) {
        s.len()
    } else {
        last_end(s.drop_last(), p)
    }
}

pub proof fn lemma_first(s: Seq<char>, p: spec_fn(char) -> bool)
    ensures
        first(s, p) <= s.len(),
        forall|j: int| 0 <= j < first(s, p) ==> !p(#[trigger] s[j]),
        first(s, p) < s.len() ==> p(s[first(s, p) as int]),
    decreases s.len(),
{
    if s.len() != 0 && !p(s[0]) {
        let t = s.drop_first();
        lemma_first(t, p);
        assert forall|j: int| 0 <= j < first(s, p) implies !p(#[trigger] s[j]) by {
            if j > 0 {
                assert(s[j] == t[j - 1]);
            }
        }
    }
}

pub proof fn lemma_first_is(s: Seq<char>, p: spec_fn(char) -> bool, i: int)
    requires
        0 <= i <= s.len(),
        forall|j: int| 0 <= j < i ==> !p(#[trigger] s[j]),
        i < s.len() ==> p(s[i]),
    ensures
        first(s, p) == i,
{
    lemma_first(s, p);
    if first(s, p) < i {
        assert(!p(s[first(s, p) as int]));
    } else if first(s, p) > i {
        assert(!p(s[i]));
    }
}

pub proof fn lemma_last_end(s: Seq<char>, p: spec_fn(char) -> bool)
    ensures
        last_end(s, p) <= s.len(),
        forall|j: int| last_end(s, p) <= j < s.len() ==> !p(#[trigger] s[j]),
        last_end(s, p) > 0 ==> p(s[last_end(s, p) - 1]),
    decreases s.len(),
{
    if s.len() != 0 && !p(s.last()) {
        let t = s.drop_last();
        lemma_last_end(t, p);
        assert forall|j: int| last_end(s, p) <= j < s.len() implies !p(#[trigger] s[j]) by {
            if j < s.len() - 1 {
                assert(s[j] == t[j]);
            }
        }
    }
}

pub proof fn lemma_last_end_is(s: Seq<char>, p: spec_fn(char) -> bool, i: int)
    requires
        0 <= i <= s.len(),
        forall|j: int| i <= j < s.len() ==> !p(#[trigger] s[j]),
        i > 0 ==> p(s[i - 1]),
    ensures
        last_end(s, p) == i,
{
    lemma_last_end(s, p);
    if last_end(s, p) > i {
        assert(!p(s[last_end(s, p) - 1]));
    } else if last_end(s, p) < i {
        assert(!p(s[i - 1]));
    }
}

/// The first position of `c`, or the length.
pub fn find(s: &[char], c: char) -> (i: usize)
    ensures
        i == first(s@, eq_to(c)),
        i <= s@.len(),
        i < s@.len() ==> s@[i as int] == c,
{
    let mut i: usize = 0;
    while i < s.len() && s[i] != c
        invariant
            i <= s@.len(),
            forall|j: int| 0 <= j < i ==> #[trigger] s@[j] != c,
        decreases s@.len() - i,
    {
        i = i + 1;
    }
    proof {
        lemma_first_is(s@, eq_to(c), i as int);
    }
    i
}

/// One past the last position of `c`, or 0.
pub fn rfind_end(s: &[char], c: char) -> (i: usize)
    ensures
        i == last_end(s@, eq_to(c)),
        i <= s@.len(),
        i > 0 ==> s@[i - 1] == c,
{
    let mut i: usize = s.len();
    while i > 0 && s[i - 1] != c
        invariant
            i <= s@.len(),
            forall|j: int| i <= j < s@.len() ==> #[trigger] s@[j] != c,
        decreases i,
    {
        i = i - 1;
    }
    proof {
        lemma_last_end_is(s@, eq_to(c), i as int);
    }
    i
}

/// The first white space, or the length.
pub fn find_white(s: &[char]) -> (i: usize)
    ensures
        i == first(s@, whites()),
        i <= s@.len(),
        i < s@.len() ==> is_white(s@[i as int]),
        forall|j: int| 0 <= j < i ==> !is_white(#[trigger] s@[j]),
{
    let mut i: usize = 0;
    while i < s.len() && !white(s[i])
        invariant
            i <= s@.len(),
            forall|j: int| 0 <= j < i ==> !is_white(#[trigger] s@[j]),
        decreases s@.len() - i,
    {
        i = i + 1;
    }
    proof {
        lemma_first_is(s@, whites(), i as int);
    }
    i
}

/// The first character that is not white space, or the length.
pub fn find_black(s: &[char]) -> (i: usize)
    ensures
        i == first(s@, blacks()),
        i <= s@.len(),
        i < s@.len() ==> !is_white(s@[i as int]),
        forall|j: int| 0 <= j < i ==> is_white(#[trigger] s@[j]),
{
    let mut i: usize = 0;
    while i < s.len() && white(s[i])
        invariant
            i <= s@.len(),
            forall|j: int| 0 <= j < i ==> is_white(#[trigger] s@[j]),
        decreases s@.len() - i,
    {
        i = i + 1;
    }
    proof {
        lemma_first_is(s@, blacks(), i as int);
    }
    i
}

/// The first `n` characters.
pub fn take(s: &[char], n: usize) -> (r: &[char])
    requires
        n <= s@.len(),
    ensures
        r@ == s@.take(n as int),
{
    vstd::slice::slice_subrange(s, 0, n)
}

/// All but the first `n` characters.
pub fn skip(s: &[char], n: usize) -> (r: &[char])
    requires
        n <= s@.len(),
    ensures
        r@ == s@.skip(n as int),
{
    let r = vstd::slice::slice_subrange(s, n, s.len());
    assert(r@ =~= s@.skip(n as int));
    r
}

/// Lower case moves the letters from `A` to `Z` by 32 places and keeps
/// everything else.
pub proof fn law_lower_case(s: Seq<char>, i: int)
    requires
        0 <= i < s.len(),
    ensures
        lower(s).len() == s.len(),
        'A' <= s[i] <= 'Z' ==> lower(s)[i] as int == s[i] as int + 32,
        !('A' <= s[i] <= 'Z') ==> lower(s)[i] == s[i],
{
}

} // verus!
