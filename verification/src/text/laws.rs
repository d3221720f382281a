//! What cutting and joining text owe each other.

use crate::text::split::{
    after_last, before_first, contains, join, lemma_words_skip, lines, rsplit_once, split, split_once,
    split_once_white, starts_with, strip_cr, strip_prefix, trim, trim_end, trim_end_char,
    trim_end_str, trim_start, trim_start_char, words,
};
use crate::text::{
    blacks, eq_to, first, is_white, last_end, lemma_first, lemma_first_is, lemma_last_end,
    lemma_last_end_is, not_eq_to, whites,
};
use vstd::prelude::*;

verus! {

/// A word of visible ASCII characters.
pub open spec fn plain(w: Seq<char>) -> bool {
    w.len() > 0 && forall|i: int| 0 <= i < w.len() ==> '!' <= #[trigger] w[i] <= '~'
}

/// Words of visible ASCII characters.
pub open spec fn all_plain(ws: Seq<Seq<char>>) -> bool {
    forall|i: int| 0 <= i < ws.len() ==> plain(#[trigger] ws[i])
}

/// Blanks and tabs only.
pub open spec fn blank(s: Seq<char>) -> bool {
    forall|i: int| 0 <= i < s.len() ==> #[trigger] s[i] == ' ' || s[i] == '\t'
}

/// A text that ends at the end of a line, or is empty.
pub open spec fn whole_lines(t: Seq<char>) -> bool {
    t.len() == 0 || t.last() == '\n'
}

/// What the first `c` divides is what stands before and behind it; without a
/// `c` nothing is divided.
pub proof fn law_split_once(a: Seq<char>, c: char, b: Seq<char>)
    requires
        !a.contains(c),
    ensures
        split_once(a + seq![c] + b, c) == Some((a, b)),
        split_once(a, c) is None,
        before_first(a + seq![c] + b, c) == a,
        before_first(a, c) == a,
{
    let s = a + seq![c] + b;
    lemma_first_is(s, eq_to(c), a.len() as int);
    lemma_first_is(a, eq_to(c), a.len() as int);
    assert(s.take(a.len() as int) =~= a);
    assert(s.skip(a.len() as int + 1) =~= b);
    assert(a.take(a.len() as int) =~= a);
}

/// What the last `c` divides is what stands before and behind it.
pub proof fn law_rsplit_once(a: Seq<char>, c: char, b: Seq<char>)
    requires
        !b.contains(c),
    ensures
        rsplit_once(a + seq![c] + b, c) == Some((a, b)),
        rsplit_once(b, c) is None,
        after_last(a + seq![c] + b, c) == b,
        after_last(b, c) == b,
{
    let s = a + seq![c] + b;
    lemma_last_end_is(s, eq_to(c), a.len() as int + 1);
    lemma_last_end_is(b, eq_to(c), 0);
    assert(s.take(a.len() as int) =~= a);
    assert(s.skip(a.len() as int + 1) =~= b);
    assert(b.skip(0) =~= b);
}

/// A `c` ends one piece and begins the next.
pub proof fn law_split(a: Seq<char>, c: char, b: Seq<char>)
    requires
        !a.contains(c),
    ensures
        split(a + seq![c] + b, c) == seq![a] + split(b, c),
        split(a, c) == seq![a],
{
    law_split_once(a, c, b);
    let s = a + seq![c] + b;
    lemma_first_is(s, eq_to(c), a.len() as int);
    lemma_first_is(a, eq_to(c), a.len() as int);
}

/// A prefix comes off what it was put in front of, and off nothing else.
pub proof fn law_strip_prefix(p: Seq<char>, s: Seq<char>)
    ensures
        strip_prefix(p + s, p) == Some(s),
        strip_prefix(s, p) matches Some(t) ==> s == p + t,
{
    assert((p + s).take(p.len() as int) =~= p);
    assert((p + s).skip(p.len() as int) =~= s);
    if starts_with(s, p) {
        assert(s =~= p + s.skip(p.len() as int));
    }
}

/// Every copy of `p` at the end comes off; nothing else does.
pub proof fn law_trim_end_str(s: Seq<char>, p: Seq<char>)
    requires
        p.len() > 0,
    ensures
        trim_end_str(s + p, p) == trim_end_str(s, p),
        (s.len() < p.len() || s.skip(s.len() - p.len()) != p) ==> trim_end_str(s, p) == s,
{
    assert((s + p).skip(s.len() as int) =~= p);
    assert((s + p).take(s.len() as int) =~= s);
}

/// Blanks round a text come off; those inside it stay.
pub proof fn law_trim(a: Seq<char>, s: Seq<char>, b: Seq<char>)
    requires
        blank(a),
        blank(b),
        s.len() > 0,
        '!' <= s[0] <= '~',
        '!' <= s.last() <= '~',
    ensures
        trim(a + s + b) == s,
{
    let t = a + s + b;
    assert forall|j: int| 0 <= j < a.len() implies !blacks()(#[trigger] t[j]) by {
        assert(t[j] == a[j]);
    }
    assert(t[a.len() as int] == s[0]);
    lemma_first_is(t, blacks(), a.len() as int);
    let u = trim_start(t);
    assert(u =~= s + b);
    assert forall|j: int| s.len() <= j < u.len() implies !blacks()(#[trigger] u[j]) by {
        assert(u[j] == b[j - s.len()]);
    }
    assert(u[s.len() - 1] == s.last());
    lemma_last_end_is(u, blacks(), s.len() as int);
    assert(u.take(s.len() as int) =~= s);
}

/// Lines follow one another: a text that ends at the end of a line keeps its
/// lines, whatever is appended.
pub proof fn law_lines_follow(t: Seq<char>, x: Seq<char>)
    requires
        whole_lines(t),
    ensures
        lines(t + x) == lines(t) + lines(x),
    decreases t.len(),
{
    if t.len() == 0 {
        assert(t + x =~= x);
        assert(lines(t) + lines(x) =~= lines(x));
    } else {
        lemma_first(t, eq_to('\n'));
        let i = first(t, eq_to('\n')) as int;
        if i == t.len() {
            assert(!eq_to('\n')(t[t.len() - 1]));
        }
        let s = t + x;
        assert forall|j: int| 0 <= j < i implies !eq_to('\n')(#[trigger] s[j]) by {
            assert(s[j] == t[j]);
        }
        lemma_first_is(s, eq_to('\n'), i);
        assert(s.take(i) =~= t.take(i));
        assert(s.skip(i + 1) =~= t.skip(i + 1) + x);
        law_lines_follow(t.skip(i + 1), x);
        let h = seq![strip_cr(t.take(i))];
        assert(h + (lines(t.skip(i + 1)) + lines(x)) =~= (h + lines(t.skip(i + 1))) + lines(x));
    }
}

/// A line that is appended is one line more, whether a newline ends it, a
/// carriage return and a newline, or the end of the text.
pub proof fn law_line_is_added(t: Seq<char>, l: Seq<char>)
    requires
        whole_lines(t),
        !l.contains('\n'),
        l.len() > 0 ==> l.last() != '\r',
    ensures
        lines(t + l + seq!['\n']) == lines(t).push(l),
        lines(t + l + seq!['\r', '\n']) == lines(t).push(l),
        l.len() > 0 ==> lines(t + l) == lines(t).push(l),
        lines(seq![]) == Seq::<Seq<char>>::empty(),
{
    let a = l + seq!['\n'];
    let b = l + seq!['\r', '\n'];
    assert(t + l + seq!['\n'] =~= t + a);
    assert(t + l + seq!['\r', '\n'] =~= t + b);
    law_lines_follow(t, a);
    law_lines_follow(t, b);
    law_lines_follow(t, l);
    lemma_first_is(a, eq_to('\n'), l.len() as int);
    lemma_first_is(b, eq_to('\n'), l.len() as int + 1);
    lemma_first_is(l, eq_to('\n'), l.len() as int);
    assert(a.take(l.len() as int) =~= l);
    assert(a.skip(l.len() as int + 1) =~= Seq::<char>::empty());
    assert(b.take(l.len() as int + 1) =~= l.push('\r'));
    assert(l.push('\r').drop_last() =~= l);
    assert(b.skip(l.len() as int + 2) =~= Seq::<char>::empty());
    assert(lines(Seq::<char>::empty()) =~= Seq::<Seq<char>>::empty());
    assert(lines(a) =~= seq![l]);
    assert(lines(b) =~= seq![l]);
    assert(lines(t) + seq![l] =~= lines(t).push(l));
}

/// White space parts words: the words of two texts with a blank or a tab
/// between them are those of the one and then those of the other.
pub proof fn law_words_follow(a: Seq<char>, c: char, b: Seq<char>)
    requires
        c == ' ' || c == '\t',
    ensures
        words(a + seq![c] + b) == words(a) + words(b),
    decreases a.len(),
{
    let s = a + seq![c] + b;
    let t = trim_start(a);
    let k = first(a, blacks()) as int;
    lemma_first(a, blacks());
    if t.len() == 0 {
        let u = seq![c] + b;
        assert forall|j: int| 0 <= j < k + 1 implies !blacks()(#[trigger] s[j]) by {
            if j < k {
                assert(s[j] == a[j]);
            }
        }
        lemma_words_skip_to(s, k + 1);
        assert(s.skip(k + 1) =~= b);
        assert(words(a) + words(b) =~= words(b));
    } else {
        let n = first(t, whites()) as int;
        lemma_first(t, whites());
        let u = t + seq![c] + b;
        assert(s.skip(k) =~= u);
        assert forall|j: int| 0 <= j < k implies !blacks()(#[trigger] s[j]) by {
            assert(s[j] == a[j]);
        }
        lemma_words_skip_to(s, k);
        assert(t[0] == a[k]);
        assert(u[0] == t[0]);
        lemma_first_is(u, blacks(), 0);
        assert(trim_start(u) =~= u);
        assert forall|j: int| 0 <= j < n implies !whites()(#[trigger] u[j]) by {
            assert(u[j] == t[j]);
        }
        if n < t.len() {
            assert(u[n] == t[n]);
        }
        lemma_first_is(u, whites(), n);
        assert(u.take(n) =~= t.take(n));
        assert(u.skip(n) =~= t.skip(n) + seq![c] + b);
        assert(n > 0);
        law_words_follow(t.skip(n), c, b);
        assert(seq![t.take(n)] + (words(t.skip(n)) + words(b)) =~= (seq![t.take(n)] + words(
            t.skip(n),
        )) + words(b));
    }
}

/// White space in front, as much of it as one likes, changes no word.
proof fn lemma_words_skip_to(s: Seq<char>, k: int)
    requires
        0 <= k <= s.len(),
        forall|j: int| 0 <= j < k ==> is_white(#[trigger] s[j]),
    ensures
        words(s.skip(k)) == words(s),
{
    lemma_words_skip(s);
    lemma_words_skip(s.skip(k));
    lemma_first(s, blacks());
    let f = first(s, blacks()) as int;
    if f < k {
        assert(is_white(s[f]));
    }
    let u = s.skip(k);
    assert forall|j: int| 0 <= j < f - k implies !blacks()(#[trigger] u[j]) by {
        assert(u[j] == s[j + k]);
    }
    if f < s.len() {
        assert(u[f - k] == s[f]);
    }
    lemma_first_is(u, blacks(), f - k);
    assert(trim_start(u) =~= trim_start(s));
}

/// A run of visible characters is one word; blanks make none.
pub proof fn law_word_is_one(w: Seq<char>, s: Seq<char>)
    requires
        plain(w),
        blank(s),
    ensures
        words(w) == seq![w],
        words(s) == Seq::<Seq<char>>::empty(),
{
    lemma_first_is(w, blacks(), 0);
    assert(trim_start(w) =~= w);
    lemma_first_is(w, whites(), w.len() as int);
    assert(w.take(w.len() as int) =~= w);
    lemma_no_words(w.skip(w.len() as int));
    assert(seq![w] + Seq::<Seq<char>>::empty() =~= seq![w]);
    lemma_no_words(s);
}

proof fn lemma_no_words(s: Seq<char>)
    requires
        forall|j: int| 0 <= j < s.len() ==> is_white(#[trigger] s[j]),
    ensures
        words(s) == Seq::<Seq<char>>::empty(),
{
    lemma_first_is(s, blacks(), s.len() as int);
    assert(trim_start(s).len() == 0);
}

/// Trimming changes no word.
pub proof fn lemma_words_of_trim(s: Seq<char>)
    ensures
        words(trim(s)) == words(s),
{
    lemma_words_skip(s);
    lemma_words_trim_end(trim_start(s));
}

proof fn lemma_words_trim_end(s: Seq<char>)
    ensures
        words(trim_end(s)) == words(s),
    decreases s.len(),
{
    let e = last_end(s, blacks()) as int;
    lemma_last_end(s, blacks());
    let v = trim_end(s);
    let t = trim_start(s);
    let k = first(s, blacks()) as int;
    lemma_first(s, blacks());
    if e == 0 {
        assert forall|j: int| 0 <= j < s.len() implies is_white(#[trigger] s[j]) by {
            assert(!blacks()(s[j]));
        }
        lemma_no_words(s);
        lemma_no_words(v);
    } else {
        if k >= e {
            assert(blacks()(s[e - 1]));
        }
        assert forall|j: int| 0 <= j < k implies !blacks()(#[trigger] v[j]) by {
            assert(v[j] == s[j]);
        }
        assert(v[k] == s[k]);
        lemma_first_is(v, blacks(), k);
        let tv = trim_start(v);
        let n = first(t, whites()) as int;
        lemma_first(t, whites());
        assert(tv =~= t.take(e - k));
        if n > e - k {
            assert(!whites()(t[e - k]));
            assert(t[e - k] == s[e]);
            assert(!blacks()(s[e]));
        }
        assert forall|j: int| 0 <= j < n implies !whites()(#[trigger] tv[j]) by {
            assert(tv[j] == t[j]);
        }
        if n < e - k {
            assert(tv[n] == t[n]);
        }
        lemma_first_is(tv, whites(), n);
        assert(tv.take(n) =~= t.take(n));
        let r = t.skip(n);
        assert(t[0] == s[k]);
        assert(n > 0);
        lemma_words_trim_end(r);
        assert forall|j: int| e - k - n <= j < r.len() implies !blacks()(#[trigger] r[j]) by {
            assert(r[j] == s[j + n + k]);
        }
        if e - k - n > 0 {
            assert(r[e - k - n - 1] == s[e - 1]);
        }
        lemma_last_end_is(r, blacks(), e - k - n);
        assert(tv.skip(n) =~= trim_end(r));
    }
}

/// A line that is a key, a blank or a tab, and a value: the key is cut off,
/// and what remains is the value. Where the value is empty but for white
/// space, nothing is cut.
pub proof fn lemma_key_and_value(key: Seq<char>, c: char, value: Seq<char>)
    requires
        plain(key),
        c == ' ' || c == '\t',
    ensures
        trim(value).len() > 0 ==> (split_once_white(trim(key + seq![c] + value)) matches Some(
            (k, rest),
        ) && k == key && trim(rest) == trim(value)),
        trim(value).len() == 0 ==> trim(key + seq![c] + value) == key && split_once_white(key) is None,
        trim(key + seq![c] + value).len() > 0,
        trim(key + seq![c] + value)[0] == key[0],
{
    let raw = key + seq![c] + value;
    lemma_first_is(raw, blacks(), 0);
    assert(trim_start(raw) =~= raw);
    let f = first(value, blacks()) as int;
    lemma_first(value, blacks());
    lemma_last_end(value, blacks());
    let e = last_end(value, blacks()) as int;
    let n = key.len() as int;
    if f == value.len() {
        if e > 0 {
            assert(!blacks()(value[e - 1]));
        }
        assert forall|j: int| n <= j < raw.len() implies !blacks()(#[trigger] raw[j]) by {
            if j > n {
                assert(raw[j] == value[j - n - 1]);
            }
        }
        assert(raw[n - 1] == key[n - 1]);
        lemma_last_end_is(raw, blacks(), n);
        assert(raw.take(n) =~= key);
        assert(trim_start(value) =~= Seq::<char>::empty());
        lemma_first_is(key, whites(), n);
    } else {
        assert(blacks()(value[f]));
        assert forall|j: int| n + 1 + e <= j < raw.len() implies !blacks()(#[trigger] raw[j]) by {
            assert(raw[j] == value[j - n - 1]);
        }
        if e == 0 {
            assert(!blacks()(value[f]));
        }
        assert(raw[n + e] == value[e - 1]);
        lemma_last_end_is(raw, blacks(), n + 1 + e);
        let line = trim(raw);
        let rest = value.take(e);
        assert(line =~= key + seq![c] + rest);
        assert forall|j: int| 0 <= j < n implies !whites()(#[trigger] line[j]) by {
            assert(line[j] == key[j]);
        }
        assert(line[n] == c);
        lemma_first_is(line, whites(), n);
        assert(line.take(n) =~= key);
        assert(line.skip(n + 1) =~= rest);
        assert(f < e);
        assert forall|j: int| 0 <= j < f implies !blacks()(#[trigger] rest[j]) by {
            assert(rest[j] == value[j]);
        }
        assert(rest[f] == value[f]);
        lemma_first_is(rest, blacks(), f);
        let a = trim_start(value);
        let b = trim_start(rest);
        assert(b =~= a.take(e - f));
        assert forall|j: int| e - f <= j < a.len() implies !blacks()(#[trigger] a[j]) by {
            assert(a[j] == value[j + f]);
        }
        assert(a[e - f - 1] == value[e - 1]);
        lemma_last_end_is(a, blacks(), e - f);
        assert(b[e - f - 1] == value[e - 1]);
        lemma_last_end_is(b, blacks(), e - f);
        assert(trim(rest) =~= trim(value));
    }
}

/// Words that were joined by blanks come apart again.
pub proof fn law_joined_words_come_apart(ws: Seq<Seq<char>>)
    requires
        all_plain(ws),
    ensures
        words(join(ws, seq![' '])) == ws,
    decreases ws.len(),
{
    if ws.len() == 0 {
        lemma_no_words(join(ws, seq![' ']));
        assert(ws =~= Seq::<Seq<char>>::empty());
    } else if ws.len() == 1 {
        law_word_is_one(ws[0], seq![]);
        assert(ws =~= seq![ws[0]]);
    } else {
        law_joined_words_come_apart(ws.drop_last());
        law_word_is_one(ws.last(), seq![]);
        law_words_follow(join(ws.drop_last(), seq![' ']), ' ', ws.last());
        assert(ws =~= ws.drop_last() + seq![ws.last()]);
    }
}

/// Pieces that were cut apart give the text again, joined by what was cut
/// away, and hold none of it.
pub proof fn law_pieces_join_again(s: Seq<char>, c: char)
    ensures
        join(split(s, c), seq![c]) == s,
        forall|i: int| 0 <= i < split(s, c).len() ==> !(#[trigger] split(s, c)[i]).contains(c),
    decreases s.len(),
{
    lemma_first(s, eq_to(c));
    let i = first(s, eq_to(c)) as int;
    if i < s.len() {
        let h = s.take(i);
        let t = s.skip(i + 1);
        law_pieces_join_again(t, c);
        lemma_join_front(h, split(t, c), seq![c]);
        assert(s =~= h + seq![c] + t);
        assert forall|k: int| 0 <= k < split(s, c).len() implies !(#[trigger] split(s, c)[k]).contains(
            c,
        ) by {
            if k == 0 {
                if h.contains(c) {
                    let j = choose|j: int| 0 <= j < h.len() && h[j] == c;
                    assert(s[j] == c);
                    assert(eq_to(c)(s[j]));
                }
            } else {
                assert(split(s, c)[k] == split(t, c)[k - 1]);
            }
        }
    } else {
        if s.contains(c) {
            let j = choose|j: int| 0 <= j < s.len() && s[j] == c;
            assert(eq_to(c)(s[j]));
        }
    }
}

/// A part put in front of others is joined in front of them.
pub proof fn lemma_join_front(h: Seq<char>, parts: Seq<Seq<char>>, sep: Seq<char>)
    requires
        parts.len() > 0,
    ensures
        join(seq![h] + parts, sep) == h + sep + join(parts, sep),
    decreases parts.len(),
{
    let all = seq![h] + parts;
    assert(all.last() == parts.last());
    if parts.len() == 1 {
        assert(all.drop_last() =~= seq![h]);
        assert(join(seq![h], sep) == h);
    } else {
        assert(all.drop_last() =~= seq![h] + parts.drop_last());
        lemma_join_front(h, parts.drop_last(), sep);
        assert(join(all, sep) =~= h + sep + join(parts, sep));
    }
}

/// A key, a blank or a tab, and a value on the same line make one line.
pub proof fn lemma_key_line(key: Seq<char>, c: char, value: Seq<char>)
    requires
        plain(key),
        c == ' ' || c == '\t',
        !value.contains('\n'),
        value.len() > 0 ==> value.last() != '\r',
    ensures
        !(key + seq![c] + value).contains('\n'),
        (key + seq![c] + value).last() != '\r',
{
    let l = key + seq![c] + value;
    if l.contains('\n') {
        let i = choose|i: int| 0 <= i < l.len() && l[i] == '\n';
        if i < key.len() {
            assert(l[i] == key[i]);
        } else if i > key.len() {
            assert(l[i] == value[i - key.len() - 1]);
        }
    }
    if value.len() > 0 {
        assert(l.last() == value.last());
    } else {
        assert(l.last() == c);
    }
}

/// The run of a character at an end of a text comes off, and no other one.
pub proof fn law_runs_come_off(run: Seq<char>, c: char, s: Seq<char>)
    requires
        forall|i: int| 0 <= i < run.len() ==> #[trigger] run[i] == c,
        s.len() > 0,
        s[0] != c,
        s.last() != c,
    ensures
        trim_start_char(run + s, c) == s,
        trim_end_char(s + run, c) == s,
        trim_start_char(run, c) == Seq::<char>::empty(),
{
    let a = run + s;
    let b = s + run;
    let n = run.len() as int;
    assert forall|j: int| 0 <= j < n implies !not_eq_to(c)(#[trigger] a[j]) by {
        assert(a[j] == run[j]);
    }
    assert(a[n] == s[0]);
    lemma_first_is(a, not_eq_to(c), n);
    assert(a.skip(n) =~= s);
    let m = s.len() as int;
    assert forall|j: int| m <= j < b.len() implies !not_eq_to(c)(#[trigger] b[j]) by {
        assert(b[j] == run[j - m]);
    }
    assert(b[m - 1] == s.last());
    lemma_last_end_is(b, not_eq_to(c), m);
    assert(b.take(m) =~= s);
    lemma_first_is(run, not_eq_to(c), n);
    assert(run.skip(n) =~= Seq::<char>::empty());
}

/// A text occurs in another where that is the text with something in front of
/// it and behind it.
pub proof fn law_contains(a: Seq<char>, p: Seq<char>, b: Seq<char>, s: Seq<char>)
    ensures
        contains(a + p + b, p),
        contains(s, p) ==> exists|x: Seq<char>, y: Seq<char>| s == #[trigger] (x + p + y),
{
    let t = a + p + b;
    let n = a.len() as int;
    assert(t.skip(n).take(p.len() as int) =~= p);
    assert(starts_with(t.skip(n), p));
    if contains(s, p) {
        let i = choose|i: int| 0 <= i <= s.len() && starts_with(#[trigger] s.skip(i), p);
        let x = s.take(i);
        let y = s.skip(i).skip(p.len() as int);
        assert(s.skip(i) =~= p + y);
        assert(s =~= x + p + y);
    }
}

} // verus!
