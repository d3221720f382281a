//! Directory listings: in order of names, in columns.

use crate::fsys::{DirEntry, DirEntryView, FileKind};
use crate::seqs::views;
use crate::text::chars;
use crate::text::number::{dec, push_dec};
use vstd::prelude::*;
use vstd::string::*;

verus! {

broadcast use vstd::seq_lib::group_seq_properties;

// ---------------------------------------------------------------------
// Columns
// ---------------------------------------------------------------------

/// As many spaces as a text of `len` lacks to fill `width`.
pub open spec fn fill(len: nat, width: nat) -> Seq<char> {
    Seq::new(
        if len < width {
            (width - len) as nat
        } else {
            0
        },
        |i: int| ' ',
    )
}

/// `s` in a column of `width`, at its right edge.
pub open spec fn right(s: Seq<char>, width: nat) -> Seq<char> {
    fill(s.len(), width) + s
}

/// `s` in a column of `width`, at its left edge.
pub open spec fn left(s: Seq<char>, width: nat) -> Seq<char> {
    s + fill(s.len(), width)
}

/// Append as many spaces as a text of `len` lacks to fill `width`.
fn push_fill(out: &mut String, len: usize, width: usize)
    ensures
        final(out)@ == old(out)@ + fill(len as nat, width as nat),
{
    let ghost before = out@;
    let mut i: usize = len;
    assert(out@ =~= before + Seq::new(0, |k: int| ' '));
    while i < width
        invariant
            i >= len,
            len < width ==> i <= width,
            len >= width ==> i == len,
            out@ == before + Seq::new((i - len) as nat, |k: int| ' '),
        decreases width - i,
    {
        out.push(' ');
        i = i + 1;
        assert(out@ =~= before + Seq::new((i - len) as nat, |k: int| ' '));
    }
    assert(out@ =~= before + fill(len as nat, width as nat));
}

/// Append `s` in a column of `width`, at its right edge.
pub fn push_right(out: &mut String, s: &str, width: usize)
    ensures
        final(out)@ == old(out)@ + right(s@, width as nat),
{
    let ghost before = out@;
    let c = chars(s);
    push_fill(out, c.len(), width);
    out.append(s);
    assert(out@ =~= before + right(s@, width as nat));
}

/// Append `s` in a column of `width`, at its left edge.
pub fn push_left(out: &mut String, s: &str, width: usize)
    ensures
        final(out)@ == old(out)@ + left(s@, width as nat),
{
    let ghost before = out@;
    let c = chars(s);
    out.append(s);
    push_fill(out, c.len(), width);
    assert(out@ =~= before + left(s@, width as nat));
}

/// A number in decimal.
pub fn number(n: u64) -> (r: String)
    ensures
        r@ == dec(n as nat),
{
    let mut out: String = String::new();
    push_dec(&mut out, n);
    assert(out@ =~= dec(n as nat));
    out
}

// ---------------------------------------------------------------------
// The order of names
// ---------------------------------------------------------------------

/// `a` comes before `b` in a dictionary of code points.
#[verifier::opaque]
pub open spec fn before(a: Seq<char>, b: Seq<char>) -> bool
    decreases a.len(),
{
    if b.len() == 0 {
        false
    } else if a.len() == 0 {
        true
    } else if a[0] != b[0] {
        (a[0] as int) < (b[0] as int)
    } else {
        before(a.drop_first(), b.drop_first())
    }
}

/// Whether a code point is lower than another.
fn lower_code(x: char, y: char) -> (r: bool)
    ensures
        r == ((x as int) < (y as int)),
{
    (x as u32) < (y as u32)
}

/// Whether `a` comes before `b` in a dictionary of code points.
fn comes_before(a: &[char], b: &[char]) -> (r: bool)
    ensures
        r == before(a@, b@),
{
    reveal(before);
    let mut i: usize = 0;
    assert(a@.skip(0) =~= a@);
    assert(b@.skip(0) =~= b@);
    while i < a.len() && i < b.len()
        invariant
            i <= a@.len(),
            i <= b@.len(),
            before(a@, b@) == before(a@.skip(i as int), b@.skip(i as int)),
        decreases a@.len() - i,
    {
        reveal(before);
        let x = a[i];
        let y = b[i];
        if x != y {
            assert(a@.skip(i as int)[0] == x && b@.skip(i as int)[0] == y);
            return lower_code(x, y);
        }
        assert(a@.skip(i as int).drop_first() =~= a@.skip(i + 1));
        assert(b@.skip(i as int).drop_first() =~= b@.skip(i + 1));
        i = i + 1;
    }
    i < b.len()
}

proof fn lemma_char_values(x: char, y: char)
    ensures
        x != y ==> (x as int) != (y as int),
{
}

/// The order of names: nothing comes before itself, and what comes before
/// something comes before all that this comes before; of two names that
/// differ, one comes before the other.
pub proof fn law_names_are_ordered(a: Seq<char>, b: Seq<char>, c: Seq<char>)
    ensures
        !before(a, a),
        before(a, b) && before(b, c) ==> before(a, c),
        before(a, b) && !before(c, b) ==> before(a, c),
        !before(a, b) && !before(b, a) ==> a == b,
    decreases a.len() + b.len() + c.len(),
{
    reveal(before);
    if a.len() > 0 && b.len() > 0 {
        lemma_char_values(a[0], b[0]);
    }
    if b.len() > 0 && c.len() > 0 {
        lemma_char_values(b[0], c[0]);
    }
    if a.len() > 0 && c.len() > 0 {
        lemma_char_values(a[0], c[0]);
    }
    if a.len() > 0 {
        law_names_are_ordered(
            a.drop_first(),
            if b.len() > 0 {
                b.drop_first()
            } else {
                b
            },
            if c.len() > 0 {
                c.drop_first()
            } else {
                c
            },
        );
        if b.len() > 0 && a[0] == b[0] && a.drop_first() == b.drop_first() {
            assert(a =~= seq![a[0]] + a.drop_first());
            assert(b =~= seq![b[0]] + b.drop_first());
        }
    } else if b.len() == 0 {
        assert(a =~= b);
    }
}

// ---------------------------------------------------------------------
// Sorting
// ---------------------------------------------------------------------

/// `s` with `e` put behind everything that it does not come before.
pub open spec fn insert_by_name(s: Seq<DirEntryView>, e: DirEntryView) -> Seq<DirEntryView>
    decreases s.len(),
{
    if s.len() > 0 && before(e.name, s.last().name) {
        insert_by_name(s.drop_last(), e).push(s.last())
    } else {
        s.push(e)
    }
}

/// The entries `s` in order of their names; entries of the same name stay in
/// their order.
pub open spec fn by_name(s: Seq<DirEntryView>) -> Seq<DirEntryView>
    decreases s.len(),
{
    if s.len() == 0 {
        seq![]
    } else {
        insert_by_name(by_name(s.drop_last()), s.last())
    }
}

/// No entry comes before one in front of it.
pub open spec fn is_by_name(s: Seq<DirEntryView>) -> bool {
    forall|i: int, j: int| 0 <= i < j < s.len() ==> !before((#[trigger] s[j]).name, (#[trigger] s[i]).name)
}

proof fn lemma_insert_at(s: Seq<DirEntryView>, e: DirEntryView, at: int)
    requires
        0 <= at <= s.len(),
        forall|j: int| at <= j < s.len() ==> before(e.name, (#[trigger] s[j]).name),
        at > 0 ==> !before(e.name, s[at - 1].name),
    ensures
        insert_by_name(s, e) == s.insert(at, e),
    decreases s.len(),
{
    if at < s.len() {
        let d = s.drop_last();
        assert(s.last() == s[s.len() - 1]);
        assert forall|j: int| at <= j < d.len() implies before(e.name, (#[trigger] d[j]).name) by {
            assert(d[j] == s[j]);
        }
        lemma_insert_at(d, e, at);
        assert(d.insert(at, e).push(s.last()) =~= s.insert(at, e));
    } else {
        assert(s.push(e) =~= s.insert(at, e));
    }
}

proof fn lemma_insert_keeps_order(s: Seq<DirEntryView>, e: DirEntryView)
    requires
        is_by_name(s),
    ensures
        is_by_name(insert_by_name(s, e)),
        insert_by_name(s, e).to_multiset() == s.to_multiset().insert(e),
        forall|i: int|
            0 <= i < insert_by_name(s, e).len() ==> (#[trigger] insert_by_name(s, e)[i]) == e
                || s.contains(insert_by_name(s, e)[i]),
    decreases s.len(),
{
    s.to_multiset_ensures();
    let r = insert_by_name(s, e);
    if s.len() > 0 && before(e.name, s.last().name) {
        let d = s.drop_last();
        assert(is_by_name(d)) by {
            assert forall|i: int, j: int| 0 <= i < j < d.len() implies !before(
                (#[trigger] d[j]).name,
                (#[trigger] d[i]).name,
            ) by {
                assert(d[i] == s[i] && d[j] == s[j]);
            }
        }
        lemma_insert_keeps_order(d, e);
        let q = insert_by_name(d, e);
        d.to_multiset_ensures();
        q.to_multiset_ensures();
        assert(d.push(s.last()) =~= s);
        assert(r.to_multiset() =~= s.to_multiset().insert(e));
        assert forall|i: int| 0 <= i < r.len() implies (#[trigger] r[i]) == e || s.contains(r[i]) by {
            if i < q.len() {
                assert(r[i] == q[i]);
                if q[i] != e {
                    let k = choose|k: int| 0 <= k < d.len() && d[k] == q[i];
                    assert(s[k] == q[i]);
                }
            } else {
                assert(r[i] == s.last());
            }
        }
        assert forall|i: int, j: int| 0 <= i < j < r.len() implies !before(
            (#[trigger] r[j]).name,
            (#[trigger] r[i]).name,
        ) by {
            if j < q.len() {
                assert(r[i] == q[i] && r[j] == q[j]);
            } else {
                let last = s.last();
                assert(r[j] == last && r[i] == q[i]);
                if q[i] == e {
                    law_names_are_ordered(last.name, e.name, last.name);
                } else {
                    let k = choose|k: int| 0 <= k < d.len() && d[k] == q[i];
                    assert(s[k] == q[i] && s[s.len() - 1] == last);
                }
            }
        }
    } else {
        assert forall|i: int, j: int| 0 <= i < j < r.len() implies !before(
            (#[trigger] r[j]).name,
            (#[trigger] r[i]).name,
        ) by {
            if j < s.len() {
                assert(r[i] == s[i] && r[j] == s[j]);
            } else if i < s.len() {
                assert(r[j] == e && r[i] == s[i]);
                let last = s.last();
                if i < s.len() - 1 {
                    assert(!before(s[s.len() - 1].name, s[i].name));
                    law_names_are_ordered(e.name, s[i].name, last.name);
                }
            }
        }
    }
}

/// A sorted listing has the same entries, each as it was, and no entry comes
/// before one in front of it.
pub proof fn law_listing_is_sorted(s: Seq<DirEntryView>)
    ensures
        is_by_name(by_name(s)),
        by_name(s).to_multiset() == s.to_multiset(),
        by_name(s).len() == s.len(),
    decreases s.len(),
{
    s.to_multiset_ensures();
    by_name(s).to_multiset_ensures();
    if s.len() > 0 {
        let d = s.drop_last();
        law_listing_is_sorted(d);
        lemma_insert_keeps_order(by_name(d), s.last());
        d.to_multiset_ensures();
        assert(d.push(s.last()) =~= s);
    }
}

/// Put an entry in its place.
fn add_by_name(list: &mut Vec<DirEntry>, e: DirEntry)
    ensures
        views(final(list)@) == insert_by_name(views(old(list)@), e@),
        final(list)@.len() == old(list)@.len() + 1,
{
    let key = chars(e.name.as_str());
    let ghost v = views(list@);
    let ghost ev = e@;
    let mut at: usize = list.len();
    let mut moving: bool = true;
    while at > 0 && moving
        invariant
            at <= list@.len(),
            v == views(list@),
            key@ == ev.name,
            forall|j: int| at <= j < v.len() ==> before(ev.name, (#[trigger] v[j]).name),
            !moving ==> at > 0 && !before(ev.name, v[at - 1].name),
        decreases
            at as int + (if moving {
                1int
            } else {
                0int
            }),
    {
        let other = chars(list[at - 1].name.as_str());
        assert(v[at - 1] == list@[at - 1]@);
        if comes_before(key.as_slice(), other.as_slice()) {
            at = at - 1;
        } else {
            moving = false;
        }
    }
    proof {
        lemma_insert_at(v, ev, at as int);
    }
    list.insert(at, e);
    assert(views(list@) =~= v.insert(at as int, ev));
}

/// Sort a listing by name.
pub fn sort_by_name(entries: Vec<DirEntry>) -> (r: Vec<DirEntry>)
    ensures
        views(r@) == by_name(views(entries@)),
{
    let mut out: Vec<DirEntry> = Vec::new();
    let mut rest = entries;
    let ghost v = views(entries@);
    let ghost mut i: int = 0;
    assert(views(out@) =~= by_name(v.take(0)));
    assert(v.skip(0) =~= v);
    while rest.len() > 0
        invariant
            0 <= i <= v.len(),
            v == views(entries@),
            views(rest@) == v.skip(i),
            views(out@) == by_name(v.take(i)),
        decreases rest@.len(),
    {
        let ghost before_rest = rest@;
        assert(views(rest@).len() == rest@.len());
        let e = rest.remove(0);
        assert(views(before_rest)[0] == e@);
        assert(v.skip(i)[0] == v[i]);
        add_by_name(&mut out, e);
        proof {
            assert(v.take(i + 1).drop_last() =~= v.take(i));
            assert(v.take(i + 1).last() == v[i]);
            assert(views(rest@) =~= v.skip(i + 1));
            i = i + 1;
        }
    }
    assert(views(rest@).len() == 0);
    assert(v.take(i) =~= v);
    out
}

// ---------------------------------------------------------------------
// Lines
// ---------------------------------------------------------------------

/// What marks the kind of an entry.
pub open spec fn marker(kind: FileKind) -> Seq<char> {
    match kind {
        FileKind::Dir => "/"@,
        FileKind::Symlink => "@"@,
        _ => ""@,
    }
}

/// An entry as a line.
pub open spec fn listing_line(e: DirEntryView) -> Seq<char> {
    right(dec(e.size as nat), 12) + "  "@ + e.name + marker(e.kind)
}

/// A listing as lines, in order of names.
pub open spec fn listing_lines(s: Seq<DirEntryView>) -> Seq<Seq<char>> {
    Seq::new(by_name(s).len(), |i: int| listing_line(by_name(s)[i]))
}

/// An entry as a line.
fn line_of(e: &DirEntry) -> (r: String)
    ensures
        r@ == listing_line(e@),
{
    let mut out: String = String::new();
    push_right(&mut out, number(e.size).as_str(), 12);
    assert(out@ =~= right(dec(e.size as nat), 12));
    out.append("  ");
    out.append(e.name.as_str());
    match e.kind {
        FileKind::Dir => {
            out.append("/");
        },
        FileKind::Symlink => {
            out.append("@");
        },
        _ => {
            out.append("");
        },
    }
    out
}

/// A listing as lines, in order of names.
pub fn listing(entries: Vec<DirEntry>) -> (r: Vec<String>)
    ensures
        views(r@) == listing_lines(views(entries@)),
{
    let sorted = sort_by_name(entries);
    let mut out: Vec<String> = Vec::new();
    let mut i: usize = 0;
    while i < sorted.len()
        invariant
            i <= sorted@.len(),
            out@.len() == i,
            forall|j: int| 0 <= j < i ==> (#[trigger] out@[j])@ == listing_line(views(sorted@)[j]),
        decreases sorted@.len() - i,
    {
        out.push(line_of(&sorted[i]));
        assert(views(sorted@)[i as int] == sorted@[i as int]@);
        i = i + 1;
    }
    assert(views(out@) =~= listing_lines(views(entries@)));
    out
}

} // verus!
