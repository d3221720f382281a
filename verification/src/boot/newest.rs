//! Newest-first order of boot entries.

use crate::boot::vercmp::{compare_versions, law_versions_are_ordered, version_order};
use crate::boot::{all_from, BootEntry, EntryView, Source};
use crate::seqs::views;
use crate::text::chars;
use vstd::prelude::*;

verus! {

broadcast use vstd::seq_lib::group_seq_properties;

/// What an entry is ordered by: its version, or its id (the file name, which
/// also embeds the version on Fedora/RHEL).
pub open spec fn sort_key(e: EntryView) -> Seq<char> {
    match e.version {
        Some(v) => v,
        None => match e.id {
            Some(i) => i,
            None => seq![],
        },
    }
}

/// `s` with `e` put behind everything that is not older than it.
pub open spec fn insert_newest(s: Seq<EntryView>, e: EntryView) -> Seq<EntryView>
    decreases s.len(),
{
    if s.len() > 0 && version_order(sort_key(s.last()), sort_key(e)) < 0 {
        insert_newest(s.drop_last(), e).push(s.last())
    } else {
        s.push(e)
    }
}

/// The entries `s`, newest first; entries of the same version stay in their
/// order.
pub open spec fn newest_first(s: Seq<EntryView>) -> Seq<EntryView>
    decreases s.len(),
{
    if s.len() == 0 {
        seq![]
    } else {
        insert_newest(newest_first(s.drop_last()), s.last())
    }
}

/// No entry is newer than one in front of it.
pub open spec fn is_newest_first(s: Seq<EntryView>) -> bool {
    forall|i: int, j: int|
        0 <= i < j < s.len() ==> version_order(sort_key(#[trigger] s[i]), sort_key(#[trigger] s[j]))
            >= 0
}

/// A copy of what an entry is ordered by.
fn key_of(e: &BootEntry) -> (r: Vec<char>)
    ensures
        r@ == sort_key(e@),
{
    match &e.version {
        Some(v) => chars(v.as_str()),
        None => match &e.id {
            Some(i) => chars(i.as_str()),
            None => {
                let r: Vec<char> = Vec::new();
                assert(r@ =~= Seq::<char>::empty());
                r
            },
        },
    }
}

proof fn lemma_insert_at(s: Seq<EntryView>, e: EntryView, at: int)
    requires
        0 <= at <= s.len(),
        forall|j: int| at <= j < s.len() ==> version_order(sort_key(#[trigger] s[j]), sort_key(e)) < 0,
        at > 0 ==> version_order(sort_key(s[at - 1]), sort_key(e)) >= 0,
    ensures
        insert_newest(s, e) == s.insert(at, e),
    decreases s.len(),
{
    if at < s.len() {
        let d = s.drop_last();
        assert forall|j: int| at <= j < d.len() implies version_order(
            sort_key(#[trigger] d[j]),
            sort_key(e),
        ) < 0 by {
            assert(d[j] == s[j]);
        }
        assert(s.last() == s[s.len() - 1]);
        lemma_insert_at(d, e, at);
        assert(d.insert(at, e).push(s.last()) =~= s.insert(at, e));
    } else {
        if s.len() > 0 {
            assert(s.last() == s[at - 1]);
        }
        assert(s.push(e) =~= s.insert(at, e));
    }
}

/// Put an entry in its place.
pub fn add_newest(list: &mut Vec<BootEntry>, e: BootEntry)
    ensures
        views(final(list)@) == insert_newest(views(old(list)@), e@),
        final(list)@.len() == old(list)@.len() + 1,
{
    let key = key_of(&e);
    let ghost v = views(list@);
    let ghost ev = e@;
    let mut at: usize = list.len();
    let mut moving: bool = true;
    while at > 0 && moving
        invariant
            at <= list@.len(),
            v == views(list@),
            key@ == sort_key(ev),
            forall|j: int|
                at <= j < v.len() ==> version_order(sort_key(#[trigger] v[j]), sort_key(ev)) < 0,
            !moving ==> at > 0 && version_order(sort_key(v[at - 1]), sort_key(ev)) >= 0,
        decreases
            at as int + (if moving {
                1int
            } else {
                0int
            }),
    {
        let other = key_of(&list[at - 1]);
        assert(v[at - 1] == list@[at - 1]@);
        if compare_versions(other.as_slice(), key.as_slice()) < 0 {
            at = at - 1;
        } else {
            moving = false;
        }
    }
    proof {
        lemma_insert_at(v, ev, at as int);
    }
    let ghost l0 = list@;
    list.insert(at, e);
    assert(views(list@) =~= v.insert(at as int, ev));
}

proof fn lemma_insert_sorted(s: Seq<EntryView>, e: EntryView)
    requires
        is_newest_first(s),
    ensures
        is_newest_first(insert_newest(s, e)),
        insert_newest(s, e).len() == s.len() + 1,
        insert_newest(s, e).to_multiset() == s.to_multiset().insert(e),
        forall|i: int|
            0 <= i < insert_newest(s, e).len() ==> #[trigger] insert_newest(s, e)[i] == e
                || s.contains(insert_newest(s, e)[i]),
    decreases s.len(),
{
    broadcast use vstd::seq_lib::group_to_multiset_ensures;

    if s.len() > 0 && version_order(sort_key(s.last()), sort_key(e)) < 0 {
        let d = s.drop_last();
        assert forall|i: int, j: int| 0 <= i < j < d.len() implies version_order(
            sort_key(#[trigger] d[i]),
            sort_key(#[trigger] d[j]),
        ) >= 0 by {
            assert(d[i] == s[i] && d[j] == s[j]);
        }
        lemma_insert_sorted(d, e);
        let r = insert_newest(d, e);
        let full = r.push(s.last());
        assert forall|i: int| 0 <= i < r.len() implies version_order(
            sort_key(#[trigger] r[i]),
            sort_key(s.last()),
        ) >= 0 by {
            if r[i] == e {
                law_versions_are_ordered(sort_key(s.last()), sort_key(e), sort_key(e));
            } else {
                assert(d.contains(r[i]));
                let k = choose|k: int| 0 <= k < d.len() && d[k] == r[i];
                assert(s[k] == d[k]);
                assert(s.last() == s[s.len() - 1]);
            }
        }
        assert(d.push(s.last()) =~= s);
        assert forall|i: int| 0 <= i < full.len() implies #[trigger] full[i] == e || s.contains(
            full[i],
        ) by {
            if i < r.len() {
                assert(full[i] == r[i]);
                if r[i] != e {
                    let k = choose|k: int| 0 <= k < d.len() && d[k] == r[i];
                    assert(s[k] == d[k]);
                }
            } else {
                assert(full[i] == s[s.len() - 1]);
            }
        }
        assert forall|i: int, j: int| 0 <= i < j < full.len() implies version_order(
            sort_key(#[trigger] full[i]),
            sort_key(#[trigger] full[j]),
        ) >= 0 by {
            assert(full[i] == r[i]);
            if j < r.len() {
                assert(full[j] == r[j]);
            }
        }
        assert(full.to_multiset() =~= s.to_multiset().insert(e));
    } else {
        let full = s.push(e);
        assert forall|i: int, j: int| 0 <= i < j < full.len() implies version_order(
            sort_key(#[trigger] full[i]),
            sort_key(#[trigger] full[j]),
        ) >= 0 by {
            assert(full[i] == s[i]);
            if j < s.len() {
                assert(full[j] == s[j]);
            } else {
                let last = s.last();
                assert(last == s[s.len() - 1]);
                if i < s.len() - 1 {
                    assert(version_order(sort_key(s[i]), sort_key(s[s.len() - 1])) >= 0);
                } else {
                    law_versions_are_ordered(sort_key(last), sort_key(e), sort_key(e));
                }
                law_versions_are_ordered(sort_key(last), sort_key(s[i]), sort_key(s[i]));
                law_versions_are_ordered(sort_key(last), sort_key(e), sort_key(e));
                law_versions_are_ordered(sort_key(e), sort_key(last), sort_key(s[i]));
                law_versions_are_ordered(sort_key(s[i]), sort_key(e), sort_key(e));
            }
        }
        assert forall|i: int| 0 <= i < full.len() implies #[trigger] full[i] == e || s.contains(
            full[i],
        ) by {
            if i < s.len() {
                assert(full[i] == s[i]);
            }
        }
    }
}

/// Inserting leaves the sources as they are.
pub proof fn lemma_insert_from(s: Seq<EntryView>, e: EntryView, source: Source)
    requires
        all_from(s, source),
        e.source == source,
    ensures
        all_from(insert_newest(s, e), source),
    decreases s.len(),
{
    if s.len() > 0 {
        lemma_insert_from(s.drop_last(), e, source);
    }
}

/// Sorting leaves the sources as they are.
pub proof fn lemma_sorted_from(s: Seq<EntryView>, source: Source)
    requires
        all_from(s, source),
    ensures
        all_from(newest_first(s), source),
    decreases s.len(),
{
    if s.len() > 0 {
        lemma_sorted_from(s.drop_last(), source);
        lemma_insert_from(newest_first(s.drop_last()), s.last(), source);
    }
}

/// Sorting puts no entry in front of a newer one, and neither loses nor adds
/// an entry.
pub proof fn law_newest_first_sorts(s: Seq<EntryView>)
    ensures
        is_newest_first(newest_first(s)),
        newest_first(s).to_multiset() == s.to_multiset(),
        newest_first(s).len() == s.len(),
    decreases s.len(),
{
    broadcast use vstd::seq_lib::group_to_multiset_ensures;

    if s.len() > 0 {
        law_newest_first_sorts(s.drop_last());
        lemma_insert_sorted(newest_first(s.drop_last()), s.last());
        assert(s.drop_last().push(s.last()) =~= s);
    } else {
        assert(newest_first(s) =~= s);
    }
}

/// The version decides where an entry goes, and for an entry without one its
/// id: one that is newer than all others comes first, and one that is newer
/// than none comes last, also where it is as new as another.
pub proof fn law_version_decides_the_place(s: Seq<EntryView>, e: EntryView, v: Seq<char>)
    requires
        e.version == Some(v) || (e.version is None && e.id == Some(v)),
    ensures
        (forall|i: int|
            0 <= i < s.len() ==> ((#[trigger] s[i]).version matches Some(x) && version_order(x, v)
                >= 0)) ==> newest_first(s.push(e)) == newest_first(s).push(e),
        (forall|i: int|
            0 <= i < s.len() ==> ((#[trigger] s[i]).version matches Some(x) && version_order(x, v)
                < 0)) ==> newest_first(s.push(e)) == seq![e] + newest_first(s),
{
    broadcast use vstd::seq_lib::group_to_multiset_ensures;

    law_newest_first_sorts(s);
    let r = newest_first(s);
    let all = s.push(e);
    assert(all.drop_last() =~= s);
    assert(all.last() == e);
    assert forall|i: int| 0 <= i < r.len() implies s.contains(#[trigger] r[i]) by {
        assert(r.contains(r[i]));
        assert(r.to_multiset().contains(r[i]));
        assert(s.to_multiset().contains(r[i]));
    }
    if forall|i: int|
        0 <= i < s.len() ==> ((#[trigger] s[i]).version matches Some(x) && version_order(x, v) >= 0) {
        if r.len() > 0 {
            let last = r[r.len() - 1];
            let k = choose|k: int| 0 <= k < s.len() && s[k] == last;
            assert(version_order(sort_key(s[k]), sort_key(e)) >= 0);
        }
    }
    if forall|i: int|
        0 <= i < s.len() ==> ((#[trigger] s[i]).version matches Some(x) && version_order(x, v) < 0) {
        assert forall|j: int| 0 <= j < r.len() implies version_order(
            sort_key(#[trigger] r[j]),
            sort_key(e),
        ) < 0 by {
            let k = choose|k: int| 0 <= k < s.len() && s[k] == r[j];
            assert(version_order(sort_key(s[k]), sort_key(e)) < 0);
        }
        lemma_insert_at(r, e, 0);
        assert(r.insert(0, e) =~= seq![e] + r);
    }
}

} // verus!
