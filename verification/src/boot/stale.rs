//! Configs can reference kernels that were since removed.

use crate::boot::{all_from, BootEntry, EntryView, Source};
use crate::fsys::FileSystem;
use crate::seqs::{index, views};
use vstd::prelude::*;

verus! {

broadcast use vstd::seq_lib::group_seq_properties;

/// The elements of `s` whose flag in `keep` is set, in order.
pub open spec fn kept<T>(s: Seq<T>, keep: Seq<bool>) -> Seq<T>
    decreases s.len(),
{
    if s.len() == 0 {
        seq![]
    } else if keep[0] {
        seq![s[0]] + kept(s.drop_first(), keep.drop_first())
    } else {
        kept(s.drop_first(), keep.drop_first())
    }
}

/// How many flags are set.
pub open spec fn count(keep: Seq<bool>) -> nat
    decreases keep.len(),
{
    if keep.len() == 0 {
        0
    } else {
        (if keep[0] {
            1nat
        } else {
            0nat
        }) + count(keep.drop_first())
    }
}

/// Where the default goes: with its entry, or to the first one left.
pub open spec fn moved_default(default: Option<int>, keep: Seq<bool>) -> Option<int> {
    match default {
        Some(d) if keep[d] => Some(count(keep.take(d)) as int),
        _ => if count(keep) > 0 {
            Some(0)
        } else {
            None
        },
    }
}

pub proof fn lemma_kept_len<T>(s: Seq<T>, keep: Seq<bool>)
    requires
        s.len() == keep.len(),
    ensures
        kept(s, keep).len() == count(keep),
    decreases s.len(),
{
    if s.len() > 0 {
        lemma_kept_len(s.drop_first(), keep.drop_first());
    }
}

/// A kept element is found again behind the kept ones before it.
pub proof fn lemma_kept_at<T>(s: Seq<T>, keep: Seq<bool>, d: int)
    requires
        s.len() == keep.len(),
        0 <= d < s.len(),
        keep[d],
    ensures
        count(keep.take(d)) < kept(s, keep).len(),
        kept(s, keep)[count(keep.take(d)) as int] == s[d],
    decreases s.len(),
{
    if d == 0 {
        assert(keep.take(0) =~= Seq::<bool>::empty());
    } else {
        lemma_kept_at(s.drop_first(), keep.drop_first(), d - 1);
        assert(keep.take(d).drop_first() =~= keep.drop_first().take(d - 1));
    }
}

/// What is kept was there, with its flag set.
pub proof fn lemma_kept_from<T>(s: Seq<T>, keep: Seq<bool>, i: int)
    requires
        s.len() == keep.len(),
        0 <= i < kept(s, keep).len(),
    ensures
        exists|j: int| 0 <= j < s.len() && keep[j] && s[j] == kept(s, keep)[i],
    decreases s.len(),
{
    if s.len() > 0 {
        if keep[0] && i == 0 {
            assert(s[0] == kept(s, keep)[0]);
        } else {
            let k = if keep[0] {
                i - 1
            } else {
                i
            };
            lemma_kept_from(s.drop_first(), keep.drop_first(), k);
            let j = choose|j: int|
                0 <= j < s.drop_first().len() && keep.drop_first()[j] && s.drop_first()[j] == kept(
                    s.drop_first(),
                    keep.drop_first(),
                )[k];
            assert(keep[j + 1] && s[j + 1] == kept(s, keep)[i]);
        }
    }
}

/// How many flags are set before `end`.
fn count_before(keep: &Vec<bool>, end: usize) -> (n: usize)
    requires
        end <= keep@.len(),
    ensures
        n == count(keep@.take(end as int)),
        n <= end,
{
    let mut n: usize = 0;
    let mut i: usize = end;
    assert(keep@.subrange(end as int, end as int) =~= Seq::<bool>::empty());
    while i > 0
        invariant
            i <= end <= keep@.len(),
            n == count(keep@.subrange(i as int, end as int)),
            n <= end - i,
        decreases i,
    {
        i = i - 1;
        proof {
            let s = keep@.subrange(i as int, end as int);
            assert(s[0] == keep@[i as int]);
            assert(s.drop_first() =~= keep@.subrange(i + 1, end as int));
        }
        if keep[i] {
            n = n + 1;
        }
    }
    assert(keep@.subrange(0, end as int) =~= keep@.take(end as int));
    n
}

/// Keep the entries whose flag is set. The default stays with its entry; if
/// that one goes, the first one left takes its place.
pub fn retain(entries: Vec<BootEntry>, default: Option<usize>, keep: &Vec<bool>) -> (r: (
    Vec<BootEntry>,
    Option<usize>,
))
    requires
        entries@.len() == keep@.len(),
        default matches Some(d) ==> d < entries@.len(),
    ensures
        views(r.0@) == kept(views(entries@), keep@),
        index(r.1) == moved_default(index(default), keep@),
        r.1 matches Some(d) ==> d < r.0@.len(),
        r.1 is None ==> r.0@.len() == 0,
{
    let ghost all = views(entries@);
    let n: usize = keep.len();
    let mut entries = entries;
    let mut i: usize = n;
    assert(views(entries@) =~= all.take(n as int) + kept(all.skip(n as int), keep@.skip(n as int)));
    while i > 0
        invariant
            i <= n,
            n == keep@.len(),
            n == all.len(),
            i <= entries@.len(),
            views(entries@) == all.take(i as int) + kept(all.skip(i as int), keep@.skip(i as int)),
        decreases i,
    {
        let ghost before = entries@;
        i = i - 1;
        proof {
            assert(all.skip(i as int)[0] == all[i as int]);
            assert(keep@.skip(i as int)[0] == keep@[i as int]);
            assert(all.skip(i as int).drop_first() =~= all.skip(i + 1));
            assert(keep@.skip(i as int).drop_first() =~= keep@.skip(i + 1));
        }
        let ghost tail = kept(all.skip(i + 1), keep@.skip(i + 1));
        proof {
            assert(views(before) == all.take(i + 1) + tail);
            assert(views(before).len() == before.len());
            assert(before.len() == i + 1 + tail.len());
        }
        if !keep[i] {
            let _ = entries.remove(i);
            assert(views(entries@) =~= all.take(i as int) + tail) by {
                assert forall|j: int| 0 <= j < entries@.len() implies views(entries@)[j] == (
                all.take(i as int) + tail)[j] by {
                    if j < i {
                        assert(views(before)[j] == all[j]);
                    } else {
                        assert(entries@[j] == before[j + 1]);
                        assert(views(before)[j + 1] == (all.take(i + 1) + tail)[j + 1]);
                        assert(views(before)[j + 1] == tail[j - i]);
                    }
                }
            }
        } else {
            assert(views(entries@) =~= all.take(i as int) + (seq![all[i as int]] + tail));
        }
    }
    proof {
        assert(all.take(0) + kept(all.skip(0), keep@.skip(0)) =~= kept(all, keep@)) by {
            assert(all.skip(0) =~= all);
            assert(keep@.skip(0) =~= keep@);
        }
        lemma_kept_len(all, keep@);
    }
    let first_left: Option<usize> = if entries.len() > 0 {
        Some(0)
    } else {
        None
    };
    let default: Option<usize> = match default {
        Some(d) => if keep[d] {
            proof {
                lemma_kept_at(all, keep@, d as int);
            }
            Some(count_before(keep, d))
        } else {
            first_left
        },
        None => first_left,
    };
    (entries, default)
}

/// Whether an entry still starts something: it hands over to another boot
/// manager, or its kernel is there.
pub open spec fn starts<F: FileSystem + ?Sized>(fs: &F, e: EntryView) -> bool {
    e.chainloader is Some || (e.kernel matches Some(k) && fs.present(k))
}

/// The flag of each entry.
pub open spec fn starting<F: FileSystem + ?Sized>(fs: &F, entries: Seq<EntryView>) -> Seq<bool> {
    Seq::new(entries.len(), |i: int| starts(fs, entries[i]))
}

/// The entries without those that start nothing, and the default among them;
/// as they were, if that would leave none.
pub open spec fn fresh<F: FileSystem + ?Sized>(
    fs: &F,
    entries: Seq<EntryView>,
    default: Option<int>,
) -> (Seq<EntryView>, Option<int>) {
    let keep = starting(fs, entries);
    if count(keep) == 0 {
        (entries, default)
    } else {
        (kept(entries, keep), moved_default(default, keep))
    }
}

/// Drop entries whose kernel file is missing - unless that would drop
/// everything, in which case keep the originals (better a stale answer than
/// none). A menu item that hands over to another boot manager has no kernel,
/// and stays.
pub fn drop_stale_entries<F: FileSystem + ?Sized>(
    fs: &F,
    entries: Vec<BootEntry>,
    default: Option<usize>,
) -> (r: (Vec<BootEntry>, Option<usize>))
    requires
        default matches Some(d) ==> d < entries@.len(),
    ensures
        fs.stable() ==> (views(r.0@), index(r.1)) == fresh(fs, views(entries@), index(default)),
        r.1 matches Some(d) ==> d < r.0@.len(),
        r.1 is None ==> r.0@.len() == 0 || (default is None && r.0@ == entries@),
        forall|source: Source|
            all_from(views(entries@), source) ==> #[trigger] all_from(views(r.0@), source),
{
    let mut keep: Vec<bool> = Vec::new();
    let mut any: bool = false;
    let ghost all = views(entries@);
    let mut i: usize = 0;
    while i < entries.len()
        invariant
            i <= entries@.len(),
            keep@.len() == i,
            all == views(entries@),
            fs.stable() ==> keep@ == starting(fs, all).take(i as int),
            any <==> exists|j: int| 0 <= j < i && #[trigger] keep@[j],
        decreases entries@.len() - i,
    {
        let e = &entries[i];
        let ghost ev = e@;
        assert(all[i as int] == ev);
        let k: bool = if e.chainloader.is_some() {
            true
        } else {
            match &e.kernel {
                Some(k) => fs.has(k.as_str()),
                None => false,
            }
        };
        let ghost before = keep@;
        keep.push(k);
        if k {
            any = true;
        }
        proof {
            if fs.stable() {
                assert(keep@ =~= starting(fs, all).take(i + 1));
            }
            assert forall|j: int| 0 <= j < i implies keep@[j] == before[j] by {}
            if any && !k {
                let j = choose|j: int| 0 <= j < i && #[trigger] before[j];
                assert(keep@[j]);
            } else if k {
                assert(keep@[i as int]);
            }
        }
        i = i + 1;
    }
    proof {
        assert(starting(fs, all).take(i as int) =~= starting(fs, all));
        lemma_count_positive(keep@);
    }
    if !any {
        return (entries, default);
    }
    proof {
        assert forall|source: Source| all_from(all, source) implies #[trigger] all_from(
            kept(all, keep@),
            source,
        ) by {
            lemma_kept_source(all, keep@, source);
        }
    }
    retain(entries, default, &keep)
}

/// What is kept has the sources that it had.
pub proof fn lemma_kept_source(s: Seq<EntryView>, keep: Seq<bool>, source: Source)
    requires
        s.len() == keep.len(),
        all_from(s, source),
    ensures
        all_from(kept(s, keep), source),
{
    assert forall|i: int| 0 <= i < kept(s, keep).len() implies (#[trigger] kept(s, keep)[i]).source
        == source by {
        lemma_kept_from(s, keep, i);
    }
}

proof fn lemma_count_positive(keep: Seq<bool>)
    ensures
        count(keep) > 0 <==> exists|j: int| 0 <= j < keep.len() && #[trigger] keep[j],
    decreases keep.len(),
{
    if keep.len() > 0 {
        let t = keep.drop_first();
        lemma_count_positive(t);
        if count(t) > 0 {
            let j = choose|j: int| 0 <= j < t.len() && #[trigger] t[j];
            assert(keep[j + 1]);
        }
        if exists|j: int| 0 <= j < keep.len() && #[trigger] keep[j] {
            let j = choose|j: int| 0 <= j < keep.len() && #[trigger] keep[j];
            if j > 0 {
                assert(t[j - 1]);
            }
        }
    }
}

/// A default among the entries is one among those that are left.
pub proof fn lemma_fresh_in_range<F: FileSystem + ?Sized>(
    fs: &F,
    entries: Seq<EntryView>,
    default: Option<int>,
)
    requires
        match default {
            Some(d) => 0 <= d < entries.len(),
            None => entries.len() == 0,
        },
    ensures
        match fresh(fs, entries, default).1 {
            Some(d) => 0 <= d < fresh(fs, entries, default).0.len(),
            None => fresh(fs, entries, default).0.len() == 0,
        },
{
    let keep = starting(fs, entries);
    lemma_kept_len(entries, keep);
    if default is Some {
        if keep[default->0] {
            lemma_kept_at(entries, keep, default->0);
        }
    }
}

/// Entries whose kernel no longer exists are dropped: where one entry starts
/// something, every entry that is left does.
pub proof fn law_what_is_left_starts<F: FileSystem + ?Sized>(
    fs: &F,
    entries: Seq<EntryView>,
    default: Option<int>,
    i: int,
)
    requires
        0 <= i < fresh(fs, entries, default).0.len(),
        exists|j: int| 0 <= j < entries.len() && starts(fs, #[trigger] entries[j]),
    ensures
        starts(fs, fresh(fs, entries, default).0[i]),
        entries.contains(fresh(fs, entries, default).0[i]),
{
    let keep = starting(fs, entries);
    let j = choose|j: int| 0 <= j < entries.len() && starts(fs, #[trigger] entries[j]);
    assert(keep[j]);
    lemma_count_positive(keep);
    lemma_kept_from(entries, keep, i);
}

/// Nothing that starts something is lost.
pub proof fn law_nothing_that_starts_is_lost<F: FileSystem + ?Sized>(
    fs: &F,
    entries: Seq<EntryView>,
    default: Option<int>,
    j: int,
)
    requires
        0 <= j < entries.len(),
        starts(fs, entries[j]),
    ensures
        fresh(fs, entries, default).0.contains(entries[j]),
{
    let keep = starting(fs, entries);
    assert(keep[j]);
    lemma_count_positive(keep);
    lemma_kept_at(entries, keep, j);
}

/// A default that starts something stays the default.
pub proof fn law_default_stays<F: FileSystem + ?Sized>(fs: &F, entries: Seq<EntryView>, d: int)
    requires
        0 <= d < entries.len(),
        starts(fs, entries[d]),
    ensures
        fresh(fs, entries, Some(d)).1 matches Some(n) && 0 <= n < fresh(
            fs,
            entries,
            Some(d),
        ).0.len() && fresh(fs, entries, Some(d)).0[n] == entries[d],
{
    let keep = starting(fs, entries);
    assert(keep[d]);
    lemma_count_positive(keep);
    lemma_kept_at(entries, keep, d);
}

/// Dropping stale entries a second time changes nothing.
pub proof fn law_dropping_twice_is_dropping_once<F: FileSystem + ?Sized>(
    fs: &F,
    entries: Seq<EntryView>,
    default: Option<int>,
)
    ensures
        fresh(fs, fresh(fs, entries, default).0, fresh(fs, entries, default).1).0 == fresh(
            fs,
            entries,
            default,
        ).0,
{
    let keep = starting(fs, entries);
    if count(keep) > 0 {
        let left = kept(entries, keep);
        let again = starting(fs, left);
        assert forall|i: int| 0 <= i < again.len() implies #[trigger] again[i] by {
            lemma_kept_from(entries, keep, i);
        }
        lemma_kept_all(left, again);
    }
}

proof fn lemma_kept_all<T>(s: Seq<T>, keep: Seq<bool>)
    requires
        s.len() == keep.len(),
        forall|i: int| 0 <= i < keep.len() ==> #[trigger] keep[i],
    ensures
        kept(s, keep) == s,
    decreases s.len(),
{
    if s.len() > 0 {
        lemma_kept_all(s.drop_first(), keep.drop_first());
        assert(kept(s, keep) =~= s);
    } else {
        assert(kept(s, keep) =~= s);
    }
}

/// What is left are the entries that hand over to another boot manager or
/// whose kernel is there, in their order; where there is none of these, all
/// of them.
pub proof fn law_only_stale_entries_are_dropped<F: FileSystem + ?Sized>(
    fs: &F,
    entries: Seq<EntryView>,
    default: Option<int>,
)
    ensures
        ({
            let live = entries.filter(
                |e: EntryView|
                    e.chainloader is Some || (e.kernel matches Some(k) && fs.present(k)),
            );
            &&& live.len() > 0 ==> fresh(fs, entries, default).0 == live
            &&& live.len() == 0 ==> fresh(fs, entries, default) == (entries, default)
        }),
{
    let f = |e: EntryView| e.chainloader is Some || (e.kernel matches Some(k) && fs.present(k));
    lemma_kept_is_filter(fs, entries);
    lemma_kept_len(entries, starting(fs, entries));
    assert(entries.filter(f) == kept(entries, starting(fs, entries)));
}

proof fn lemma_kept_is_filter<F: FileSystem + ?Sized>(fs: &F, s: Seq<EntryView>)
    ensures
        kept(s, starting(fs, s)) == s.filter(
            |e: EntryView| e.chainloader is Some || (e.kernel matches Some(k) && fs.present(k)),
        ),
    decreases s.len(),
{
    let f = |e: EntryView| e.chainloader is Some || (e.kernel matches Some(k) && fs.present(k));
    if s.len() > 0 {
        let t = s.drop_first();
        lemma_kept_is_filter(fs, t);
        assert(starting(fs, s).drop_first() =~= starting(fs, t));
        assert(s =~= seq![s[0]] + t);
        t.lemma_filter_prepend(s[0], f);
    } else {
        reveal(Seq::filter);
        assert(kept(s, starting(fs, s)) =~= s.filter(f));
    }
}

/// A default that starts nothing gives way to the first entry that is left.
pub proof fn law_stale_default_gives_way<F: FileSystem + ?Sized>(
    fs: &F,
    entries: Seq<EntryView>,
    d: int,
    j: int,
)
    requires
        0 <= d < entries.len(),
        0 <= j < entries.len(),
        entries[d].chainloader is None && (entries[d].kernel matches Some(k) ==> !fs.present(k)),
        entries[j].chainloader is Some || (entries[j].kernel matches Some(k) && fs.present(k)),
    ensures
        fresh(fs, entries, Some(d)).1 == Some(0int),
{
    let keep = starting(fs, entries);
    assert(keep[j]);
    assert(!keep[d]);
    lemma_count_positive(keep);
}

} // verus!
