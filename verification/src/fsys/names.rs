//! What filesystem drivers report, as the rest of the crate wants it.

use crate::fsys::{DirEntry, DirEntryView, FileKind};
use crate::seqs::views;
use crate::text::split::{trim, trim_start_char, trimmed, trimmed_start_char};
use crate::text::{chars, eq, is_str, opt, string};
use vstd::prelude::*;
use vstd::string::*;

verus! {

broadcast use vstd::seq_lib::group_seq_properties;

/// A directory's entry for itself or for its parent.
pub open spec fn is_dot(name: Seq<char>) -> bool {
    name == "."@ || name == ".."@
}

/// The entries of a directory but those for itself and its parent.
pub open spec fn without_dots(l: Seq<DirEntryView>) -> Seq<DirEntryView>
    decreases l.len(),
{
    if l.len() == 0 {
        seq![]
    } else if is_dot(l.last().name) {
        without_dots(l.drop_last())
    } else {
        without_dots(l.drop_last()).push(l.last())
    }
}

/// Drop a directory's entries for itself and its parent.
pub fn drop_dots(entries: Vec<DirEntry>) -> (r: Vec<DirEntry>)
    ensures
        views(r@) == without_dots(views(entries@)),
{
    let ghost all = views(entries@);
    let mut list = entries;
    let mut i: usize = 0;
    let ghost mut seen: int = 0;
    proof {
        assert(all.take(0) =~= Seq::<DirEntryView>::empty());
        assert(views(list@).take(0) =~= Seq::<DirEntryView>::empty());
        assert(views(list@).skip(0) =~= all.skip(0));
    }
    while i < list.len()
        invariant
            i <= list@.len(),
            0 <= seen <= all.len(),
            views(list@).take(i as int) == without_dots(all.take(seen)),
            views(list@).skip(i as int) == all.skip(seen),
            list@.len() - i == all.len() - seen,
        decreases list@.len() - i,
    {
        let ghost before = views(list@);
        let ghost e = list@[i as int]@;
        proof {
            assert(before.skip(i as int)[0] == e);
            assert(all.skip(seen)[0] == all[seen]);
            assert(all.take(seen + 1).drop_last() =~= all.take(seen));
            assert(all.take(seen + 1).last() == e);
        }
        let dot: bool = eq(list[i].name.as_str(), ".") || eq(list[i].name.as_str(), "..");
        if dot {
            let _ = list.remove(i);
            proof {
                assert(views(list@).take(i as int) =~= before.take(i as int));
                assert(views(list@).skip(i as int) =~= before.skip(i as int).skip(1));
            }
        } else {
            proof {
                assert(before.take(i + 1) =~= before.take(i as int).push(e));
                assert(before.skip(i + 1) =~= before.skip(i as int).skip(1));
            }
            i = i + 1;
        }
        proof {
            assert(all.skip(seen).skip(1) =~= all.skip(seen + 1));
            seen = seen + 1;
        }
    }
    proof {
        assert(views(list@).take(i as int) =~= views(list@));
        assert(all.take(seen) =~= all);
    }
    list
}

/// A listing has no entry for the directory itself or its parent.
pub proof fn law_listing_has_no_dots(l: Seq<DirEntryView>, i: int)
    requires
        0 <= i < without_dots(l).len(),
    ensures
        !is_dot(without_dots(l)[i].name),
    decreases l.len(),
{
    if i < without_dots(l.drop_last()).len() {
        law_listing_has_no_dots(l.drop_last(), i);
    }
}

/// Every other entry stays, in its place.
pub proof fn law_other_names_stay(l: Seq<DirEntryView>, e: DirEntryView)
    ensures
        e.name != seq!['.'] && e.name != seq!['.', '.'] ==> without_dots(l.push(e)) == without_dots(
            l,
        ).push(e),
        e.name == seq!['.'] || e.name == seq!['.', '.'] ==> without_dots(l.push(e)) == without_dots(l),
        without_dots(seq![]).len() == 0,
{
    reveal_strlit(".");
    reveal_strlit("..");
    assert("."@ =~= seq!['.']);
    assert(".."@ =~= seq!['.', '.']);
    assert(l.push(e).drop_last() =~= l);
    assert(l.push(e).last() == e);
}

/// The kind of a file from what a driver can tell of it.
pub fn file_kind(regular: bool, dir: bool, symlink: bool) -> (r: FileKind)
    ensures
        r == (if regular {
            FileKind::File
        } else if dir {
            FileKind::Dir
        } else if symlink {
            FileKind::Symlink
        } else {
            FileKind::Other
        }),
{
    if regular {
        FileKind::File
    } else if dir {
        FileKind::Dir
    } else if symlink {
        FileKind::Symlink
    } else {
        FileKind::Other
    }
}

/// The label of an ext4 filesystem, if it has one.
pub fn ext_label(label: &str) -> (r: Option<String>)
    ensures
        opt(r) == (if label@.len() == 0 {
            None
        } else {
            Some(label@)
        }),
{
    let c = chars(label);
    if c.len() == 0 {
        None
    } else {
        Some(label.to_owned())
    }
}

/// The label of a FAT volume, if it has one.
pub fn fat_label(label: &str) -> (r: Option<String>)
    ensures
        opt(r) == (if trim(label@).len() == 0 || trim(label@) == "NO NAME"@ {
            None
        } else {
            Some(trim(label@))
        }),
{
    let c = chars(label);
    let t = trimmed(c.as_slice());
    if t.len() == 0 || is_str(t, "NO NAME") {
        None
    } else {
        Some(string(t))
    }
}

/// A path as the FAT driver wants it: relative to the root.
pub fn normalize(path: &str) -> (r: String)
    ensures
        r@ == trim_start_char(path@, '/'),
{
    let c = chars(path);
    string(trimmed_start_char(c.as_slice(), '/'))
}

} // verus!
