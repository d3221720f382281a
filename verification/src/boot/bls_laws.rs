//! Which files of a directory declare entries, and which entry is the default.

use crate::boot::bls::{bls_default, conf_entries, conf_paths, glob_text};
use crate::boot::bls::{matches_pattern, saved_as};
use crate::boot::EntryView;
use crate::fsys::{DirEntryView, FileKind, FileSystem};
use crate::seqs::lemma_position;
use crate::text::laws::law_split_once;
use crate::text::split::before_first;
use vstd::prelude::*;
use vstd::string::*;

verus! {

/// The name `saved` is the id of the entry, or its id without the boot counter.
pub open spec fn goes_by(e: EntryView, saved: Seq<char>) -> bool {
    e.id matches Some(id) && (id == saved || before_first(id, '+') == saved)
}

/// A pattern is held against the id, the name of the file, and the id without
/// its boot counter.
pub open spec fn pinned_by(e: EntryView, pat: Seq<char>) -> bool {
    e.id matches Some(id) && (glob_text(pat, id) || glob_text(
        pat,
        id + seq!['.', 'c', 'o', 'n', 'f'],
    ) || glob_text(pat, before_first(id, '+')))
}

/// The first entry that goes by the name that grubenv saved is the default,
/// whether the name has the boot counter or not.
pub proof fn law_first_saved_entry_is_default(
    entries: Seq<EntryView>,
    env: Map<Seq<char>, Seq<char>>,
    sd_default: Option<Seq<char>>,
    i: int,
    saved: Seq<char>,
)
    requires
        0 <= i < entries.len(),
        env.contains_key("saved_entry"@),
        env["saved_entry"@] == saved,
        goes_by(entries[i], saved),
        forall|j: int| 0 <= j < i ==> !goes_by(#[trigger] entries[j], saved),
    ensures
        bls_default(entries, env, sd_default) == Some(i),
{
    lemma_position(entries, saved_as(saved));
    assert(saved_as(saved)(entries[i]));
    assert forall|j: int| 0 <= j < i implies !saved_as(saved)(#[trigger] entries[j]) by {
        assert(!goes_by(entries[j], saved));
    }
}

/// An entry goes by its whole id and by what is in front of its boot counter,
/// and by nothing else.
pub proof fn law_boot_counter_may_be_left_out(
    e: EntryView,
    name: Seq<char>,
    counter: Seq<char>,
    other: Seq<char>,
)
    requires
        !name.contains('+'),
        e.id == Some(name + seq!['+'] + counter),
        other != name,
        other != name + seq!['+'] + counter,
    ensures
        saved_as(name + seq!['+'] + counter)(e),
        saved_as(name)(e),
        !saved_as(other)(e),
{
    law_split_once(name, '+', counter);
}

/// Where grubenv saved no name, or one that no entry goes by, the first entry
/// that loader.conf's pattern pins is the default, and where it pins none, the
/// first. There is none only among no entries.
pub proof fn law_first_pinned_entry_is_default(
    entries: Seq<EntryView>,
    env: Map<Seq<char>, Seq<char>>,
    pat: Seq<char>,
    i: int,
)
    requires
        env.contains_key("saved_entry"@) ==> forall|j: int|
            0 <= j < entries.len() ==> !goes_by(#[trigger] entries[j], env["saved_entry"@]),
    ensures
        0 <= i < entries.len() && pinned_by(entries[i], pat) && (forall|j: int|
            0 <= j < i ==> !pinned_by(#[trigger] entries[j], pat)) ==> bls_default(
            entries,
            env,
            Some(pat),
        ) == Some(i),
        entries.len() > 0 && (forall|j: int|
            0 <= j < entries.len() ==> !pinned_by(#[trigger] entries[j], pat)) ==> bls_default(
            entries,
            env,
            Some(pat),
        ) == Some(0int),
        entries.len() > 0 ==> bls_default(entries, env, None) == Some(0int),
        entries.len() == 0 ==> bls_default(entries, env, Some(pat)) is None,
{
    reveal_strlit(".conf");
    assert(".conf"@ =~= seq!['.', 'c', 'o', 'n', 'f']);
    if env.contains_key("saved_entry"@) {
        let saved = env["saved_entry"@];
        lemma_position(entries, saved_as(saved));
        assert forall|j: int| 0 <= j < entries.len() implies !saved_as(saved)(
            #[trigger] entries[j],
        ) by {
            assert(!goes_by(entries[j], saved));
        }
    }
    lemma_position(entries, matches_pattern(pat));
    assert forall|j: int| 0 <= j < entries.len() implies matches_pattern(pat)(
        #[trigger] entries[j],
    ) == pinned_by(entries[j], pat) by {}
}

/// A file whose name does not end in `.conf` declares nothing.
pub proof fn law_other_files_declare_nothing<F: FileSystem + ?Sized>(
    fs: &F,
    dir: Seq<char>,
    listing: Seq<DirEntryView>,
    f: DirEntryView,
    env: Map<Seq<char>, Seq<char>>,
)
    requires
        f.name.len() < 5 || f.name.skip(f.name.len() - 5) != seq!['.', 'c', 'o', 'n', 'f'],
    ensures
        conf_entries(fs, dir, listing.push(f), env) == conf_entries(fs, dir, listing, env),
        conf_paths(fs, dir, listing.push(f)) == conf_paths(fs, dir, listing),
{
    reveal_strlit(".conf");
    assert(".conf"@ =~= seq!['.', 'c', 'o', 'n', 'f']);
    assert(listing.push(f).drop_last() =~= listing);
    assert(listing.push(f).last() == f);
}

/// The paths of the readable `.conf` files are told, in the order of the
/// directory; a directory of such a name is not.
pub proof fn law_readable_conf_files_are_told<F: FileSystem + ?Sized>(
    fs: &F,
    dir: Seq<char>,
    listing: Seq<DirEntryView>,
    f: DirEntryView,
    stem: Seq<char>,
)
    requires
        f.name == stem + seq!['.', 'c', 'o', 'n', 'f'],
    ensures
        ({
            let path = dir + seq!['/'] + f.name;
            let before = conf_paths(fs, dir, listing);
            conf_paths(fs, dir, listing.push(f)) == if f.kind != FileKind::Dir && fs.file(path) is Some {
                before.push(path)
            } else {
                before
            }
        }),
        conf_paths(fs, dir, seq![]).len() == 0,
{
    reveal_strlit(".conf");
    reveal_strlit("/");
    assert(".conf"@ =~= seq!['.', 'c', 'o', 'n', 'f']);
    assert("/"@ =~= seq!['/']);
    assert(listing.push(f).drop_last() =~= listing);
    assert(listing.push(f).last() == f);
    assert(f.name.skip(f.name.len() - 5) =~= ".conf"@);
}

} // verus!
