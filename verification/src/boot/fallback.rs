//! No usable config: pair kernels and initramfs images by version.

use crate::boot::newest::{
    add_newest, is_newest_first, law_newest_first_sorts, lemma_insert_from, lemma_sorted_from,
    newest_first,
};
use crate::boot::{all_from, blank_entry, BootEntry, EntryView, Source};
use crate::fsys::{DirEntry, DirEntryView, FileKind, FileSystem};
use crate::seqs::{index, lemma_position, or, position, position_by, views};
use crate::text::split::{
    after_last, after_prefix, contains, has_text, strip_prefix, tail_after, trim_end_str,
    trimmed_end_str,
};
use crate::text::{chars, eq, same, string};
use vstd::prelude::*;
use vstd::string::*;

verus! {

broadcast use vstd::seq_lib::group_seq_properties;

/// The version in a kernel's file name.
pub open spec fn kernel_version(name: Seq<char>) -> Option<Seq<char>> {
    or(strip_prefix(name, "vmlinuz-"@), strip_prefix(name, "Image-"@))
}

/// Rescue/kdump images are not boot candidates.
pub open spec fn is_candidate(version: Seq<char>) -> bool {
    !contains(version, "rescue"@) && !contains(version, "kdump"@)
}

/// The version in an initramfs image's file name.
pub open spec fn initrd_version(name: Seq<char>) -> Option<Seq<char>> {
    match strip_prefix(name, "initramfs-"@) {
        Some(v) => Some(trim_end_str(v, ".img"@)),
        None => match strip_prefix(name, "initrd.img-"@) {
            Some(v) => Some(v),
            None => match strip_prefix(name, "initrd-"@) {
                Some(v) => Some(trim_end_str(v, ".img"@)),
                None => None,
            },
        },
    }
}

/// A file with a version in its name.
pub struct Versioned {
    pub version: String,
    pub path: String,
}

/// What a [`Versioned`] says.
pub struct VersionedView {
    pub version: Seq<char>,
    pub path: Seq<char>,
}

impl View for Versioned {
    type V = VersionedView;

    open spec fn view(&self) -> VersionedView {
        VersionedView { version: self.version@, path: self.path@ }
    }
}

/// The boot candidates of a listing.
pub open spec fn kernels_in(prefix: Seq<char>, listing: Seq<DirEntryView>) -> Seq<VersionedView>
    decreases listing.len(),
{
    if listing.len() == 0 {
        seq![]
    } else {
        let before = kernels_in(prefix, listing.drop_last());
        let f = listing.last();
        match kernel_version(f.name) {
            Some(version) if f.kind != FileKind::Dir && is_candidate(version) => before.push(
                VersionedView { version, path: prefix + "/"@ + f.name },
            ),
            _ => before,
        }
    }
}

/// The initramfs images of a listing.
pub open spec fn initrds_in(prefix: Seq<char>, listing: Seq<DirEntryView>) -> Seq<VersionedView>
    decreases listing.len(),
{
    if listing.len() == 0 {
        seq![]
    } else {
        let before = initrds_in(prefix, listing.drop_last());
        let f = listing.last();
        match initrd_version(f.name) {
            Some(version) if f.kind != FileKind::Dir && kernel_version(f.name) is None =>
                before.push(VersionedView { version, path: prefix + "/"@ + f.name }),
            _ => before,
        }
    }
}

/// The predicate "is of this version".
pub open spec fn of_version(version: Seq<char>) -> spec_fn(VersionedView) -> bool {
    |i: VersionedView| i.version == version
}

/// The entry of a kernel: with the first image of the same version, and
/// without a command line.
pub open spec fn paired(kernel: VersionedView, initrds: Seq<VersionedView>) -> EntryView {
    EntryView {
        kernel: Some(kernel.path),
        initrd: match position(initrds, of_version(kernel.version)) {
            Some(i) => seq![initrds[i].path],
            None => seq![],
        },
        version: Some(kernel.version),
        ..blank_entry(Source::Fallback)
    }
}

/// The entries of the kernels in a directory, in listing order.
pub open spec fn entries_in<F: FileSystem + ?Sized>(
    fs: &F,
    prefix: Seq<char>,
    dir: Seq<char>,
) -> Seq<EntryView> {
    match fs.listing(dir) {
        Some(l) => Seq::new(
            kernels_in(prefix, l).len(),
            |i: int| paired(kernels_in(prefix, l)[i], initrds_in(prefix, l)),
        ),
        None => seq![],
    }
}

/// Every kernel with its image, newest first.
pub open spec fn fallback_entries<F: FileSystem + ?Sized>(fs: &F) -> Seq<EntryView> {
    newest_first(entries_in(fs, ""@, "/"@) + entries_in(fs, "/boot"@, "/boot"@))
}

/// The predicate "has a kernel of this file name".
pub open spec fn kernel_named(base: Seq<char>) -> spec_fn(EntryView) -> bool {
    |e: EntryView| e.kernel matches Some(k) && after_last(k, '/') == base
}

/// The entry whose kernel the symbolic link names.
pub open spec fn linked<F: FileSystem + ?Sized>(
    fs: &F,
    entries: Seq<EntryView>,
    link: Seq<char>,
) -> Option<int> {
    match fs.target(link) {
        Some(t) => position(entries, kernel_named(after_last(t, '/'))),
        None => None,
    }
}

/// The default: what the distro-maintained symlink names, else the newest.
pub open spec fn fallback_default<F: FileSystem + ?Sized>(fs: &F, entries: Seq<EntryView>) -> Option<
    int,
> {
    or(
        or(linked(fs, entries, "/vmlinuz"@), linked(fs, entries, "/boot/vmlinuz"@)),
        if entries.len() == 0 {
            None
        } else {
            Some(0)
        },
    )
}

/// The version in a kernel's file name.
fn kernel_version_of(name: &[char]) -> (r: Option<&[char]>)
    ensures
        match r {
            Some(v) => kernel_version(name@) == Some(v@),
            None => kernel_version(name@) is None,
        },
{
    match after_prefix(name, "vmlinuz-") {
        Some(v) => Some(v),
        None => after_prefix(name, "Image-"),
    }
}

/// The version in an initramfs image's file name.
fn initrd_version_of(name: &[char]) -> (r: Option<&[char]>)
    ensures
        match r {
            Some(v) => initrd_version(name@) == Some(v@),
            None => initrd_version(name@) is None,
        },
{
    match after_prefix(name, "initramfs-") {
        Some(v) => Some(trimmed_end_str(v, ".img")),
        None => match after_prefix(name, "initrd.img-") {
            Some(v) => Some(v),
            None => match after_prefix(name, "initrd-") {
                Some(v) => Some(trimmed_end_str(v, ".img")),
                None => None,
            },
        },
    }
}

/// The boot candidates and the initramfs images of a listing.
fn sort_out(prefix: &str, listing: &Vec<DirEntry>) -> (r: (Vec<Versioned>, Vec<Versioned>))
    ensures
        views(r.0@) == kernels_in(prefix@, views(listing@)),
        views(r.1@) == initrds_in(prefix@, views(listing@)),
{
    let mut kernels: Vec<Versioned> = Vec::new();
    let mut initrds: Vec<Versioned> = Vec::new();
    let ghost all = views(listing@);
    let mut i: usize = 0;
    proof {
        assert(all.take(0) =~= Seq::<DirEntryView>::empty());
        assert(views(kernels@) =~= Seq::<VersionedView>::empty());
        assert(views(initrds@) =~= Seq::<VersionedView>::empty());
    }
    while i < listing.len()
        invariant
            i <= listing@.len(),
            all == views(listing@),
            views(kernels@) == kernels_in(prefix@, all.take(i as int)),
            views(initrds@) == initrds_in(prefix@, all.take(i as int)),
        decreases listing@.len() - i,
    {
        let f = &listing[i];
        proof {
            assert(all[i as int] == f@);
            assert(all.take(i + 1).drop_last() =~= all.take(i as int));
            assert(all.take(i + 1).last() == f@);
        }
        i = i + 1;
        let is_dir: bool = match f.kind {
            FileKind::Dir => true,
            _ => false,
        };
        if is_dir {
            continue;
        }
        let name = chars(f.name.as_str());
        let mut path: String = String::new();
        path.append(prefix);
        path.append("/");
        path.append(f.name.as_str());
        assert(path@ =~= prefix@ + "/"@ + f@.name);
        match kernel_version_of(name.as_slice()) {
            Some(v) => {
                if !has_text(v, "rescue") && !has_text(v, "kdump") {
                    let ghost before = kernels@;
                    let k = Versioned { version: string(v), path };
                    let ghost kv = k@;
                    kernels.push(k);
                    assert(views(kernels@) =~= views(before).push(kv));
                }
            },
            None => {
                match initrd_version_of(name.as_slice()) {
                    Some(v) => {
                        let ghost before = initrds@;
                        let k = Versioned { version: string(v), path };
                        let ghost kv = k@;
                        initrds.push(k);
                        assert(views(initrds@) =~= views(before).push(kv));
                    },
                    None => {},
                }
            },
        }
    }
    assert(all.take(i as int) =~= all);
    (kernels, initrds)
}

/// The entry of a kernel.
fn pair(kernel: &Versioned, initrds: &Vec<Versioned>) -> (r: BootEntry)
    ensures
        r@ == paired(kernel@, views(initrds@)),
{
    let version = kernel.version.as_str();
    let test = |i: &Versioned| -> (b: bool)
        ensures
            b == of_version(version@)(i@)
    { eq(i.version.as_str(), version) };
    let mut e = BootEntry::blank(Source::Fallback);
    match position_by(initrds, test, Ghost(of_version(version@))) {
        Some(i) => {
            e.initrd.push(initrds[i].path.clone());
            assert(views(initrds@)[i as int] == initrds@[i as int]@);
        },
        None => {},
    }
    e.kernel = Some(kernel.path.clone());
    e.version = Some(kernel.version.clone());
    assert(e@.initrd =~= paired(kernel@, views(initrds@)).initrd);
    e
}

/// Add the kernels of one directory to the sorted entries.
fn add_dir<F: FileSystem + ?Sized>(
    fs: &F,
    prefix: &str,
    dir: &str,
    entries: &mut Vec<BootEntry>,
    Ghost(found): Ghost<Seq<EntryView>>,
)
    requires
        fs.stable() ==> views(old(entries)@) == newest_first(found),
        all_from(views(old(entries)@), Source::Fallback),
    ensures
        all_from(views(final(entries)@), Source::Fallback),
        fs.stable() ==> views(final(entries)@) == newest_first(
            found + entries_in(fs, prefix@, dir@),
        ),
{
    let listing = match fs.read_dir(dir) {
        Ok(l) => l,
        Err(_) => {
            assert(found + Seq::<EntryView>::empty() =~= found);
            return ;
        },
    };
    let (kernels, initrds) = sort_out(prefix, &listing);
    let ghost all = Seq::new(
        kernels@.len(),
        |i: int| paired(views(kernels@)[i], views(initrds@)),
    );
    let mut i: usize = 0;
    assert(found + all.take(0) =~= found);
    while i < kernels.len()
        invariant
            i <= kernels@.len(),
            all_from(views(entries@), Source::Fallback),
            all == Seq::new(
                kernels@.len(),
                |i: int| paired(views(kernels@)[i], views(initrds@)),
            ),
            fs.stable() ==> views(entries@) == newest_first(found + all.take(i as int)),
        decreases kernels@.len() - i,
    {
        let e = pair(&kernels[i], &initrds);
        proof {
            assert(views(kernels@)[i as int] == kernels@[i as int]@);
            assert(e@ == all[i as int]);
            let next = found + all.take(i + 1);
            assert(next.drop_last() =~= found + all.take(i as int));
            assert(next.last() == all[i as int]);
        }
        proof {
            lemma_insert_from(views(entries@), e@, Source::Fallback);
        }
        add_newest(entries, e);
        i = i + 1;
    }
    proof {
        if fs.stable() {
            assert(all.take(i as int) =~= all);
            assert(all =~= entries_in(fs, prefix@, dir@));
        }
    }
}

/// Whether the entry's kernel has this file name.
fn has_kernel_named(e: &BootEntry, base: &[char]) -> (r: bool)
    ensures
        r == kernel_named(base@)(e@),
{
    match &e.kernel {
        Some(k) => {
            let c = chars(k.as_str());
            same(tail_after(c.as_slice(), '/'), base)
        },
        None => false,
    }
}

/// The entry whose kernel the symbolic link names.
fn find_linked<F: FileSystem + ?Sized>(fs: &F, entries: &Vec<BootEntry>, link: &str) -> (r: Option<
    usize,
>)
    ensures
        fs.stable() ==> index(r) == linked(fs, views(entries@), link@),
        r matches Some(i) ==> i < entries@.len(),
{
    match fs.read_link(link) {
        Some(target) => {
            let c = chars(target.as_str());
            let base = tail_after(c.as_slice(), '/');
            let test = |e: &BootEntry| -> (b: bool)
                ensures
                    b == kernel_named(base@)(e@)
            { has_kernel_named(e, base) };
            position_by(entries, test, Ghost(kernel_named(base@)))
        },
        None => None,
    }
}

/// No usable config: pair vmlinuz-*/initramfs-* by version, newest first.
/// The distro-maintained /vmlinuz symlink, when readable, marks the default.
pub fn fallback_scan<F: FileSystem + ?Sized>(fs: &F) -> (r: (Vec<BootEntry>, Option<usize>))
    ensures
        fs.stable() ==> views(r.0@) == fallback_entries(fs),
        fs.stable() ==> index(r.1) == fallback_default(fs, fallback_entries(fs)),
        match r.1 {
            Some(d) => d < r.0@.len(),
            None => r.0@.len() == 0,
        },
        all_from(views(r.0@), Source::Fallback),
{
    let mut entries: Vec<BootEntry> = Vec::new();
    assert(views(entries@) =~= Seq::<EntryView>::empty());
    add_dir(fs, "", "/", &mut entries, Ghost(Seq::empty()));
    proof {
        let first = entries_in(fs, ""@, "/"@);
        assert(Seq::<EntryView>::empty() + first =~= first);
    }
    add_dir(fs, "/boot", "/boot", &mut entries, Ghost(entries_in(fs, ""@, "/"@)));
    // Debian/Ubuntu maintain /vmlinuz -> boot/vmlinuz-X; trust it over
    // version sort when present.
    let mut default: Option<usize> = find_linked(fs, &entries, "/vmlinuz");
    if default.is_none() {
        default = find_linked(fs, &entries, "/boot/vmlinuz");
    }
    if default.is_none() && entries.len() > 0 {
        default = Some(0);
    }
    (entries, default)
}

/// Every entry is a fallback entry.
pub proof fn lemma_source<F: FileSystem + ?Sized>(fs: &F)
    ensures
        all_from(fallback_entries(fs), Source::Fallback),
{
    lemma_sorted_from(
        entries_in(fs, ""@, "/"@) + entries_in(fs, "/boot"@, "/boot"@),
        Source::Fallback,
    );
}

/// The default is one of the entries; there is none only where there is no
/// entry at all.
pub proof fn lemma_default_in_range<F: FileSystem + ?Sized>(fs: &F, entries: Seq<EntryView>)
    ensures
        match fallback_default(fs, entries) {
            Some(i) => 0 <= i < entries.len(),
            None => entries.len() == 0,
        },
{
    assert forall|p: spec_fn(EntryView) -> bool|
        #![trigger position(entries, p)]
        position(entries, p) matches Some(i) ==> 0 <= i < entries.len() by {
        lemma_position(entries, p);
    }
}

/// The entries are sorted, newest first, and are those of both directories.
pub proof fn law_entries_are_newest_first<F: FileSystem + ?Sized>(fs: &F)
    ensures
        is_newest_first(fallback_entries(fs)),
        fallback_entries(fs).to_multiset() == (entries_in(fs, ""@, "/"@) + entries_in(
            fs,
            "/boot"@,
            "/boot"@,
        )).to_multiset(),
{
    law_newest_first_sorts(entries_in(fs, ""@, "/"@) + entries_in(fs, "/boot"@, "/boot"@));
}

/// No rescue or kdump image is offered.
pub proof fn law_only_candidates<F: FileSystem + ?Sized>(fs: &F, i: int)
    requires
        0 <= i < fallback_entries(fs).len(),
    ensures
        fallback_entries(fs)[i].version matches Some(v) && is_candidate(v),
{
    let all = entries_in(fs, ""@, "/"@) + entries_in(fs, "/boot"@, "/boot"@);
    let e = fallback_entries(fs)[i];
    law_newest_first_sorts(all);
    assert(fallback_entries(fs).contains(e));
    fallback_entries(fs).to_multiset_ensures();
    all.to_multiset_ensures();
    assert(fallback_entries(fs).to_multiset().count(e) > 0);
    assert(all.to_multiset().count(e) > 0);
    let j = choose|j: int| 0 <= j < all.len() && all[j] == e;
    let n = entries_in(fs, ""@, "/"@).len();
    if j < n {
        lemma_candidates(""@, fs.listing("/"@)->0, j);
    } else {
        lemma_candidates("/boot"@, fs.listing("/boot"@)->0, j - n);
    }
}

proof fn lemma_candidates(prefix: Seq<char>, listing: Seq<DirEntryView>, i: int)
    requires
        0 <= i < kernels_in(prefix, listing).len(),
    ensures
        is_candidate(kernels_in(prefix, listing)[i].version),
    decreases listing.len(),
{
    if i < kernels_in(prefix, listing.drop_last()).len() {
        lemma_candidates(prefix, listing.drop_last(), i);
    }
}

} // verus!
