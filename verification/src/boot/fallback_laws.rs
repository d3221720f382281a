//! How kernels and initramfs images are told and paired by their names.

use crate::boot::fallback::{
    entries_in, fallback_default, fallback_entries, initrd_version, initrds_in, is_candidate,
    kernel_named, kernel_version, kernels_in, linked, of_version, paired, VersionedView,
};
use crate::boot::newest::law_newest_first_sorts;
use crate::boot::{EntryView, Source};
use crate::fsys::{DirEntryView, FileKind, FileSystem};
use crate::seqs::lemma_position;
use crate::text::laws::{law_rsplit_once, law_strip_prefix, law_trim_end_str};
use crate::text::split::{contains, starts_with, strip_prefix};
use vstd::prelude::*;
use vstd::string::*;

verus! {

/// A kernel is called `vmlinuz-` or `Image-` and its version, and nothing else
/// is a kernel.
pub proof fn law_kernel_names(v: Seq<char>, name: Seq<char>)
    ensures
        kernel_version("vmlinuz-"@ + v) == Some(v),
        kernel_version("Image-"@ + v) == Some(v),
        kernel_version(name) matches Some(w) ==> name == "vmlinuz-"@ + w || name == "Image-"@ + w,
{
    reveal_strlit("vmlinuz-");
    reveal_strlit("Image-");
    law_strip_prefix("vmlinuz-"@, v);
    law_strip_prefix("Image-"@, v);
    law_strip_prefix("vmlinuz-"@, name);
    law_strip_prefix("Image-"@, name);
    let t = "Image-"@ + v;
    assert(t[0] == 'I');
    if starts_with(t, "vmlinuz-"@) {
        assert(t.take(8)[0] == 'v');
    }
}

/// An image is called `initramfs-` or `initrd-` and its version, with or
/// without `.img` behind it, or `initrd.img-` and its version.
pub proof fn law_image_names(v: Seq<char>)
    requires
        v.len() < 4 || v.skip(v.len() - 4) != seq!['.', 'i', 'm', 'g'],
    ensures
        initrd_version("initramfs-"@ + v) == Some(v),
        initrd_version("initramfs-"@ + (v + ".img"@)) == Some(v),
        initrd_version("initrd-"@ + v) == Some(v),
        initrd_version("initrd-"@ + (v + ".img"@)) == Some(v),
        initrd_version("initrd.img-"@ + v) == Some(v),
{
    reveal_strlit("initramfs-");
    reveal_strlit("initrd-");
    reveal_strlit("initrd.img-");
    reveal_strlit(".img");
    assert(".img"@ =~= seq!['.', 'i', 'm', 'g']);
    law_trim_end_str(v, ".img"@);
    let w = v + ".img"@;
    law_strip_prefix("initramfs-"@, v);
    law_strip_prefix("initramfs-"@, w);
    law_strip_prefix("initrd-"@, v);
    law_strip_prefix("initrd-"@, w);
    law_strip_prefix("initrd.img-"@, v);
    lemma_other_prefix("initrd-"@ + v);
    lemma_other_prefix("initrd-"@ + w);
    lemma_other_prefix("initrd.img-"@ + v);
}

proof fn lemma_other_prefix(name: Seq<char>)
    requires
        name.len() >= 7,
        name[4] == 'r',
    ensures
        strip_prefix(name, "initramfs-"@) is None || name[5] == 'a',
        name[6] == '-' ==> strip_prefix(name, "initrd.img-"@) is None,
        name[5] == 'd' ==> strip_prefix(name, "initramfs-"@) is None,
{
    reveal_strlit("initramfs-");
    reveal_strlit("initrd.img-");
    if starts_with(name, "initramfs-"@) {
        assert(name.take(10)[5] == 'a');
        assert("initramfs-"@[5] == 'a');
    }
    if starts_with(name, "initrd.img-"@) {
        assert(name.take(11)[6] == '.');
    }
}

/// A version with `rescue` or `kdump` in it is no candidate; one without is.
pub proof fn law_rescue_is_no_candidate(a: Seq<char>, b: Seq<char>)
    ensures
        !is_candidate(a + "rescue"@ + b),
        !is_candidate(a + "kdump"@ + b),
        (forall|i: int|
            0 <= i <= a.len() ==> !starts_with(#[trigger] a.skip(i), "rescue"@) && !starts_with(
                a.skip(i),
                "kdump"@,
            )) ==> is_candidate(a),
{
    let s = a + "rescue"@ + b;
    let t = a + "kdump"@ + b;
    let n = a.len() as int;
    assert(s.skip(n).take("rescue"@.len() as int) =~= "rescue"@);
    assert(starts_with(s.skip(n), "rescue"@));
    assert(t.skip(n).take("kdump"@.len() as int) =~= "kdump"@);
    assert(starts_with(t.skip(n), "kdump"@));
}

/// A kernel in the listing is a candidate with the version in its name, at the
/// path of its directory, behind those before it; a directory is none, and an
/// image is no kernel.
pub proof fn law_kernel_is_found(
    prefix: Seq<char>,
    listing: Seq<DirEntryView>,
    f: DirEntryView,
    v: Seq<char>,
)
    requires
        f.name == "vmlinuz-"@ + v || f.name == "Image-"@ + v,
        is_candidate(v),
    ensures
        kernels_in(prefix, listing.push(f)) == (if f.kind == FileKind::Dir {
            kernels_in(prefix, listing)
        } else {
            kernels_in(prefix, listing).push(
                VersionedView { version: v, path: prefix + seq!['/'] + f.name },
            )
        }),
        initrds_in(prefix, listing.push(f)) == initrds_in(prefix, listing),
        kernels_in(prefix, seq![]) == Seq::<VersionedView>::empty(),
{
    reveal_strlit("/");
    assert("/"@ =~= seq!['/']);
    law_kernel_names(v, f.name);
    let all = listing.push(f);
    assert(all.drop_last() =~= listing);
    assert(all.last() == f);
}

/// An image in the listing counts with the version in its name, at the path of
/// its directory, behind those before it.
pub proof fn law_image_is_found(
    prefix: Seq<char>,
    listing: Seq<DirEntryView>,
    f: DirEntryView,
    v: Seq<char>,
)
    requires
        v.len() < 4 || v.skip(v.len() - 4) != seq!['.', 'i', 'm', 'g'],
        f.name == "initramfs-"@ + v || f.name == "initramfs-"@ + (v + ".img"@) || f.name == "initrd-"@
            + v || f.name == "initrd-"@ + (v + ".img"@) || f.name == "initrd.img-"@ + v,
    ensures
        initrds_in(prefix, listing.push(f)) == (if f.kind == FileKind::Dir {
            initrds_in(prefix, listing)
        } else {
            initrds_in(prefix, listing).push(
                VersionedView { version: v, path: prefix + seq!['/'] + f.name },
            )
        }),
        kernels_in(prefix, listing.push(f)) == kernels_in(prefix, listing),
        initrds_in(prefix, seq![]) == Seq::<VersionedView>::empty(),
{
    reveal_strlit("/");
    reveal_strlit("initramfs-");
    reveal_strlit("initrd-");
    reveal_strlit("initrd.img-");
    reveal_strlit("vmlinuz-");
    reveal_strlit("Image-");
    assert("/"@ =~= seq!['/']);
    law_image_names(v);
    assert(f.name[0] == 'i');
    if kernel_version(f.name) is Some {
        law_kernel_names(kernel_version(f.name)->0, f.name);
        assert(f.name[0] == 'v' || f.name[0] == 'I');
    }
    let all = listing.push(f);
    assert(all.drop_last() =~= listing);
    assert(all.last() == f);
}

/// A kernel goes with the first image of its own version, and without one
/// where there is no such image; it has no command line.
pub proof fn law_kernel_and_image_are_paired(
    kernel: VersionedView,
    images: Seq<VersionedView>,
    i: int,
)
    ensures
        ({
            let e = paired(kernel, images);
            &&& e.kernel == Some(kernel.path)
            &&& e.version == Some(kernel.version)
            &&& e.cmdline is None && e.title is None && e.id is None && e.chainloader is None
                && e.source == Source::Fallback
            &&& 0 <= i < images.len() && images[i].version == kernel.version && (forall|j: int|
                0 <= j < i ==> (#[trigger] images[j]).version != kernel.version) ==> e.initrd == seq![
                images[i].path,
            ]
            &&& (forall|j: int|
                0 <= j < images.len() ==> (#[trigger] images[j]).version != kernel.version)
                ==> e.initrd.len() == 0
        }),
{
    let p = of_version(kernel.version);
    lemma_position(images, p);
    if 0 <= i < images.len() && images[i].version == kernel.version {
        assert(p(images[i]));
    }
}

/// The entries are those of the kernels in the root directory and in `/boot`,
/// each with the images of its own directory, and no others.
pub proof fn law_both_directories_count<F: FileSystem + ?Sized>(fs: &F)
    ensures
        fallback_entries(fs).to_multiset() == (entries_in(fs, seq![], "/"@) + entries_in(
            fs,
            "/boot"@,
            "/boot"@,
        )).to_multiset(),
        forall|dir: Seq<char>, prefix: Seq<char>, i: int|
            #![trigger entries_in(fs, prefix, dir)[i]]
            (fs.listing(dir) matches Some(l) && 0 <= i < kernels_in(prefix, l).len() && entries_in(
                fs,
                prefix,
                dir,
            ).len() == kernels_in(prefix, l).len()) ==> entries_in(fs, prefix, dir)[i] == paired(
                kernels_in(prefix, fs.listing(dir)->0)[i],
                initrds_in(prefix, fs.listing(dir)->0),
            ),
        forall|dir: Seq<char>, prefix: Seq<char>| #[trigger]
            entries_in(fs, prefix, dir).len() == (match fs.listing(dir) {
                Some(l) => kernels_in(prefix, l).len(),
                None => 0,
            }),
{
    reveal_strlit("");
    assert(""@ =~= Seq::<char>::empty());
    law_newest_first_sorts(entries_in(fs, ""@, "/"@) + entries_in(fs, "/boot"@, "/boot"@));
}

/// The default is the kernel that the link `/vmlinuz` names, wherever the link
/// points to, else the one that `/boot/vmlinuz` names, else the newest.
pub proof fn law_link_names_the_default<F: FileSystem + ?Sized>(
    fs: &F,
    entries: Seq<EntryView>,
    dir: Seq<char>,
    base: Seq<char>,
    i: int,
)
    requires
        !base.contains('/'),
        0 <= i < entries.len(),
        entries[i].kernel == Some(dir + seq!['/'] + base),
        forall|j: int|
            0 <= j < i ==> ((#[trigger] entries[j]).kernel matches Some(k)
                && crate::text::split::after_last(k, '/') != base),
    ensures
        forall|x: Seq<char>|
            #![trigger x + seq!['/'] + base]
            fs.target("/vmlinuz"@) == Some(x + seq!['/'] + base) ==> fallback_default(fs, entries)
                == Some(i),
        fs.target("/vmlinuz"@) == Some(base) ==> fallback_default(fs, entries) == Some(i),
        fs.target("/vmlinuz"@) is None && fs.target("/boot/vmlinuz"@) == Some(base)
            ==> fallback_default(fs, entries) == Some(i),
        fs.target("/vmlinuz"@) is None && fs.target("/boot/vmlinuz"@) is None ==> fallback_default(
            fs,
            entries,
        ) == Some(0int),
{
    law_rsplit_once(dir, '/', base);
    let p = kernel_named(base);
    lemma_position(entries, p);
    assert(p(entries[i]));
    assert(crate::seqs::position(entries, p) == Some(i));
    assert forall|x: Seq<char>|
        #![trigger x + seq!['/'] + base]
        fs.target("/vmlinuz"@) == Some(x + seq!['/'] + base) implies fallback_default(fs, entries)
        == Some(i) by {
        law_rsplit_once(x, '/', base);
        assert(linked(fs, entries, "/vmlinuz"@) == Some(i));
    }
    if fs.target("/vmlinuz"@) == Some(base) {
        assert(linked(fs, entries, "/vmlinuz"@) == Some(i));
    }
}

} // verus!
