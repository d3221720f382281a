//! What the commands print.

use crate::boot::{opt_str, BootEntry, BootScan, EntryView, ScanView};
use crate::cli::listing::{left, number, push_left, push_right, right};
use crate::guest::{uri, uri_of};
use crate::kernel::{Compression, Wrapper};
use crate::part::Partition;
use crate::seqs::{or, views};
use crate::text::number::{dec, push_dec};
use crate::text::split::{contains, has_text};
use crate::text::{chars, opt};
use vstd::prelude::*;
use vstd::string::*;

verus! {

broadcast use vstd::seq_lib::group_seq_properties;

/// Add a line made of two texts.
fn push_line(out: &mut Vec<String>, a: &str, b: &str)
    ensures
        views(final(out)@) == views(old(out)@).push(a@ + b@),
{
    let ghost before = out@;
    let mut line: String = a.to_owned();
    line.append(b);
    let ghost l = line@;
    out.push(line);
    assert(views(out@) =~= views(before).push(l));
}

/// Add lines.
pub fn push_lines(out: &mut Vec<String>, more: Vec<String>)
    ensures
        views(final(out)@) == views(old(out)@) + views(more@),
{
    let ghost before = out@;
    let mut more = more;
    let ghost m = more@;
    out.append(&mut more);
    assert(views(out@) =~= views(before) + views(m));
}

// ---------------------------------------------------------------------
// Boot entries
// ---------------------------------------------------------------------

/// What an entry is called.
pub open spec fn label_of(e: EntryView) -> Seq<char> {
    match or(e.title, or(e.version, e.id)) {
        Some(s) => s,
        None => "(untitled)"@,
    }
}

/// What an entry is called: its title, version or id.
pub fn entry_label(entry: &BootEntry) -> (r: &str)
    ensures
        r@ == label_of(entry@),
{
    if let Some(t) = &entry.title {
        return t.as_str();
    }
    if let Some(v) = &entry.version {
        return v.as_str();
    }
    if let Some(i) = &entry.id {
        return i.as_str();
    }
    "(untitled)"
}

/// A line for each path: `what`, and its URI.
pub open spec fn uri_lines(what: Seq<char>, part: nat, paths: Seq<Seq<char>>) -> Seq<Seq<char>> {
    Seq::new(paths.len(), |i: int| what + uri_of(part, paths[i]))
}

/// Add a line for each path: `what`, and its URI.
pub fn push_uris(out: &mut Vec<String>, what: &str, part: usize, paths: &Vec<String>)
    ensures
        views(final(out)@) == views(old(out)@) + uri_lines(what@, part as nat, views(paths@)),
{
    let ghost before = views(out@);
    let ghost all = uri_lines(what@, part as nat, views(paths@));
    let mut i: usize = 0;
    assert(views(out@) =~= before + all.take(0));
    while i < paths.len()
        invariant
            i <= paths@.len(),
            all == uri_lines(what@, part as nat, views(paths@)),
            views(out@) == before + all.take(i as int),
        decreases paths@.len() - i,
    {
        let u = uri(part, paths[i].as_str());
        push_line(out, what, u.as_str());
        proof {
            assert(views(paths@)[i as int] == paths@[i as int]@);
            assert(all.take(i + 1) =~= all.take(i as int).push(all[i as int]));
            assert(views(out@) =~= before + all.take(i + 1));
        }
        i = i + 1;
    }
    assert(all.take(i as int) =~= all);
}

/// A command line that names a physical device.
pub open spec fn names_a_device(cmdline: Seq<char>) -> bool {
    contains(cmdline, "root=/dev/sd"@) || contains(cmdline, "root=/dev/nvme"@)
}

/// What is said of a command line that names a physical device.
pub const DEVICE_NOTE: &'static str =
    "      note: root= names a physical device; under virtio this likely needs rewriting (e.g. /dev/vda)";

/// The files and the command line of an entry, as lines.
pub open spec fn entry_text(part: nat, e: EntryView, fixed: Option<Seq<char>>) -> Seq<Seq<char>> {
    let kernel = match e.kernel {
        Some(k) => seq!["      kernel:  "@ + uri_of(part, k)],
        None => seq![],
    };
    let cmdline = match e.cmdline {
        Some(c) => seq!["      cmdline: "@ + c] + (match fixed {
            Some(f) => seq!["      vdafix:  "@ + f],
            None => if names_a_device(c) {
                seq![DEVICE_NOTE@]
            } else {
                seq![]
            },
        }),
        None => seq![],
    };
    kernel + uri_lines("      initrd:  "@, part, e.initrd) + cmdline
}

/// The files and the command line of an entry, as lines. `fixed` is the
/// rewrite of the command line, if there is one.
pub fn entry_lines(part: usize, entry: &BootEntry, fixed: Option<&str>) -> (r: Vec<String>)
    ensures
        views(r@) == entry_text(part as nat, entry@, opt_str(fixed)),
{
    let mut out: Vec<String> = Vec::new();
    assert(views(out@) =~= Seq::<Seq<char>>::empty());
    if let Some(kernel) = &entry.kernel {
        let u = uri(part, kernel.as_str());
        push_line(&mut out, "      kernel:  ", u.as_str());
    }
    push_uris(&mut out, "      initrd:  ", part, &entry.initrd);
    let ghost head = views(out@);
    if let Some(cmdline) = &entry.cmdline {
        push_line(&mut out, "      cmdline: ", cmdline.as_str());
        if let Some(f) = fixed {
            push_line(&mut out, "      vdafix:  ", f);
        } else {
            let c = chars(cmdline.as_str());
            if has_text(c.as_slice(), "root=/dev/sd") || has_text(c.as_slice(), "root=/dev/nvme") {
                let ghost before = out@;
                out.push(DEVICE_NOTE.to_owned());
                assert(views(out@) =~= views(before).push(DEVICE_NOTE@));
            }
        }
    }
    assert(views(out@) =~= entry_text(part as nat, entry@, opt_str(fixed)));
    out
}

/// The line above an entry: its number, what it is called and where it was
/// found.
pub open spec fn headline(i: nat, is_default: bool, e: EntryView) -> Seq<char> {
    (if is_default {
        "* ["@
    } else {
        "  ["@
    }) + dec(i + 1) + "] "@ + label_of(e) + " ("@ + e.source.name() + ")"@
}

/// What else is said of an entry.
pub open spec fn entry_notes(compression: Option<Wrapper>, dma: Option<bool>) -> Seq<Seq<char>> {
    let wrapped = match compression {
        Some(w) => seq![
            "      note: compressed kernel ("@ + w.name()
                + "); extract with --decompress for direct-kernel boot"@,
        ],
        None => seq![],
    };
    wrapped + (if dma == Some(false) {
        seq![
            "      note: kernel lacks CONFIG_DMA_RESTRICTED_POOL; virtio fails under a protected VM"@,
        ]
    } else {
        seq![]
    })
}

/// The `i`th entry, as lines.
pub open spec fn entry_block(
    part: nat,
    i: nat,
    is_default: bool,
    e: EntryView,
    fixed: Option<Seq<char>>,
    compression: Option<Wrapper>,
    dma: Option<bool>,
) -> Seq<Seq<char>> {
    seq![headline(i, is_default, e)] + entry_text(part, e, fixed) + entry_notes(compression, dma)
}

/// The `i`th entry, as lines. `compression` is what wraps its kernel, and
/// `dma_restricted_pool` whether it can do virtio in a protected VM, where
/// that is known.
pub fn block_lines(
    part: usize,
    i: usize,
    is_default: bool,
    entry: &BootEntry,
    fixed: Option<&str>,
    compression: &Option<Compression>,
    dma_restricted_pool: Option<bool>,
) -> (r: Vec<String>)
    requires
        i < usize::MAX,
    ensures
        views(r@) == entry_block(
            part as nat,
            i as nat,
            is_default,
            entry@,
            opt_str(fixed),
            crate::kernel::wrapper(*compression),
            dma_restricted_pool,
        ),
{
    let mut head: String = (if is_default {
        "* ["
    } else {
        "  ["
    }).to_owned();
    push_dec(&mut head, (i + 1) as u64);
    head.append("] ");
    head.append(entry_label(entry));
    head.append(" (");
    head.append(entry.source.label());
    head.append(")");
    let mut out: Vec<String> = Vec::new();
    let ghost h = head@;
    out.push(head);
    assert(views(out@) =~= seq![h]);
    push_lines(&mut out, entry_lines(part, entry, fixed));
    let ghost before = views(out@);
    if let Some(c) = compression {
        let mut note: String = "      note: compressed kernel (".to_owned();
        note.append(c.label().as_str());
        push_line(&mut out, note.as_str(), "); extract with --decompress for direct-kernel boot");
    }
    if let Some(false) = dma_restricted_pool {
        let ghost o = out@;
        out.push(
            "      note: kernel lacks CONFIG_DMA_RESTRICTED_POOL; virtio fails under a protected VM".to_owned(),
        );
        assert(views(out@) =~= views(o).push(
            "      note: kernel lacks CONFIG_DMA_RESTRICTED_POOL; virtio fails under a protected VM"@,
        ));
    }
    assert(views(out@) =~= before + entry_notes(
        crate::kernel::wrapper(*compression),
        dma_restricted_pool,
    ));
    out
}

/// The line above the entries of a partition.
pub fn partition_line(part: usize, fs_type: &str) -> (r: String)
    ensures
        r@ == "partition "@ + dec(part as nat) + " ("@ + fs_type@ + "):"@,
{
    let mut out: String = "partition ".to_owned();
    push_dec(&mut out, part as u64);
    out.append(" (");
    out.append(fs_type);
    out.append("):");
    out
}

/// The first `n` entries of a scan, as lines.
pub open spec fn scan_text(part: nat, s: ScanView, n: nat) -> Seq<Seq<char>>
    decreases n,
{
    if n == 0 {
        seq![]
    } else {
        let i = (n - 1) as nat;
        scan_text(part, s, i) + entry_block(
            part,
            i,
            s.default == Some(i as int),
            s.entries[i as int],
            None,
            None,
            None,
        )
    }
}

/// The entries of a partition, as lines.
pub fn scan_lines(part: usize, scan: &BootScan) -> (r: core::result::Result<Vec<String>, String>)
    ensures
        if scan.entries@.len() == 0 {
            r matches Err(e) && e@ == "no boot entries on partition "@ + dec(part as nat)
        } else {
            r matches Ok(v) && views(v@) == scan_text(part as nat, scan@, scan@.entries.len())
        },
{
    if scan.entries.len() == 0 {
        let mut msg: String = "no boot entries on partition ".to_owned();
        push_dec(&mut msg, part as u64);
        return Err(msg);
    }
    let mut out: Vec<String> = Vec::new();
    let mut i: usize = 0;
    assert(views(out@) =~= Seq::<Seq<char>>::empty());
    while i < scan.entries.len()
        invariant
            i <= scan.entries@.len(),
            scan.entries@.len() <= usize::MAX,
            views(out@) == scan_text(part as nat, scan@, i as nat),
        decreases scan.entries@.len() - i,
    {
        let is_default: bool = match scan.default {
            Some(d) => d == i,
            None => false,
        };
        assert(scan@.entries[i as int] == scan.entries@[i as int]@);
        let block = block_lines(part, i, is_default, &scan.entries[i], None, &None, None);
        push_lines(&mut out, block);
        i = i + 1;
    }
    Ok(out)
}

// ---------------------------------------------------------------------
// What boots
// ---------------------------------------------------------------------

/// What the bootloader would boot, as lines.
pub open spec fn boot_info_text(
    part: nat,
    e: EntryView,
    fixed: Option<Seq<char>>,
    compression: Option<Wrapper>,
) -> Seq<Seq<char>> {
    let cmdline = match e.cmdline {
        Some(c) => seq!["cmdline: "@ + c] + (match fixed {
            Some(f) => seq!["vdafix:  "@ + f],
            None => seq![],
        }),
        None => seq!["cmdline: (unknown — entry came from "@ + e.source.name() + " scan)"@],
    };
    let wrapped = match compression {
        Some(w) => seq![
            "compression: "@ + w.name() + " (extract with --decompress for direct-kernel boot)"@,
        ],
        None => seq![],
    };
    seq!["kernel:  "@ + uri_of(part, e.kernel->0)] + uri_lines("initrd:  "@, part, e.initrd)
        + cmdline + wrapped + seq!["source:  "@ + e.source.name()]
}

/// What the bootloader would boot, as lines.
pub fn boot_info_lines(
    part: usize,
    entry: &BootEntry,
    fixed: Option<&str>,
    compression: &Option<Compression>,
) -> (r: core::result::Result<Vec<String>, String>)
    ensures
        if entry@.kernel is None {
            r matches Err(e) && e@ == "default entry has no kernel path"@
        } else {
            r matches Ok(v) && views(v@) == boot_info_text(
                part as nat,
                entry@,
                opt_str(fixed),
                crate::kernel::wrapper(*compression),
            )
        },
{
    let mut out: Vec<String> = Vec::new();
    assert(views(out@) =~= Seq::<Seq<char>>::empty());
    match &entry.kernel {
        None => {
            return Err("default entry has no kernel path".to_owned());
        },
        Some(kernel) => {
            let u = uri(part, kernel.as_str());
            push_line(&mut out, "kernel:  ", u.as_str());
        },
    }
    push_uris(&mut out, "initrd:  ", part, &entry.initrd);
    match &entry.cmdline {
        Some(cmdline) => {
            push_line(&mut out, "cmdline: ", cmdline.as_str());
            if let Some(f) = fixed {
                push_line(&mut out, "vdafix:  ", f);
            }
        },
        None => {
            let mut line: String = "cmdline: (unknown — entry came from ".to_owned();
            line.append(entry.source.label());
            push_line(&mut out, line.as_str(), " scan)");
        },
    }
    if let Some(c) = compression {
        let mut line: String = "compression: ".to_owned();
        line.append(c.label().as_str());
        push_line(
            &mut out,
            line.as_str(),
            " (extract with --decompress for direct-kernel boot)",
        );
    }
    push_line(&mut out, "source:  ", entry.source.label());
    assert(views(out@) =~= boot_info_text(
        part as nat,
        entry@,
        opt_str(fixed),
        crate::kernel::wrapper(*compression),
    ));
    Ok(out)
}

/// The line above an extraction.
pub fn extract_line(part: usize, fs_type: &str, i: usize, entry: &BootEntry) -> (r: String)
    requires
        i < usize::MAX,
    ensures
        r@ == "partition "@ + dec(part as nat) + " ("@ + fs_type@ + "), entry "@ + dec(
            (i + 1) as nat,
        ) + " ("@ + entry@.source.name() + "):"@,
{
    let mut out: String = "partition ".to_owned();
    push_dec(&mut out, part as u64);
    out.append(" (");
    out.append(fs_type);
    out.append("), entry ");
    push_dec(&mut out, (i + 1) as u64);
    out.append(" (");
    out.append(entry.source.label());
    out.append("):");
    out
}

// ---------------------------------------------------------------------
// Partitions
// ---------------------------------------------------------------------

/// A text, or what stands in its place.
pub open spec fn or_text(s: Option<Seq<char>>, otherwise: Seq<char>) -> Seq<char> {
    match s {
        Some(s) => s,
        None => otherwise,
    }
}

/// A partition with its size and its filesystem, as a line in columns.
pub fn info_line(p: &Partition, size: &str, fs: Option<&str>) -> (r: String)
    ensures
        r@ == "  "@ + right(dec(p@.index as nat), 3) + "  "@ + right(size@, 10) + "  "@ + left(
            p@.kind,
            22,
        ) + " "@ + left(or_text(opt_str(fs), "-"@), 10) + " "@ + left(
            or_text(p@.part_uuid, "-"@),
            38,
        ) + " "@ + or_text(p@.name, ""@),
{
    let mut out: String = "  ".to_owned();
    push_right(&mut out, number(p.index as u64).as_str(), 3);
    out.append("  ");
    push_right(&mut out, size, 10);
    out.append("  ");
    push_left(&mut out, p.kind.as_str(), 22);
    out.append(" ");
    match fs {
        Some(f) => {
            push_left(&mut out, f, 10);
        },
        None => {
            push_left(&mut out, "-", 10);
        },
    }
    out.append(" ");
    match &p.part_uuid {
        Some(u) => {
            push_left(&mut out, u.as_str(), 38);
        },
        None => {
            push_left(&mut out, "-", 38);
        },
    }
    out.append(" ");
    match &p.name {
        Some(n) => {
            out.append(n.as_str());
        },
        None => {
            out.append("");
        },
    }
    out
}

/// A partition with its size, filesystem and label, as a line; the current one
/// is marked.
pub fn part_line(
    p: &Partition,
    is_current: bool,
    size: &str,
    fs_type: &str,
    label: &Option<String>,
) -> (r: String)
    ensures
        r@ == (if is_current {
            "* p"@
        } else {
            "  p"@
        }) + dec(p@.index as nat) + "  "@ + right(size@, 10) + "  "@ + left(fs_type@, 8) + " "@
            + p@.kind + (match opt(*label) {
            Some(l) => " label="@ + l,
            None => seq![],
        }),
{
    let mut out: String = (if is_current {
        "* p"
    } else {
        "  p"
    }).to_owned();
    push_dec(&mut out, p.index as u64);
    out.append("  ");
    push_right(&mut out, size, 10);
    out.append("  ");
    push_left(&mut out, fs_type, 8);
    out.append(" ");
    out.append(p.kind.as_str());
    let ghost head = out@;
    match label {
        Some(l) => {
            out.append(" label=");
            out.append(l.as_str());
            assert(out@ =~= head + (" label="@ + l@));
        },
        None => {
            assert(out@ =~= head + Seq::<char>::empty());
        },
    }
    out
}

/// The line above a directory.
pub fn directory_line(part: usize, fs_type: &str, path: &str) -> (r: String)
    ensures
        r@ == "# partition "@ + dec(part as nat) + " ("@ + fs_type@ + "):"@ + path@,
{
    let mut out: String = "# partition ".to_owned();
    push_dec(&mut out, part as u64);
    out.append(" (");
    out.append(fs_type);
    out.append("):");
    out.append(path);
    out
}

} // verus!
