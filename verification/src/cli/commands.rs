//! The commands that look at what an image boots.

use crate::boot::{scan, scan_of, BootScan, ScanView};
use crate::cli::json::{
    boot_info_json, compression_of, entry_json, facts_of, json_array, json_boot_info, json_entry,
    kernel_compression,
};
use crate::cli::listing::{listing, listing_lines};
use crate::cli::report::{
    block_lines, boot_info_lines, boot_info_text, directory_line, entry_block, entry_lines,
    entry_text, extract_line, partition_line, push_lines, push_uris, uri_lines,
};
use crate::cli::select::{
    all_stable, best, best_boot_scan, choose_entry, chosen_cmdline, fixed_cmdline, list_by_uri,
    listing_views, listings_from, rewrite_of, scans,
};
use crate::error::{Error, Result};
use crate::fsys::{DirEntryView, FileSystem};
use crate::kernel::{to_bootable, unwrapped};
use crate::part::{Partition, PartitionTable, PartitionView};
use crate::seqs::{or, views};
use crate::text::number::dec;
use crate::text::split::join;
use crate::text::opt;
use vstd::prelude::*;
use vstd::string::*;

verus! {

broadcast use vstd::seq_lib::group_seq_properties;

// ---------------------------------------------------------------------
// All entries
// ---------------------------------------------------------------------

/// The first `n` entries of a filesystem on partition `part`, as lines.
pub open spec fn blocks<F: FileSystem>(
    part: nat,
    fs: F,
    table: Seq<PartitionView>,
    n: nat,
) -> Seq<Seq<char>>
    decreases n,
{
    if n == 0 {
        seq![]
    } else {
        let i = (n - 1) as nat;
        let s = scan_of(&fs);
        let e = s.entries[i as int];
        blocks(part, fs, table, i) + entry_block(
            part,
            i,
            s.default == Some(i as int),
            e,
            rewrite_of(e.cmdline, table),
            compression_of(&fs, e),
            None,
        )
    }
}

/// What a partition boots, as lines.
pub open spec fn partition_text<F: FileSystem>(
    p: Partition,
    fs: F,
    table: Seq<PartitionView>,
) -> Seq<Seq<char>> {
    let part = p.index as nat;
    let n = scan_of(&fs).entries.len();
    if n == 0 {
        seq![]
    } else {
        seq!["partition "@ + dec(part) + " ("@ + fs.fs_name() + "):"@] + blocks(part, fs, table, n)
    }
}

/// What the first `n` partitions boot, as lines.
pub open spec fn entries_text<F: FileSystem>(
    fss: Seq<(Partition, F)>,
    table: Seq<PartitionView>,
    n: nat,
) -> Seq<Seq<char>>
    decreases n,
{
    if n == 0 {
        seq![]
    } else {
        let i = (n - 1) as nat;
        entries_text(fss, table, i) + partition_text(fss[i as int].0, fss[i as int].1, table)
    }
}

/// What a partition boots, as lines.
fn partition_lines<F: FileSystem>(p: &Partition, fs: &F, table: &PartitionTable) -> (r: Vec<String>)
    ensures
        fs.stable() ==> views(r@) == partition_text(*p, *fs, table@.partitions),
{
    let mut out: Vec<String> = Vec::new();
    assert(views(out@) =~= Seq::<Seq<char>>::empty());
    let s = match scan(fs) {
        Ok(s) => s,
        Err(_) => {
            return out;
        },
    };
    assert(s@.entries.len() == s.entries@.len());
    if s.entries.len() == 0 {
        return out;
    }
    let head = partition_line(p.index, fs.fs_type());
    let ghost h = head@;
    out.push(head);
    assert(views(out@) =~= seq![h]);
    let mut i: usize = 0;
    assert(views(out@) =~= seq![h] + blocks(p.index as nat, *fs, table@.partitions, 0));
    while i < s.entries.len()
        invariant
            i <= s.entries@.len() <= usize::MAX,
            fs.stable() ==> {
                &&& s@ == scan_of(fs)
                &&& views(out@) == seq![h] + blocks(
                    p.index as nat,
                    *fs,
                    table@.partitions,
                    i as nat,
                )
            },
        decreases s.entries@.len() - i,
    {
        let e = &s.entries[i];
        assert(s@.entries[i as int] == e@);
        let fixed = fixed_cmdline(e, table);
        let compression = kernel_compression(fs, e);
        let is_default: bool = match s.default {
            Some(d) => d == i,
            None => false,
        };
        let fixed_str: Option<&str> = match &fixed {
            Some(f) => Some(f.as_str()),
            None => None,
        };
        let block = block_lines(p.index, i, is_default, e, fixed_str, &compression, None);
        let ghost before = views(out@);
        let ghost b = views(block@);
        push_lines(&mut out, block);
        proof {
            if fs.stable() {
                assert((seq![h] + blocks(p.index as nat, *fs, table@.partitions, i as nat)) + b
                    =~= seq![h] + (blocks(p.index as nat, *fs, table@.partitions, i as nat) + b));
            }
        }
        i = i + 1;
    }
    out
}

/// All boot entries, partition by partition, as lines. Whether a kernel can
/// do virtio in a protected VM is taken as unknown.
pub fn entries_report<F: FileSystem>(fss: &Vec<(Partition, F)>, table: &PartitionTable) -> (r:
    core::result::Result<Vec<String>, String>)
    ensures
        match r {
            Ok(v) => v@.len() > 0,
            Err(e) => e@ == "no boot entries found in any partition"@,
        },
        fss@.len() == 0 ==> r is Err,
        all_stable(fss@) ==> ({
            let all = entries_text(fss@, table@.partitions, fss@.len());
            if all.len() > 0 {
                r matches Ok(v) && views(v@) == all
            } else {
                r is Err
            }
        }),
{
    let mut out: Vec<String> = Vec::new();
    let mut i: usize = 0;
    assert(views(out@) =~= Seq::<Seq<char>>::empty());
    while i < fss.len()
        invariant
            i <= fss@.len(),
            fss@.len() == 0 ==> out@.len() == 0,
            all_stable(fss@) ==> views(out@) == entries_text(
                fss@,
                table@.partitions,
                i as nat,
            ),
        decreases fss@.len() - i,
    {
        assert(all_stable(fss@) ==> fss@[i as int].1.stable());
        push_lines(&mut out, partition_lines(&fss[i].0, &fss[i].1, table));
        i = i + 1;
    }
    assert(views(out@).len() == out@.len());
    if out.len() == 0 {
        return Err("no boot entries found in any partition".to_owned());
    }
    Ok(out)
}

/// The first `n` entries of a filesystem on partition `part`, as JSON objects.
pub open spec fn objects<F: FileSystem>(
    part: nat,
    fs: F,
    table: Seq<PartitionView>,
    n: nat,
) -> Seq<Seq<char>>
    decreases n,
{
    if n == 0 {
        seq![]
    } else {
        let i = (n - 1) as nat;
        let s = scan_of(&fs);
        let e = s.entries[i as int];
        objects(part, fs, table, i).push(
            json_entry(
                part,
                s.default == Some(i as int),
                e,
                rewrite_of(e.cmdline, table),
                facts_of(&fs, e, None),
            ),
        )
    }
}

/// The entries of the first `n` partitions, as JSON objects.
pub open spec fn all_objects<F: FileSystem>(
    fss: Seq<(Partition, F)>,
    table: Seq<PartitionView>,
    n: nat,
) -> Seq<Seq<char>>
    decreases n,
{
    if n == 0 {
        seq![]
    } else {
        let (p, fs) = fss[n - 1];
        all_objects(fss, table, (n - 1) as nat) + objects(
            p.index as nat,
            fs,
            table,
            scan_of(&fs).entries.len(),
        )
    }
}

/// The entries of a filesystem, as JSON objects.
fn partition_objects<F: FileSystem>(p: &Partition, fs: &F, table: &PartitionTable) -> (r: Vec<
    String,
>)
    ensures
        fs.stable() ==> views(r@) == objects(
            p.index as nat,
            *fs,
            table@.partitions,
            scan_of(fs).entries.len(),
        ),
{
    let mut out: Vec<String> = Vec::new();
    assert(views(out@) =~= Seq::<Seq<char>>::empty());
    let s = match scan(fs) {
        Ok(s) => s,
        Err(_) => {
            return out;
        },
    };
    assert(s@.entries.len() == s.entries@.len());
    let mut i: usize = 0;
    while i < s.entries.len()
        invariant
            i <= s.entries@.len(),
            fs.stable() ==> {
                &&& s@ == scan_of(fs)
                &&& views(out@) == objects(p.index as nat, *fs, table@.partitions, i as nat)
            },
        decreases s.entries@.len() - i,
    {
        let e = &s.entries[i];
        assert(s@.entries[i as int] == e@);
        let fixed = fixed_cmdline(e, table);
        let is_default: bool = match s.default {
            Some(d) => d == i,
            None => false,
        };
        let fixed_str: Option<&str> = match &fixed {
            Some(f) => Some(f.as_str()),
            None => None,
        };
        let ghost before = out@;
        let item = entry_json(p.index, is_default, e, fixed_str, fs, None);
        let ghost iv = item@;
        out.push(item);
        assert(views(out@) =~= views(before).push(iv));
        i = i + 1;
    }
    out
}

/// All boot entries as a JSON array. Whether a kernel can do virtio in a
/// protected VM is taken as unknown.
pub fn entries_json<F: FileSystem>(fss: &Vec<(Partition, F)>, table: &PartitionTable) -> (r: String)
    ensures
        all_stable(fss@) ==> r@ == "["@ + join(
            all_objects(fss@, table@.partitions, fss@.len()),
            ","@,
        ) + "]"@,
        exists|items: Seq<Seq<char>>| r@ == "["@ + (#[trigger] join(items, ","@)) + "]"@,
{
    let mut out: Vec<String> = Vec::new();
    let mut i: usize = 0;
    assert(views(out@) =~= Seq::<Seq<char>>::empty());
    while i < fss.len()
        invariant
            i <= fss@.len(),
            all_stable(fss@) ==> views(out@) == all_objects(fss@, table@.partitions, i as nat),
        decreases fss@.len() - i,
    {
        assert(all_stable(fss@) ==> fss@[i as int].1.stable());
        push_lines(&mut out, partition_objects(&fss[i].0, &fss[i].1, table));
        i = i + 1;
    }
    json_array(&out)
}

// ---------------------------------------------------------------------
// What boots
// ---------------------------------------------------------------------

/// What is said of an image that boots nothing.
pub open spec fn nothing_boots() -> Seq<char> {
    crate::error::ErrorView::NoBootArtifacts.message()
}

/// The entry that the bootloader would pick, as lines or as JSON; or what is
/// wrong.
pub open spec fn boot_report<F: FileSystem>(
    fss: Seq<(Partition, F)>,
    table: Seq<PartitionView>,
    json: bool,
) -> core::result::Result<Seq<Seq<char>>, Seq<char>> {
    match best(scans(fss)) {
        None => Err(nothing_boots()),
        Some(i) => {
            let (p, fs) = fss[i];
            let part = p.index as nat;
            let s = scan_of(&fs);
            let e = s.default_entry()->0;
            let fixed = rewrite_of(e.cmdline, table);
            if json {
                Ok(
                    seq![
                        json_boot_info(
                            json_entry(part, true, e, fixed, facts_of(&fs, e, None)),
                            part,
                            s.configs,
                        ),
                    ],
                )
            } else if e.kernel is None {
                Err("default entry has no kernel path"@)
            } else {
                Ok(boot_info_text(part, e, fixed, compression_of(&fs, e)))
            }
        },
    }
}

/// The entry that the bootloader would pick, as lines or as JSON. Whether its
/// kernel can do virtio in a protected VM is taken as unknown.
pub fn boot_info<F: FileSystem>(fss: &Vec<(Partition, F)>, table: &PartitionTable, json: bool) -> (r:
    core::result::Result<Vec<String>, String>)
    ensures
        all_stable(fss@) ==> match boot_report(fss@, table@.partitions, json) {
            Ok(l) => r matches Ok(v) && views(v@) == l,
            Err(e) => r matches Err(x) && x@ == e,
        },
        match r {
            Ok(v) => fss@.len() > 0 && (json ==> v@.len() == 1),
            Err(e) => e@ == nothing_boots() || (!json && e@ == "default entry has no kernel path"@),
        },
{
    let found = match best_boot_scan(fss) {
        Ok(f) => f,
        Err(e) => {
            return Err(e.message());
        },
    };
    let (i, s) = match found {
        Some(x) => x,
        None => {
            return Err(Error::NoBootArtifacts.message());
        },
    };
    assert(all_stable(fss@) ==> fss@[i as int].1.stable());
    assert(s@.entries.len() == s.entries@.len());
    let p = &fss[i].0;
    let fs = &fss[i].1;
    let at: usize = match s.default {
        Some(d) => d,
        None => 0,
    };
    let e = &s.entries[at];
    assert(s@.entries[at as int] == e@);
    let fixed = fixed_cmdline(e, table);
    let fixed_str: Option<&str> = match &fixed {
        Some(f) => Some(f.as_str()),
        None => None,
    };
    if json {
        let mut out: Vec<String> = Vec::new();
        let item = boot_info_json(p.index, e, fixed_str, &s.configs, fs, None);
        let ghost iv = item@;
        out.push(item);
        assert(views(out@) =~= seq![iv]);
        return Ok(out);
    }
    let compression = kernel_compression(fs, e);
    boot_info_lines(p.index, e, fixed_str, &compression)
}

// ---------------------------------------------------------------------
// Extracting
// ---------------------------------------------------------------------

/// What an extraction does.
pub struct Extraction {
    /// Which entry it takes.
    pub index: usize,
    /// What it reports first.
    pub lines: Vec<String>,
    /// The kernel. It may be wrapped; only it gets unwrapped (the initrd must
    /// stay compressed - the guest kernel unpacks it itself).
    pub kernel: String,
    /// The files that are copied as they are: initrds, and then configs.
    pub copies: Vec<String>,
    /// The command line to write out.
    pub cmdline: Option<String>,
}

/// What an [`Extraction`] says.
#[verifier::ext_equal]
pub struct ExtractionView {
    pub index: int,
    pub lines: Seq<Seq<char>>,
    pub kernel: Seq<char>,
    pub copies: Seq<Seq<char>>,
    pub cmdline: Option<Seq<char>>,
}

impl View for Extraction {
    type V = ExtractionView;

    open spec fn view(&self) -> ExtractionView {
        ExtractionView {
            index: self.index as int,
            lines: views(self.lines@),
            kernel: self.kernel@,
            copies: views(self.copies@),
            cmdline: opt(self.cmdline),
        }
    }
}

/// What extracting the entry `i` of a scan does, if it has a kernel.
pub open spec fn extraction_of(
    part: nat,
    fs_name: Seq<char>,
    s: ScanView,
    i: int,
    vdafix: bool,
    table: Seq<PartitionView>,
) -> Option<ExtractionView> {
    let e = s.entries[i];
    let fixed = rewrite_of(e.cmdline, table);
    match e.kernel {
        None => None,
        Some(kernel) => Some(
            ExtractionView {
                index: i,
                lines: seq![
                    "partition "@ + dec(part) + " ("@ + fs_name + "), entry "@ + dec((i + 1) as nat)
                        + " ("@ + e.source.name() + "):"@,
                ] + entry_text(part, e, fixed) + uri_lines("      config:  "@, part, s.configs),
                kernel,
                copies: e.initrd + s.configs,
                cmdline: if vdafix {
                    or(fixed, e.cmdline)
                } else {
                    e.cmdline
                },
            },
        ),
    }
}

/// Add copies of texts.
fn push_copies(out: &mut Vec<String>, more: &Vec<String>)
    ensures
        views(final(out)@) == views(old(out)@) + views(more@),
{
    let ghost before = views(out@);
    let mut i: usize = 0;
    assert(views(out@) =~= before + views(more@).take(0));
    while i < more.len()
        invariant
            i <= more@.len(),
            views(out@) == before + views(more@).take(i as int),
        decreases more@.len() - i,
    {
        let ghost held = out@;
        out.push(more[i].clone());
        proof {
            assert(views(out@) =~= views(held).push(more@[i as int]@));
            assert(views(more@).take(i + 1) =~= views(more@).take(i as int).push(
                more@[i as int]@,
            ));
            assert(views(out@) =~= before + views(more@).take(i + 1));
        }
        i = i + 1;
    }
    assert(views(more@).take(i as int) =~= views(more@));
}

/// Plan an extraction: of the entry that was asked for, as numbered from 1,
/// else of the one that the bootloader would pick.
pub fn plan_extraction(
    part: usize,
    fs_type: &str,
    scan: &BootScan,
    number: Option<usize>,
    vdafix: bool,
    table: &PartitionTable,
) -> (r: core::result::Result<Extraction, String>)
    requires
        scan@.default_entry() is Some,
    ensures
        ({
            let i = match number {
                Some(n) => n - 1,
                None => match scan@.default {
                    Some(d) => d,
                    None => 0,
                },
            };
            if !(0 <= i < scan@.entries.len()) {
                r matches Err(e) && e@ == "entry "@ + dec(number->0 as nat)
                    + " out of range (1..="@ + dec(scan@.entries.len()) + ")"@
            } else {
                match extraction_of(part as nat, fs_type@, scan@, i, vdafix, table@.partitions) {
                    Some(x) => r matches Ok(v) && v@ == x,
                    None => r matches Err(e) && e@ == "selected entry has no kernel path"@,
                }
            }
        }),
{
    assert(scan@.entries.len() == scan.entries@.len());
    let index: usize = match choose_entry(scan, number) {
        Ok(i) => i,
        Err(e) => {
            return Err(e);
        },
    };
    let total: usize = scan.entries.len();
    assert(index < total);
    let entry = &scan.entries[index];
    assert(scan@.entries[index as int] == entry@);
    let kernel: String = match &entry.kernel {
        Some(k) => k.clone(),
        None => {
            return Err("selected entry has no kernel path".to_owned());
        },
    };
    let fixed = fixed_cmdline(entry, table);
    let fixed_str: Option<&str> = match &fixed {
        Some(f) => Some(f.as_str()),
        None => None,
    };
    let mut lines: Vec<String> = Vec::new();
    let head = extract_line(part, fs_type, index, entry);
    let ghost h = head@;
    lines.push(head);
    assert(views(lines@) =~= seq![h]);
    push_lines(&mut lines, entry_lines(part, entry, fixed_str));
    push_uris(&mut lines, "      config:  ", part, &scan.configs);
    let mut copies: Vec<String> = Vec::new();
    assert(views(copies@) =~= Seq::<Seq<char>>::empty());
    push_copies(&mut copies, &entry.initrd);
    push_copies(&mut copies, &scan.configs);
    assert(views(copies@) =~= entry@.initrd + scan@.configs);
    let cmdline = chosen_cmdline(vdafix, &fixed, entry);
    Ok(Extraction { index, lines, kernel, copies, cmdline })
}

/// The data to write out for a file: as it is, or unwrapped to what a VMM can
/// direct-boot.
pub fn output_data(data: Vec<u8>, decompress: bool) -> (r: Result<Vec<u8>>)
    ensures
        if decompress {
            match unwrapped(data@, 0) {
                Ok(d) => r matches Ok(v) && v@ == d,
                Err(e) => r matches Err(x) && x@ == e,
            }
        } else {
            r matches Ok(v) && v@ == data@
        },
{
    if decompress {
        to_bootable(data)
    } else {
        Ok(data)
    }
}

// ---------------------------------------------------------------------
// Listing
// ---------------------------------------------------------------------

/// The first `n` of these directories as lines, each under its heading.
pub open spec fn ls_text<F: FileSystem>(
    fss: Seq<(Partition, F)>,
    path: Seq<char>,
    lists: Seq<(int, Seq<DirEntryView>)>,
    n: nat,
) -> Seq<Seq<char>>
    decreases n,
{
    if n == 0 {
        seq![]
    } else {
        let (i, l) = lists[n - 1];
        ls_text(fss, path, lists, (n - 1) as nat).push(
            "# partition "@ + dec(fss[i].0.index as nat) + " ("@ + fss[i].1.fs_name() + "):"@
                + path,
        ) + listing_lines(l)
    }
}

/// The directory at `path` on the filesystems that have it, as lines. Without
/// an explicit partition, only the first match.
pub fn ls<F: FileSystem>(fss: &Vec<(Partition, F)>, path: &str, part: Option<usize>) -> (r: Vec<
    String,
>)
    ensures
        all_stable(fss@) ==> ({
            let lists = listings_from(fss@, 0, path@, part is None);
            views(r@) == ls_text(fss@, path@, lists, lists.len())
        }),
        fss@.len() == 0 ==> r@.len() == 0,
{
    let found = list_by_uri(fss, path, part);
    let ghost lists = listing_views(found@);
    let ghost total = found@.len();
    let mut rest = found;
    let ghost mut k: int = 0;
    let mut out: Vec<String> = Vec::new();
    assert(views(out@) =~= Seq::<Seq<char>>::empty());
    assert(lists.skip(0) =~= lists);
    while rest.len() > 0
        invariant
            0 <= k <= lists.len(),
            listing_views(rest@) == lists.skip(k),
            forall|j: int| 0 <= j < rest@.len() ==> (#[trigger] rest@[j]).0 < fss@.len(),
            all_stable(fss@) ==> views(out@) == ls_text(fss@, path@, lists, k as nat),
        decreases rest@.len(),
    {
        let ghost held = rest@;
        assert(listing_views(held).len() == held.len());
        assert(held[0].0 < fss@.len());
        let (i, entries) = rest.remove(0);
        assert(listing_views(held)[0] == lists[k]);
        assert(all_stable(fss@) ==> fss@[i as int].1.stable());
        let head = directory_line(fss[i].0.index, fss[i].1.fs_type(), path);
        let ghost before = out@;
        let ghost h = head@;
        out.push(head);
        assert(views(out@) =~= views(before).push(h));
        push_lines(&mut out, listing(entries));
        proof {
            assert(listing_views(rest@) =~= lists.skip(k + 1));
            assert forall|j: int| 0 <= j < rest@.len() implies (#[trigger] rest@[j]).0
                < fss@.len() by {
                assert(rest@[j] == held[j + 1]);
            }
            k = k + 1;
        }
    }
    assert(listing_views(rest@).len() == rest@.len());
    out
}

} // verus!
