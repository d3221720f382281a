//! Which partitions, entries and files a command is about.

use crate::boot::{scan, scan_of, BootEntry, BootScan, ScanView, Source};
use crate::error::{Error, Result};
use crate::fsys::{may_list, may_read, DirEntry, DirEntryView, FileSystem};
use crate::guest::uri_of;
use crate::part::{Partition, PartitionTable, PartitionView};
use crate::seqs::{index, lemma_position, or, position, views};
use crate::text::number::{dec, parse_unsigned, parse_usize, push_dec};
use crate::text::split::{
    after_last, after_prefix, begins, cut, split_once, starts_char, strip_prefix, tail_after,
};
use crate::text::{chars, opt, opt_copy, push_chars, string};
use crate::vdafix::{fix_cmdline, fixed, needs_fix};
use vstd::prelude::*;
use vstd::string::*;

verus! {

broadcast use vstd::seq_lib::group_seq_properties;

// ---------------------------------------------------------------------
// URIs
// ---------------------------------------------------------------------

/// The partition and the path that `s` names: `pN:/path`, or a bare path.
pub open spec fn uri_target(s: Seq<char>) -> (Option<int>, Seq<char>) {
    match strip_prefix(s, "p"@) {
        None => (None, s),
        Some(rest) => match split_once(rest, ':') {
            None => (None, s),
            Some((num, path)) => match parse_unsigned(num, 10, usize::MAX as int) {
                None => (None, s),
                Some(n) => (
                    Some(n),
                    if starts_char(path, '/') {
                        path
                    } else {
                        "/"@ + path
                    },
                ),
            },
        },
    }
}

/// Split a `pN:/path` URI into partition index and path.
/// Bare paths come back with `None` (= search all partitions).
pub fn parse_uri(s: &str) -> (r: (Option<usize>, String))
    ensures
        (index(r.0), r.1@) == uri_target(s@),
{
    let c = chars(s);
    if let Some(rest) = after_prefix(c.as_slice(), "p") {
        if let Some((num, path)) = cut(rest, ':') {
            if let Some(n) = parse_usize(num) {
                let mut full: String = String::new();
                if !begins(path, '/') {
                    full.append("/");
                }
                push_chars(&mut full, path);
                assert(full@ =~= uri_target(s@).1);
                return (Some(n), full);
            }
        }
    }
    (None, s.to_owned())
}

/// Parsing a URI gives back the partition and the absolute path that it was
/// made of.
pub proof fn law_uri_names_its_parts(part: nat, path: Seq<char>)
    requires
        part <= usize::MAX,
        starts_char(path, '/'),
    ensures
        uri_target(uri_of(part, path)) == (Some(part as int), path),
{
    crate::guest::lemma_uri_splits(part, path);
}

/// A path that does not start like a URI names no partition, and is itself.
pub proof fn law_absolute_paths_are_bare(path: Seq<char>)
    requires
        starts_char(path, '/'),
    ensures
        uri_target(path) == (None::<int>, path),
{
    reveal_strlit("p");
    assert(path[0] == '/');
    if crate::text::split::starts_with(path, "p"@) {
        assert(path.take(1)[0] == 'p');
    }
}

/// The partition a command is about: the one its URI names, else the one its
/// option names.
pub fn choose_part(in_uri: Option<usize>, option: Option<usize>) -> (r: Option<usize>)
    ensures
        r == or(in_uri, option),
{
    match in_uri {
        Some(_) => in_uri,
        None => option,
    }
}

// ---------------------------------------------------------------------
// Filesystems
// ---------------------------------------------------------------------

/// A partition is worth opening: it is the one that was asked for, or, where
/// none was, one that may hold boot files.
pub open spec fn is_wanted(p: PartitionView, only: Option<usize>) -> bool {
    match only {
        Some(n) => p.index == n,
        None => p.probe_worthy,
    }
}

/// Whether a partition is worth opening.
pub fn wanted(p: &Partition, only: Option<usize>) -> (r: bool)
    ensures
        r == is_wanted(p@, only),
{
    match only {
        Some(n) => p.index == n,
        None => p.probe_worthy,
    }
}

/// Take what opening a wanted partition led to. A partition that cannot be
/// read is passed over, unless it is the one that was asked for.
pub fn keep<F>(
    found: &mut Vec<(Partition, F)>,
    only: Option<usize>,
    p: Partition,
    opened: Result<F>,
) -> (r: Result<()>)
    ensures
        match opened {
            Ok(fs) => r is Ok && final(found)@ == old(found)@.push((p, fs)),
            Err(e) => final(found)@ == old(found)@ && match only {
                Some(_) => r == Err::<(), Error>(e),
                None => r is Ok,
            },
        },
{
    match opened {
        Ok(fs) => {
            found.push((p, fs));
            Ok(())
        },
        Err(e) => match only {
            Some(_) => Err(e),
            None => Ok(()),
        },
    }
}

/// ` on partition N`, where one was asked for.
pub open spec fn on_partition(only: Option<usize>) -> Seq<char> {
    match only {
        Some(n) => " on partition "@ + dec(n as nat),
        None => seq![],
    }
}

fn push_on_partition(out: &mut String, n: usize)
    ensures
        final(out)@ == old(out)@ + on_partition(Some(n)),
{
    let ghost before = out@;
    out.append(" on partition ");
    push_dec(out, n as u64);
    assert(out@ =~= before + on_partition(Some(n)));
}

/// Whether anything could be opened.
pub fn check_found(count: usize, only: Option<usize>) -> (r: core::result::Result<(), String>)
    ensures
        if count > 0 {
            r is Ok
        } else {
            r matches Err(e) && e@ == "no readable filesystem found"@ + on_partition(only)
        },
{
    if count > 0 {
        return Ok(());
    }
    let mut msg: String = "no readable filesystem found".to_owned();
    match only {
        Some(n) => {
            push_on_partition(&mut msg, n);
        },
        None => {
            assert(msg@ =~= "no readable filesystem found"@ + on_partition(only));
        },
    }
    Err(msg)
}

/// Every filesystem answers from what it holds.
pub open spec fn all_stable<F: FileSystem>(fss: Seq<(Partition, F)>) -> bool {
    forall|i: int| 0 <= i < fss.len() ==> (#[trigger] fss[i]).1.stable()
}

// ---------------------------------------------------------------------
// Where to boot from
// ---------------------------------------------------------------------

/// Some entry comes from a config.
pub open spec fn has_config() -> spec_fn(ScanView) -> bool {
    |s: ScanView| exists|i: int|
        0 <= i < s.entries.len() && (#[trigger] s.entries[i]).source != Source::Fallback
}

/// There is an entry.
pub open spec fn has_entry() -> spec_fn(ScanView) -> bool {
    |s: ScanView| s.entries.len() > 0
}

/// What the partitions boot.
pub open spec fn scans<F: FileSystem>(fss: Seq<(Partition, F)>) -> Seq<ScanView> {
    Seq::new(fss.len(), |i: int| scan_of(&fss[i].1))
}

/// The partition whose boot entries we trust most: the first with entries from
/// a config (they carry the cmdline), else the first with entries.
pub open spec fn best(scans: Seq<ScanView>) -> Option<int> {
    or(position(scans, has_config()), position(scans, has_entry()))
}

/// Whether some entry comes from a config.
fn from_config(s: &BootScan) -> (r: bool)
    ensures
        r == has_config()(s@),
{
    let mut i: usize = 0;
    while i < s.entries.len()
        invariant
            i <= s.entries@.len(),
            forall|j: int|
                0 <= j < i ==> (#[trigger] s@.entries[j]).source == Source::Fallback,
        decreases s.entries@.len() - i,
    {
        assert(s@.entries[i as int] == s.entries@[i as int]@);
        match s.entries[i].source {
            Source::Fallback => {},
            _ => {
                assert(s@.entries[i as int].source != Source::Fallback);
                return true;
            },
        }
        i = i + 1;
    }
    false
}

/// `at` is the best among the first `n` scans.
#[verifier::opaque]
spec fn best_so_far(scans: Seq<ScanView>, n: int, at: Option<int>) -> bool {
    match at {
        None => forall|j: int| 0 <= j < n ==> !has_entry()(#[trigger] scans[j]),
        Some(i) => {
            &&& 0 <= i < n
            &&& has_entry()(scans[i])
            &&& if has_config()(scans[i]) {
                forall|j: int| 0 <= j < i ==> !has_config()(#[trigger] scans[j])
            } else {
                &&& forall|j: int| 0 <= j < n ==> !has_config()(#[trigger] scans[j])
                &&& forall|j: int| 0 <= j < i ==> !has_entry()(#[trigger] scans[j])
            }
        },
    }
}

/// The better of `at` and `n`.
spec fn better_of(scans: Seq<ScanView>, n: int, at: Option<int>) -> Option<int> {
    if !has_entry()(scans[n]) {
        at
    } else {
        match at {
            None => Some(n),
            Some(i) => if has_config()(scans[n]) && !has_config()(scans[i]) {
                Some(n)
            } else {
                at
            },
        }
    }
}

proof fn lemma_better(scans: Seq<ScanView>, n: int, at: Option<int>)
    requires
        0 <= n < scans.len(),
        best_so_far(scans, n, at),
    ensures
        best_so_far(scans, n + 1, better_of(scans, n, at)),
{
    reveal(best_so_far);
    if has_config()(scans[n]) {
        assert(has_entry()(scans[n]));
    }
    if at is None {
        assert forall|j: int| 0 <= j < n implies !has_config()(#[trigger] scans[j]) by {
            assert(!has_entry()(scans[j]));
        }
    }
}

/// The position in what was found.
spec fn place(found: Option<(usize, BootScan)>) -> Option<int> {
    match found {
        Some((k, _)) => Some(k as int),
        None => None,
    }
}

proof fn lemma_best(scans: Seq<ScanView>, at: Option<int>)
    requires
        best_so_far(scans, scans.len() as int, at),
    ensures
        best(scans) == at,
{
    reveal(best_so_far);
    lemma_position(scans, has_config());
    lemma_position(scans, has_entry());
    if at is None && position(scans, has_config()) is Some {
        let i = position(scans, has_config())->0;
        assert(has_entry()(scans[i]));
    }
}

/// The partition whose boot entries we trust most, as an index, and what it
/// boots: config-derived entries (they carry the cmdline) beat fallback
/// directory scans.
pub fn best_boot_scan<F: FileSystem>(fss: &Vec<(Partition, F)>) -> (r: Result<
    Option<(usize, BootScan)>,
>)
    ensures
        r is Ok,
        r->Ok_0 matches Some((i, s)) ==> {
            &&& i < fss@.len()
            &&& s.entries@.len() > 0
            &&& s.default matches Some(d) && d < s.entries@.len()
        },
        all_stable(fss@) ==> match r->Ok_0 {
            Some((i, s)) => best(scans(fss@)) == Some(i as int) && s@ == scan_of(
                &fss@[i as int].1,
            ),
            None => best(scans(fss@)) is None,
        },
{
    let mut found: Option<(usize, BootScan)> = None;
    let mut found_config: bool = false;
    let mut i: usize = 0;
    let ghost sv = scans(fss@);
    assert(best_so_far(sv, 0, place(found))) by {
        reveal(best_so_far);
    }
    while i < fss.len()
        invariant
            i <= fss@.len(),
            sv == scans(fss@),
            found matches Some((k, s)) ==> {
                &&& k < i
                &&& s.entries@.len() > 0
                &&& s.default matches Some(d) && d < s.entries@.len()
            },
            all_stable(fss@) ==> {
                &&& best_so_far(sv, i as int, place(found))
                &&& found matches Some((k, s)) ==> s@ == sv[k as int] && found_config
                    == has_config()(s@)
                &&& found is None ==> !found_config
            },
        decreases fss@.len() - i,
    {
        let s = scan(&fss[i].1)?;
        assert(all_stable(fss@) ==> s@ == sv[i as int]) by {
            if all_stable(fss@) {
                assert(fss@[i as int].1.stable());
            }
        }
        proof {
            if all_stable(fss@) {
                lemma_better(sv, i as int, place(found));
            }
        }
        assert(s@.entries.len() == s.entries@.len());
        if s.entries.len() > 0 {
            let config: bool = from_config(&s);
            let better: bool = match &found {
                None => true,
                Some(_) => config && !found_config,
            };
            if better {
                found = Some((i, s));
                found_config = config;
            }
        }
        i = i + 1;
    }
    proof {
        if all_stable(fss@) {
            lemma_best(sv, place(found));
        }
    }
    Ok(found)
}

/// A partition that boots by what a config says is preferred to one whose
/// kernels were only found, whichever comes first.
pub proof fn law_configs_are_preferred(scans: Seq<ScanView>)
    ensures
        match best(scans) {
            Some(i) => {
                &&& 0 <= i < scans.len()
                &&& scans[i].entries.len() > 0
                &&& (exists|j: int| 0 <= j < scans.len() && has_config()(#[trigger] scans[j]))
                    ==> has_config()(scans[i])
            },
            None => forall|j: int|
                0 <= j < scans.len() ==> (#[trigger] scans[j]).entries.len() == 0,
        },
{
    lemma_position(scans, has_config());
    lemma_position(scans, has_entry());
    if best(scans) is None {
        assert forall|j: int| 0 <= j < scans.len() implies (#[trigger] scans[j]).entries.len()
            == 0 by {
            assert(!has_entry()(scans[j]));
        }
    } else {
        let i = best(scans)->0;
        if has_config()(scans[i]) {
            assert(scans[i].entries.len() > 0);
        }
    }
}

/// The entry that a command is about, as an index: the one that was asked for,
/// as numbered from 1, else the one that the bootloader would pick.
pub fn choose_entry(scan: &BootScan, number: Option<usize>) -> (r: core::result::Result<
    usize,
    String,
>)
    ensures
        match number {
            Some(n) => if 1 <= n <= scan.entries@.len() {
                r matches Ok(i) && i == n - 1
            } else {
                r matches Err(e) && e@ == "entry "@ + dec(n as nat) + " out of range (1..="@ + dec(
                    scan.entries@.len(),
                ) + ")"@
            },
            None => r matches Ok(i) && i == (match scan.default {
                Some(d) => d,
                None => 0,
            }),
        },
        scan@.default_entry() is Some && r is Ok ==> r->Ok_0 < scan.entries@.len(),
{
    match number {
        Some(n) => {
            if n >= 1 && n <= scan.entries.len() {
                return Ok(n - 1);
            }
            let mut msg: String = "entry ".to_owned();
            push_dec(&mut msg, n as u64);
            msg.append(" out of range (1..=");
            push_dec(&mut msg, scan.entries.len() as u64);
            msg.append(")");
            Err(msg)
        },
        None => match scan.default {
            Some(d) => Ok(d),
            None => Ok(0),
        },
    }
}

/// The PARTUUID rewrite of a command line, when one applies.
pub open spec fn rewrite_of(cmdline: Option<Seq<char>>, parts: Seq<PartitionView>) -> Option<
    Seq<char>,
> {
    match cmdline {
        Some(c) if needs_fix(c, parts) => Some(fixed(c, parts)),
        _ => None,
    }
}

/// PARTUUID rewrite of this entry's cmdline, when one applies.
pub fn fixed_cmdline(entry: &BootEntry, table: &PartitionTable) -> (r: Option<String>)
    ensures
        opt(r) == rewrite_of(entry@.cmdline, table@.partitions),
{
    match &entry.cmdline {
        Some(c) => fix_cmdline(c.as_str(), table),
        None => None,
    }
}

/// The command line to write out: the rewritten one where that is asked for
/// and there is one, else the one of the entry.
pub fn chosen_cmdline(vdafix: bool, rewritten: &Option<String>, entry: &BootEntry) -> (r: Option<
    String,
>)
    ensures
        opt(r) == (if vdafix {
            or(opt(*rewritten), entry@.cmdline)
        } else {
            entry@.cmdline
        }),
{
    if vdafix {
        if let Some(f) = rewritten {
            return Some(f.clone());
        }
    }
    opt_copy(&entry.cmdline)
}

// ---------------------------------------------------------------------
// Files
// ---------------------------------------------------------------------

/// The file at `path` on the first filesystem that has it.
pub open spec fn file_in<F: FileSystem>(fss: Seq<(Partition, F)>, path: Seq<char>) -> Option<Seq<u8>>
    decreases fss.len(),
{
    if fss.len() == 0 {
        None
    } else {
        or(fss[0].1.file(path), file_in(fss.drop_first(), path))
    }
}

/// ` on partition N`, or that all were searched.
pub open spec fn where_searched(part: Option<usize>) -> Seq<char> {
    match part {
        Some(_) => on_partition(part),
        None => " on any readable partition"@,
    }
}

/// `fs` may answer that it cannot read the file at `path`.
pub open spec fn may_refuse<F: FileSystem>(fs: &F, path: Seq<char>) -> bool {
    exists|e: Error| #[trigger] may_read(fs, path, Err(e))
}

/// The filesystem at `i` may answer that `v` is in the file at `path`, and those
/// in front of it that they cannot read it.
pub open spec fn first_to_read<F: FileSystem>(
    fss: Seq<(Partition, F)>,
    i: int,
    path: Seq<char>,
    v: Vec<u8>,
) -> bool {
    &&& 0 <= i < fss.len()
    &&& may_read(&fss[i].1, path, Ok(v))
    &&& forall|j: int| 0 <= j < i ==> may_refuse(&(#[trigger] fss[j]).1, path)
}

/// Read `path` from the first filesystem that has it. `part` is the partition
/// that was asked for, if one was.
pub fn read_by_uri<F: FileSystem>(fss: &Vec<(Partition, F)>, path: &str, part: Option<usize>) -> (r:
    core::result::Result<Vec<u8>, String>)
    ensures
        r is Ok ==> exists|i: int| #[trigger] first_to_read(fss@, i, path@, r->Ok_0),
        r matches Err(e) ==> e@ == path@ + ": not found"@ + where_searched(part),
        r is Err ==> forall|j: int|
            0 <= j < fss@.len() ==> may_refuse(&(#[trigger] fss@[j]).1, path@),
        all_stable(fss@) ==> match file_in(fss@, path@) {
            Some(d) => r matches Ok(v) && v@ == d,
            None => r is Err,
        },
{
    let mut i: usize = 0;
    assert(fss@.skip(0) =~= fss@);
    while i < fss.len()
        invariant
            i <= fss@.len(),
            forall|j: int| 0 <= j < i ==> may_refuse(&(#[trigger] fss@[j]).1, path@),
            all_stable(fss@) ==> file_in(fss@, path@) == file_in(fss@.skip(i as int), path@),
        decreases fss@.len() - i,
    {
        let got = fss[i].1.read_file(path);
        assert(may_read(&fss@[i as int].1, path@, got));
        proof {
            assert(fss@.skip(i as int).drop_first() =~= fss@.skip(i + 1));
            assert(fss@.skip(i as int)[0] == fss@[i as int]);
            if all_stable(fss@) {
                assert(fss@[i as int].1.stable());
            }
        }
        if let Ok(data) = got {
            assert(first_to_read(fss@, i as int, path@, data));
            let out: core::result::Result<Vec<u8>, String> = Ok(data);
            assert(out->Ok_0 == data);
            return out;
        }
        i = i + 1;
    }
    assert(fss@.skip(i as int).len() == 0);
    let mut msg: String = path.to_owned();
    msg.append(": not found");
    match part {
        Some(n) => {
            push_on_partition(&mut msg, n);
        },
        None => {
            msg.append(" on any readable partition");
        },
    }
    Err(msg)
}

/// The directories at `path` with the positions of their filesystems, from
/// the `i`th on; only the first, where no partition was asked for.
pub open spec fn listings_from<F: FileSystem>(
    fss: Seq<(Partition, F)>,
    i: int,
    path: Seq<char>,
    only_first: bool,
) -> Seq<(int, Seq<DirEntryView>)>
    decreases fss.len() - i,
{
    if i < 0 || i >= fss.len() {
        seq![]
    } else {
        match fss[i].1.listing(path) {
            None => listings_from(fss, i + 1, path, only_first),
            Some(l) => if only_first {
                seq![(i, l)]
            } else {
                seq![(i, l)] + listings_from(fss, i + 1, path, only_first)
            },
        }
    }
}

/// What a list of directories holds.
pub open spec fn listing_views(s: Seq<(usize, Vec<DirEntry>)>) -> Seq<(int, Seq<DirEntryView>)> {
    Seq::new(s.len(), |i: int| (s[i].0 as int, views(s[i].1@)))
}

/// List the directory at `path` on the filesystems that have it, each by its
/// position. Without an explicit partition, only the first match.
pub fn list_by_uri<F: FileSystem>(fss: &Vec<(Partition, F)>, path: &str, part: Option<usize>) -> (r:
    Vec<(usize, Vec<DirEntry>)>)
    ensures
        forall|k: int|
            0 <= k < r@.len() ==> (#[trigger] r@[k]).0 < fss@.len() && may_list(
                &fss@[r@[k].0 as int].1,
                path@,
                Ok(r@[k].1),
            ),
        forall|a: int, b: int| 0 <= a < b < r@.len() ==> (#[trigger] r@[a]).0 < (#[trigger] r@[b]).0,
        part is None ==> r@.len() <= 1,
        all_stable(fss@) ==> listing_views(r@) == listings_from(fss@, 0, path@, part is None),
{
    let mut out: Vec<(usize, Vec<DirEntry>)> = Vec::new();
    let mut i: usize = 0;
    let ghost all = listings_from(fss@, 0, path@, part is None);
    assert(listing_views(out@) =~= Seq::empty());
    while i < fss.len()
        invariant
            i <= fss@.len(),
            all == listings_from(fss@, 0, path@, part is None),
            forall|k: int|
                0 <= k < out@.len() ==> (#[trigger] out@[k]).0 < i && may_list(
                    &fss@[out@[k].0 as int].1,
                    path@,
                    Ok(out@[k].1),
                ),
            forall|a: int, b: int|
                0 <= a < b < out@.len() ==> (#[trigger] out@[a]).0 < (#[trigger] out@[b]).0,
            part is None ==> out@.len() == 0,
            all_stable(fss@) ==> all == listing_views(out@) + listings_from(
                fss@,
                i as int,
                path@,
                part is None,
            ),
        decreases fss@.len() - i,
    {
        let ghost before = listing_views(out@);
        let ghost rest = listings_from(fss@, i + 1, path@, part is None);
        let got = fss[i].1.read_dir(path);
        assert(may_list(&fss@[i as int].1, path@, got));
        proof {
            if all_stable(fss@) {
                assert(fss@[i as int].1.stable());
            }
        }
        if let Ok(entries) = got {
            let ghost l = views(entries@);
            out.push((i, entries));
            assert(listing_views(out@) =~= before.push((i as int, l)));
            assert(before + (seq![(i as int, l)] + rest) =~= before.push((i as int, l)) + rest);
            if part.is_none() {
                assert(before + seq![(i as int, l)] =~= before.push((i as int, l)));
                return out;
            }
        }
        i = i + 1;
    }
    assert(listing_views(out@) + Seq::<(int, Seq<DirEntryView>)>::empty() =~= listing_views(out@));
    out
}

/// The file name that a copy gets in a directory.
pub fn dest_name(source_path: &str) -> (r: String)
    ensures
        r@ == after_last(source_path@, '/'),
{
    let c = chars(source_path);
    string(tail_after(c.as_slice(), '/'))
}

} // verus!
