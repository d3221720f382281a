//! What the commands put together of what they found.

use crate::boot::{scan_of, EntryView, ScanView, Source};
use crate::cli::commands::{
    all_objects, blocks, boot_report, entries_text, extraction_of, ls_text, objects, partition_text,
};
use crate::cli::json::{compression_of, facts_of, json_entry, json_uris};
use crate::cli::listing::{by_name, listing_line, listing_lines};
use crate::cli::paths::resolved;
use crate::cli::report::{
    boot_info_text, entry_notes, entry_text, headline, names_a_device, scan_text,
    uri_lines,
};
use crate::cli::select::{
    best, has_config, has_entry, is_wanted, on_partition, rewrite_of, scans, where_searched,
};
use crate::cli::shell::{effect, located, OutcomeView, RequestView, ShellView};
use crate::fsys::{DirEntryView, FileSystem};
use crate::guest::uri_of;
use crate::kernel::wrapping;
use crate::part::{Partition, PartitionView};
use crate::seqs::lemma_position;
use crate::text::laws::law_contains;
use crate::text::number::dec;
use crate::text::split::join;
use crate::vdafix::{fixed, needs_fix};
use vstd::prelude::*;
use vstd::string::*;

verus! {

// ---------------------------------------------------------------------
// Entries
// ---------------------------------------------------------------------

/// A command line is rewritten where something of it has to be, and only then.
pub proof fn law_what_is_rewritten(c: Seq<char>, parts: Seq<PartitionView>)
    ensures
        rewrite_of(None, parts) is None,
        needs_fix(c, parts) ==> rewrite_of(Some(c), parts) == Some(fixed(c, parts)),
        !needs_fix(c, parts) ==> rewrite_of(Some(c), parts) is None,
{
}

/// The sizes of an entry are those of its files, in the order of its paths,
/// and its wrapper is told by the first 8192 bytes of the kernel.
pub proof fn law_facts_of_an_entry<F: FileSystem + ?Sized>(fs: &F, e: EntryView, i: int)
    ensures
        ({
            let f = facts_of(fs, e, None);
            &&& e.kernel matches Some(k) ==> (fs.file(k) matches Some(d) ==> f.kernel_size == Some(
                d.len(),
            ) && f.kernel_compression == wrapping(
                if d.len() > 8192 {
                    d.take(8192)
                } else {
                    d
                },
            ))
            &&& e.kernel matches Some(k) ==> (fs.file(k) is None ==> f.kernel_size is None
                && f.kernel_compression is None)
            &&& e.kernel is None ==> f.kernel_size is None && f.kernel_compression is None
            &&& f.initrd_size.len() == e.initrd.len()
            &&& 0 <= i < e.initrd.len() ==> f.initrd_size[i] == (match fs.file(e.initrd[i]) {
                Some(d) => Some(d.len()),
                None => None,
            })
            &&& f.dma_restricted_pool is None
        }),
{
}

/// The entries of a partition follow its heading, in order, the default
/// marked, each with its rewritten command line and its wrapper; a partition
/// without entries is not mentioned.
pub proof fn law_partition_report<F: FileSystem>(
    p: Partition,
    fs: F,
    table: Seq<PartitionView>,
    n: nat,
)
    ensures
        ({
            let s = scan_of(&fs);
            let part = p.index as nat;
            let e = s.entries[n as int];
            &&& s.entries.len() == 0 ==> partition_text(p, fs, table).len() == 0
            &&& s.entries.len() > 0 ==> partition_text(p, fs, table) == seq![
                "partition "@ + dec(part) + " ("@ + fs.fs_name() + "):"@,
            ] + blocks(part, fs, table, s.entries.len())
            &&& blocks(part, fs, table, n + 1) == blocks(part, fs, table, n) + (seq![
                headline(n, s.default == Some(n as int), e),
            ] + entry_text(part, e, rewrite_of(e.cmdline, table)) + entry_notes(
                compression_of(&fs, e),
                None,
            ))
            &&& blocks(part, fs, table, 0).len() == 0
        }),
{
}

/// The partitions are reported in order.
pub proof fn law_partitions_in_order<F: FileSystem>(
    fss: Seq<(Partition, F)>,
    table: Seq<PartitionView>,
    n: nat,
)
    requires
        n < fss.len(),
    ensures
        entries_text(fss, table, n + 1) == entries_text(fss, table, n) + partition_text(
            fss[n as int].0,
            fss[n as int].1,
            table,
        ),
        entries_text(fss, table, 0).len() == 0,
        all_objects(fss, table, n + 1) == all_objects(fss, table, n) + objects(
            fss[n as int].0.index as nat,
            fss[n as int].1,
            table,
            scan_of(&fss[n as int].1).entries.len(),
        ),
        all_objects(fss, table, 0).len() == 0,
{
}

/// Every entry of a partition is an object of its own, in order.
pub proof fn law_objects_in_order<F: FileSystem>(
    part: nat,
    fs: F,
    table: Seq<PartitionView>,
    n: nat,
)
    ensures
        ({
            let s = scan_of(&fs);
            let e = s.entries[n as int];
            objects(part, fs, table, n + 1) == objects(part, fs, table, n).push(
                json_entry(
                    part,
                    s.default == Some(n as int),
                    e,
                    rewrite_of(e.cmdline, table),
                    facts_of(&fs, e, None),
                ),
            )
        }),
        objects(part, fs, table, 0).len() == 0,
{
}

/// What boots by default is the default entry of the best partition, and
/// where nothing boots that is said.
pub proof fn law_boot_report<F: FileSystem>(
    fss: Seq<(Partition, F)>,
    table: Seq<PartitionView>,
    i: int,
    d: int,
)
    ensures
        best(scans(fss)) is None ==> boot_report(fss, table, false) == Err::<Seq<Seq<char>>, Seq<char>>(
            "no boot artifacts (kernel/initramfs) found in any partition"@,
        ),
        best(scans(fss)) == Some(i) && scan_of(&fss[i].1).default == Some(d) && 0 <= d < scan_of(
            &fss[i].1,
        ).entries.len() ==> ({
            let fs = fss[i].1;
            let part = fss[i].0.index as nat;
            let e = scan_of(&fs).entries[d];
            let rewritten = rewrite_of(e.cmdline, table);
            &&& e.kernel is Some ==> boot_report(fss, table, false) == Ok::<Seq<Seq<char>>, Seq<char>>(
                boot_info_text(part, e, rewritten, compression_of(&fs, e)),
            )
            &&& e.kernel is None ==> boot_report(fss, table, false) is Err
            &&& boot_report(fss, table, true) == Ok::<Seq<Seq<char>>, Seq<char>>(
                seq![
                    "{\"entry\":"@ + json_entry(part, true, e, rewritten, facts_of(&fs, e, None))
                        + ",\"configs\":["@ + join(
                        json_uris(part, scan_of(&fs).configs),
                        ","@,
                    ) + "]}"@,
                ],
            )
        }),
{
}

/// The lines on what boots by default: the kernel, the initrds in order, the
/// command line and its rewritten form, the wrapper, and the source.
pub proof fn law_boot_info_lines(part: nat, e: EntryView, k: Seq<char>, c: Seq<char>, f: Seq<char>)
    requires
        e.kernel == Some(k),
        e.cmdline == Some(c),
    ensures
        boot_info_text(part, e, Some(f), None) == seq!["kernel:  "@ + uri_of(part, k)] + Seq::new(
            e.initrd.len(),
            |i: int| "initrd:  "@ + uri_of(part, e.initrd[i]),
        ) + seq!["cmdline: "@ + c, "vdafix:  "@ + f] + seq!["source:  "@ + e.source.name()],
        boot_info_text(part, e, None, None) == seq!["kernel:  "@ + uri_of(part, k)] + Seq::new(
            e.initrd.len(),
            |i: int| "initrd:  "@ + uri_of(part, e.initrd[i]),
        ) + seq!["cmdline: "@ + c] + seq!["source:  "@ + e.source.name()],
{
    let list = Seq::new(e.initrd.len(), |i: int| "initrd:  "@ + uri_of(part, e.initrd[i]));
    assert(uri_lines("initrd:  "@, part, e.initrd) =~= list);
    let head = seq!["kernel:  "@ + uri_of(part, k)];
    let tail = seq!["source:  "@ + e.source.name()];
    assert(boot_info_text(part, e, Some(f), None) =~= head + list + seq![
        "cmdline: "@ + c,
        "vdafix:  "@ + f,
    ] + tail);
    assert(boot_info_text(part, e, None, None) =~= head + list + seq!["cmdline: "@ + c] + tail);
}

/// A command line with a disk of a machine as its root is noted where it was
/// not rewritten.
pub proof fn law_device_is_noted(part: nat, e: EntryView, a: Seq<char>, b: Seq<char>)
    ensures
        names_a_device(a + "root=/dev/sd"@ + b),
        names_a_device(a + "root=/dev/nvme"@ + b),
        e.cmdline matches Some(c) ==> (names_a_device(c) ==> entry_text(part, e, None).last()
            == "      note: root= names a physical device; under virtio this likely needs rewriting (e.g. /dev/vda)"@),
        e.cmdline matches Some(c) ==> (!names_a_device(c) ==> entry_text(part, e, None).last()
            == "      cmdline: "@ + c),
{
    law_contains(a, "root=/dev/sd"@, b, seq![]);
    law_contains(a, "root=/dev/nvme"@, b, seq![]);
}

/// What is extracted of an entry: its kernel, its initrds and then the configs,
/// and its command line, rewritten where that is asked for and something was.
pub proof fn law_extraction(
    part: nat,
    fs_name: Seq<char>,
    s: ScanView,
    i: int,
    table: Seq<PartitionView>,
)
    requires
        0 <= i < s.entries.len(),
    ensures
        s.entries[i].kernel is None ==> extraction_of(part, fs_name, s, i, true, table) is None,
        s.entries[i].kernel matches Some(k) ==> ({
            let plain = extraction_of(part, fs_name, s, i, false, table);
            let fixed = extraction_of(part, fs_name, s, i, true, table);
            let c = s.entries[i].cmdline;
            &&& plain matches Some(x) && x.index == i && x.kernel == k && x.copies
                == s.entries[i].initrd + s.configs && x.cmdline == c
            &&& fixed matches Some(x) && x.index == i && x.kernel == k && x.copies
                == s.entries[i].initrd + s.configs && x.cmdline == (match rewrite_of(c, table) {
                Some(r) => Some(r),
                None => c,
            })
        }),
{
}

/// A listing is headed by its partition and its path, and its lines are in
/// order of names.
pub proof fn law_listing<F: FileSystem>(
    fss: Seq<(Partition, F)>,
    path: Seq<char>,
    lists: Seq<(int, Seq<DirEntryView>)>,
    n: nat,
)
    requires
        n < lists.len(),
    ensures
        ({
            let (i, l) = lists[n as int];
            ls_text(fss, path, lists, n + 1) == ls_text(fss, path, lists, n) + seq![
                "# partition "@ + dec(fss[i].0.index as nat) + " ("@ + fss[i].1.fs_name() + "):"@ + path,
            ] + Seq::new(by_name(l).len(), |k: int| listing_line(by_name(l)[k]))
        }),
        ls_text(fss, path, lists, 0).len() == 0,
{
    let (i, l) = lists[n as int];
    let head = "# partition "@ + dec(fss[i].0.index as nat) + " ("@ + fss[i].1.fs_name() + "):"@ + path;
    let before = ls_text(fss, path, lists, n);
    assert(before.push(head) =~= before + seq![head]);
    assert(listing_lines(l) =~= Seq::new(by_name(l).len(), |k: int| listing_line(by_name(l)[k])));
}

/// The partition that was asked for is opened, whatever it holds, and no other;
/// where none was asked for, those that may hold boot files are. A message says
/// where was searched.
pub proof fn law_which_partitions_are_opened(p: PartitionView, n: usize)
    ensures
        is_wanted(p, Some(n)) <==> p.index == n,
        is_wanted(p, None) <==> p.probe_worthy,
        where_searched(Some(n)) == " on partition "@ + dec(n as nat),
        where_searched(None) == " on any readable partition"@,
        on_partition(None).len() == 0,
        on_partition(Some(n)) == " on partition "@ + dec(n as nat),
{
}

/// The first partition with an entry that a config declares boots; where no
/// config declares one, the first with an entry.
pub proof fn law_first_partition_counts(scans: Seq<ScanView>, i: int, k: int)
    requires
        0 <= i < scans.len(),
    ensures
        0 <= k < scans[i].entries.len() && scans[i].entries[k].source != Source::Fallback && (forall|
            j: int,
            n: int,
        |
            0 <= j < i && 0 <= n < scans[j].entries.len() ==> (#[trigger] scans[j].entries[n]).source
                == Source::Fallback) ==> best(scans) == Some(i),
        0 < scans[i].entries.len() && (forall|j: int|
            0 <= j < i ==> (#[trigger] scans[j]).entries.len() == 0) && (forall|j: int, n: int|
            0 <= j < scans.len() && 0 <= n < scans[j].entries.len() ==> (
            #[trigger] scans[j].entries[n]).source == Source::Fallback) ==> best(scans) == Some(i),
        (forall|j: int| 0 <= j < scans.len() ==> (#[trigger] scans[j]).entries.len() == 0) ==> best(
            scans,
        ) is None,
{
    lemma_position(scans, has_config());
    lemma_position(scans, has_entry());
    if 0 <= k < scans[i].entries.len() && scans[i].entries[k].source != Source::Fallback {
        assert(has_config()(scans[i]));
    }
    if 0 < scans[i].entries.len() {
        assert(has_entry()(scans[i]));
    }
}

// ---------------------------------------------------------------------
// The shell
// ---------------------------------------------------------------------

/// `cd` goes to a directory of the current filesystem, and stays where there is
/// none; it says so then.
pub proof fn law_cd<F: FileSystem>(fss: Seq<(Partition, F)>, st: ShellView, input: Seq<char>)
    ensures
        ({
            let fs = fss[st.current].1;
            let path = resolved(st.cwd, input);
            let (after, out) = effect(fss, st, RequestView::Cd(input));
            &&& fs.listing(path) is Some ==> after.current == st.current && after.cwd == path && out
                == OutcomeView::Silent
            &&& fs.listing(path) is None ==> after == st && out == OutcomeView::Failed(
                path + ": not a directory"@,
            )
        }),
{
}

/// `ls`, `cat` and `cp` are about the place that the path leads to: its
/// entries in order, its contents with a newline at the end, and its contents
/// as they are.
pub proof fn law_files<F: FileSystem>(
    fss: Seq<(Partition, F)>,
    st: ShellView,
    input: Seq<char>,
    dest: Seq<char>,
    i: int,
    path: Seq<char>,
)
    requires
        located(fss, st, input) == Ok::<_, Seq<char>>((i, path)),
    ensures
        fss[i].1.listing(path) matches Some(l) ==> effect(fss, st, RequestView::Ls(input)) == (
            st,
            OutcomeView::Lines(Seq::new(by_name(l).len(), |k: int| listing_line(by_name(l)[k]))),
        ),
        fss[i].1.file(path) matches Some(d) ==> {
            &&& effect(fss, st, RequestView::Cp(input, dest)) == (
                st,
                OutcomeView::Save { path, dest, data: d },
            )
            &&& d.len() > 0 && d.last() == 10 ==> effect(fss, st, RequestView::Cat(input)) == (
                st,
                OutcomeView::Bytes(d),
            )
            &&& d.len() == 0 || d.last() != 10 ==> effect(fss, st, RequestView::Cat(input)) == (
                st,
                OutcomeView::Bytes(d + seq![10u8]),
            )
        },
        fss[i].1.file(path) is None ==> effect(fss, st, RequestView::Cat(input)).1 is Refused && effect(
            fss,
            st,
            RequestView::Cp(input, dest),
        ).1 is Refused,
        fss[i].1.listing(path) is None ==> effect(fss, st, RequestView::Ls(input)).1 is Refused,
{
    if fss[i].1.listing(path) is Some {
        let l = fss[i].1.listing(path)->0;
        assert(listing_lines(l) =~= Seq::new(by_name(l).len(), |k: int| listing_line(by_name(l)[k])));
    }
    if fss[i].1.file(path) is Some {
        let d = fss[i].1.file(path)->0;
        assert(d.push(10) =~= d + seq![10u8]);
    }
}

/// `boot` lists the entries of the current partition, all of them, or says that
/// there are none; a command that is not known, or not used as it should be, is
/// told. The shell stays where it is.
pub proof fn law_boot<F: FileSystem>(
    fss: Seq<(Partition, F)>,
    st: ShellView,
    cmd: Seq<char>,
)
    ensures
        ({
            let (p, fs) = fss[st.current];
            let s = scan_of(&fs);
            let part = p.index as nat;
            &&& s.entries.len() > 0 ==> effect(fss, st, RequestView::Boot) == (
                st,
                OutcomeView::Lines(scan_text(part, s, s.entries.len())),
            )
            &&& s.entries.len() == 0 ==> effect(fss, st, RequestView::Boot) == (
                st,
                OutcomeView::Failed("no boot entries on partition "@ + dec(part)),
            )
            &&& effect(fss, st, RequestView::Usage(cmd)) == (st, OutcomeView::Failed(cmd))
            &&& effect(fss, st, RequestView::Unknown(cmd)) == (
                st,
                OutcomeView::Failed("unknown command '"@ + cmd + "' — try 'help'"@),
            )
        }),
{
}

/// `pwd` says the partition and the directory.
pub proof fn law_pwd<F: FileSystem>(fss: Seq<(Partition, F)>, st: ShellView)
    ensures
        effect(fss, st, RequestView::Pwd) == (
            st,
            OutcomeView::Lines(seq![uri_of(fss[st.current].0.index as nat, st.cwd)]),
        ),
        effect(fss, st, RequestView::Quit).1 == OutcomeView::Quit,
        effect(fss, st, RequestView::Help).1 == OutcomeView::Help,
        effect(fss, st, RequestView::Parts).1 == OutcomeView::Parts,
        effect(fss, st, RequestView::Nothing).1 == OutcomeView::Silent,
{
}

} // verus!
