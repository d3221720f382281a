//! What each partition adds to the answer, and what becomes of the entries.

use crate::boot::stale::kept;
use crate::boot::{EntryView, Firmware, Source};
use crate::fsys::FileSystem;
use crate::guest::walk::{
    all_resolved, booting, finding, firmware_of, host_of, is_windows_type, resolved, settled, stays,
    staying, verdict, walked, windows_entry, with_bcd, with_entry, with_manager, with_partition,
    with_type, with_volume, with_windows, Found, PartView, Probed,
};
use crate::guest::{arch_in, is_same_file, path_from, uri_of, WindowsView};
use crate::part::PartitionView;
use crate::seqs::lemma_position;
use vstd::prelude::*;
use vstd::string::*;

verus! {

/// Partition types that only Windows creates: the reserved one, recovery,
/// both kinds of dynamic disks, storage spaces, and hidden NTFS.
pub proof fn law_windows_types(t: Seq<char>)
    ensures
        is_windows_type("e3c9e316-0b5c-4db8-817d-f92df00215ae"@),
        is_windows_type("de94bba4-06d1-4d40-a16a-bfd50179d6ac"@),
        is_windows_type("5808c8aa-7e8f-42e0-85d2-e1e90434cfb3"@),
        is_windows_type("af9b60a0-1431-4f62-bc68-3311714a69ad"@),
        is_windows_type("e75caf8f-f680-4cee-afa3-b001e56efc2d"@),
        is_windows_type("0x27"@),
        is_windows_type(t) ==> t == "e3c9e316-0b5c-4db8-817d-f92df00215ae"@ || t
            == "de94bba4-06d1-4d40-a16a-bfd50179d6ac"@ || t == "5808c8aa-7e8f-42e0-85d2-e1e90434cfb3"@
            || t == "af9b60a0-1431-4f62-bc68-3311714a69ad"@ || t
            == "e75caf8f-f680-4cee-afa3-b001e56efc2d"@ || t == "0x27"@,
{
}

/// A Windows install is started by UEFI where its boot manager was found, by
/// the BIOS where its bootstrap code leads to a volume that loads it, by
/// either where both hold, and by nothing else.
pub proof fn law_what_starts_windows<F>(st: Found<F>, bootstrap: bool)
    ensures
        ({
            let uefi = st.boot_manager is Some;
            let bios = bootstrap && st.ntfs_loader is Some;
            firmware_of(st, bootstrap) == (if uefi && bios {
                Some(Firmware::Both)
            } else if uefi {
                Some(Firmware::Uefi)
            } else if bios {
                Some(Firmware::Bios)
            } else {
                None
            })
        }),
{
}

/// A disk is called a Windows disk for its boot manager, its boot path through
/// the BIOS, a partition type of its own, its boot configuration or a volume,
/// and for nothing else; what was found is told.
pub proof fn law_what_is_windows<F>(st: Found<F>, bootstrap: bool)
    ensures
        verdict(st, bootstrap) is Some <==> st.boot_manager is Some || (bootstrap && st.ntfs_loader is Some)
            || st.win_type || st.bcd is Some || st.volumes,
        verdict(st, bootstrap) matches Some(w) ==> w.boot_manager == st.boot_manager && w.bcd == st.bcd
            && w.arch == st.arch && w.evidence == st.evidence && w.firmware == firmware_of(
            st,
            bootstrap,
        ),
{
}

/// The walk starts with nothing but the bootstrap code, and goes on partition
/// by partition.
pub proof fn law_walk_goes_on<F: FileSystem>(
    bootstrap: bool,
    probed: Seq<Probed<F>>,
    p: Probed<F>,
    want_entries: bool,
)
    ensures
        walked(bootstrap, probed.push(p), want_entries) == with_partition(
            walked(bootstrap, probed, want_entries),
            p,
            want_entries,
        ),
        ({
            let st = walked::<F>(bootstrap, seq![], want_entries);
            &&& st.parts.len() == 0 && st.boot_manager is None && st.bcd is None && st.arch is None
                && st.ntfs_loader is None && !st.volumes && !st.win_type
            &&& st.evidence == (if bootstrap {
                seq!["mbr: Windows bootstrap code"@]
            } else {
                seq![]
            })
        }),
{
    let all = probed.push(p);
    assert(all.drop_last() =~= probed);
    assert(all.last() == p);
}

/// A partition of a Windows type is evidence, and one of another type is none.
pub proof fn law_type_is_evidence<F>(st: Found<F>, p: PartitionView)
    ensures
        is_windows_type(p.type_id) ==> with_type(st, p).win_type && with_type(st, p).evidence
            == st.evidence.push(finding(p.index, p.kind + " partition"@)),
        !is_windows_type(p.type_id) ==> with_type(st, p) == st,
        with_type(st, p).parts == st.parts && with_type(st, p).ntfs_loader == st.ntfs_loader && with_type(
            st,
            p,
        ).boot_manager == st.boot_manager && with_type(st, p).bcd == st.bcd && with_type(st, p).volumes
            == st.volumes,
{
}

/// An NTFS or ReFS volume is a partition without a filesystem that can be
/// read. The first one that loads Windows is the one that the BIOS would
/// start.
pub proof fn law_volume_is_kept<F>(
    st: Found<F>,
    p: PartitionView,
    fs_type: Seq<char>,
    loader: Option<Seq<char>>,
)
    ensures
        ({
            let after = with_volume(st, p, fs_type, loader);
            &&& after.volumes
            &&& after.parts.len() == st.parts.len() + 1
            &&& after.parts.last().partition == p && after.parts.last().fs_type == fs_type
                && after.parts.last().fs is None && after.parts.last().scan.entries.len() == 0
            &&& after.parts.drop_last() == st.parts
            &&& st.ntfs_loader is Some ==> after.ntfs_loader == st.ntfs_loader
            &&& st.ntfs_loader is None && loader is Some ==> after.ntfs_loader == Some(p.index)
            &&& loader is None ==> after.ntfs_loader == st.ntfs_loader
            &&& after.evidence.len() == st.evidence.len() + 1
            &&& after.boot_manager == st.boot_manager && after.bcd == st.bcd && after.arch == st.arch
                && after.win_type == st.win_type
        }),
{
    assert(with_volume(st, p, fs_type, loader).parts.drop_last() =~= st.parts);
}

/// The boot manager is `EFI/Microsoft/Boot/bootmgfw.efi`, in whatever case, on
/// the first filesystem that has it; the architecture is that of the file's
/// first 4096 bytes.
pub proof fn law_first_boot_manager_counts<F: FileSystem>(
    st: Found<F>,
    p: PartitionView,
    fs: F,
)
    ensures
        ({
            let after = with_manager(st, p, fs);
            let at = path_from(&fs, seq![], seq!["EFI"@, "Microsoft"@, "Boot"@, "bootmgfw.efi"@]);
            &&& at is None ==> after == st
            &&& at matches Some(path) ==> {
                &&& st.boot_manager is Some ==> after.boot_manager == st.boot_manager
                &&& st.boot_manager is None ==> after.boot_manager == Some(uri_of(p.index as nat, path))
                &&& st.arch is Some ==> after.arch == st.arch
                &&& st.arch is None ==> (fs.file(path) matches Some(d) ==> after.arch == arch_in(
                    if d.len() > 4096 {
                        d.take(4096)
                    } else {
                        d
                    },
                ))
            }
            &&& after.parts == st.parts && after.bcd == st.bcd && after.ntfs_loader == st.ntfs_loader
        }),
{
}

/// The boot configuration is `EFI/Microsoft/Boot/BCD`, on the first filesystem
/// that has it.
pub proof fn law_first_configuration_counts<F: FileSystem>(st: Found<F>, p: PartitionView, fs: F)
    ensures
        ({
            let after = with_bcd(st, p, fs);
            let at = path_from(&fs, seq![], seq!["EFI"@, "Microsoft"@, "Boot"@, "BCD"@]);
            &&& at is None ==> after == st
            &&& at matches Some(path) ==> {
                &&& st.bcd is Some ==> after.bcd == st.bcd
                &&& st.bcd is None ==> after.bcd == Some(uri_of(p.index as nat, path))
            }
            &&& after.boot_manager == st.boot_manager && after.arch == st.arch && after.parts
                == st.parts
        }),
{
}

/// An entry that hands over stays where it hands over to the boot manager
/// that was found, and then says so; every other one that hands over goes, and
/// one with a kernel of its own stays as it is.
pub proof fn law_what_hands_over(e: EntryView, w: WindowsView, uri: Seq<char>, part: nat, path: Seq<char>)
    requires
        w.boot_manager == Some(uri_of(part, path)),
        part <= usize::MAX,
    ensures
        e.chainloader is None ==> stays(e, Some(w)) && resolved(e, Some(w)) == e,
        e.chainloader matches Some(target) ==> (stays(e, Some(w)) <==> is_same_file(target, path)),
        (e.chainloader matches Some(target) && is_same_file(target, path)) ==> ({
            let r = resolved(e, Some(w));
            &&& r.windows matches Some(b) && b.firmware == Firmware::Uefi && b.arch == w.arch && b.loader
                == w.boot_manager
            &&& r == EntryView { windows: r.windows, ..e }
        }),
        e.chainloader is Some ==> !stays(e, None),
{
    crate::guest::law_uri_round_trips(part, path);
}

/// What stays of a partition's entries stays in order, and the default with
/// its entry.
pub proof fn law_entries_stay_in_order<F>(p: PartView<F>, win: Option<WindowsView>, d: int)
    ensures
        settled(p, win).scan.entries.len() <= p.scan.entries.len(),
        (forall|i: int| 0 <= i < p.scan.entries.len() ==> (#[trigger] p.scan.entries[i]).chainloader is None)
            ==> settled(p, win).scan.entries == p.scan.entries,
        0 <= d < p.scan.entries.len() && p.scan.default == Some(d) && stays(p.scan.entries[d], win) ==> (
        settled(p, win).scan.default matches Some(n) && 0 <= n < settled(p, win).scan.entries.len()
            && settled(p, win).scan.entries[n] == resolved(p.scan.entries[d], win)),
        settled(p, win).partition == p.partition,
        settled(p, win).scan.configs == p.scan.configs,
{
    let keep = staying(p.scan.entries, win);
    let all = all_resolved(p.scan.entries, win);
    crate::boot::stale::lemma_kept_len(all, keep);
    lemma_count_bound(keep);
    if forall|i: int|
        0 <= i < p.scan.entries.len() ==> (#[trigger] p.scan.entries[i]).chainloader is None {
        assert forall|i: int| 0 <= i < keep.len() implies #[trigger] keep[i] by {
            assert(p.scan.entries[i].chainloader is None);
        }
        lemma_kept_all(all, keep);
        assert(all =~= p.scan.entries);
    }
    if 0 <= d < p.scan.entries.len() && stays(p.scan.entries[d], win) {
        assert(keep[d]);
        crate::boot::stale::lemma_kept_at(all, keep, d);
    }
}

proof fn lemma_count_bound(keep: Seq<bool>)
    ensures
        crate::boot::stale::count(keep) <= keep.len(),
    decreases keep.len(),
{
    if keep.len() > 0 {
        lemma_count_bound(keep.drop_first());
    }
}

proof fn lemma_kept_all<T>(s: Seq<T>, keep: Seq<bool>)
    requires
        s.len() == keep.len(),
        forall|i: int| 0 <= i < keep.len() ==> #[trigger] keep[i],
    ensures
        kept(s, keep) == s,
    decreases s.len(),
{
    if s.len() > 0 {
        let k = keep.drop_first();
        assert forall|i: int| 0 <= i < k.len() implies #[trigger] k[i] by {
            assert(keep[i + 1]);
        }
        lemma_kept_all(s.drop_first(), k);
        assert(keep[0]);
        assert(seq![s[0]] + s.drop_first() =~= s);
    } else {
        assert(kept(s, keep) =~= s);
    }
}

/// The entry of an install that nothing declares is called so, has no kernel,
/// and goes behind the others of its partition; it is the default only where
/// there is none.
pub proof fn law_added_entry<F>(p: PartView<F>, firmware: Firmware, w: WindowsView)
    ensures
        ({
            let e = windows_entry(firmware, w);
            let after = with_entry(p, e);
            &&& e.title == Some("Windows Boot Manager"@) && e.id == Some("windows"@) && e.source
                == Source::Windows && e.kernel is None && e.initrd.len() == 0 && e.chainloader is None
                && e.cmdline is None
            &&& e.windows matches Some(b) && b.firmware == firmware && b.arch == w.arch && b.loader
                == w.boot_manager
            &&& after.scan.entries == p.scan.entries.push(e)
            &&& p.scan.default is Some ==> after.scan.default == p.scan.default
            &&& p.scan.default is None ==> after.scan.default == Some(p.scan.entries.len() as int)
        }),
{
}

/// It goes on the partition of the boot manager, else on that of the volume
/// that the BIOS starts; the other partitions stay as they are.
pub proof fn law_where_the_entry_goes<F>(
    parts: Seq<PartView<F>>,
    w: WindowsView,
    part: nat,
    path: Seq<char>,
    bios: Option<int>,
    firmware: Firmware,
    k: int,
)
    requires
        part <= usize::MAX,
        w.firmware == Some(firmware),
        0 <= k < parts.len(),
        forall|j: int| 0 <= j < k ==> (#[trigger] parts[j]).partition.index != parts[k].partition.index,
        (w.boot_manager == Some(uri_of(part, path)) && parts[k].partition.index == part) || (
        w.boot_manager is None && bios == Some(parts[k].partition.index)),
    ensures
        with_windows(parts, w, bios) == parts.update(
            k,
            with_entry(parts[k], windows_entry(firmware, w)),
        ),
{
    crate::guest::law_uri_round_trips(part, path);
    let n = parts[k].partition.index;
    let p = crate::guest::walk::indexed::<F>(n);
    lemma_position(parts, p);
    assert(p(parts[k]));
    assert(host_of(w, bios) == Some(n));
}

/// A partition is in the answer where it has an entry, in order.
pub proof fn law_partitions_with_entries_are_kept<F>(parts: Seq<PartView<F>>, p: PartView<F>)
    ensures
        booting(parts.push(p)) == (if p.scan.entries.len() > 0 {
            booting(parts).push(p)
        } else {
            booting(parts)
        }),
        booting::<F>(seq![]) == Seq::<PartView<F>>::empty(),
{
    let all = parts.push(p);
    assert(all.drop_last() =~= parts);
    assert(all.last() == p);
}

} // verus!
