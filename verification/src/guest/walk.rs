//! One pass over the partitions of a disk, and the merged answer.

use crate::boot::stale::{kept, moved_default};
use crate::boot::{
    blank_entry, empty_scan, opt_str, retain, scan, scan_of, BootEntry, BootScan, EntryView,
    Firmware, ScanView, Source, WindowsBoot, WindowsBootView,
};
use crate::fsys::FileSystem;
use crate::guest::{
    arch_in, find_path, is_same_file, partition_in, path_from, path_in, path_of, pe_arch, same_file,
    uri, uri_of, uri_partition, Windows, WindowsView,
};
use crate::part::{gpt, Partition, PartitionView};
use crate::seqs::{index, lemma_position, or, position, position_by, views};
use crate::text::number::{dec, push_dec};
use crate::text::{eq, opt, opt_copy};
use vstd::prelude::*;
use vstd::string::*;

verus! {

broadcast use vstd::seq_lib::group_seq_properties;

/// A partition, with what its caller found on it.
pub struct Probed<F> {
    pub partition: Partition,
    /// Filesystem as detected: `"vfat"`, `"ext4"`, `"ntfs"`, ...
    pub fs_type: Option<&'static str>,
    /// What the boot record of an NTFS or ReFS volume chains to.
    pub loader: Option<&'static str>,
    /// The filesystem, where it could be opened.
    pub fs: Option<F>,
}

/// One partition that boots something, with the handle needed to read the
/// files its entries name.
pub struct PartitionBoot<F> {
    pub partition: Partition,
    /// Filesystem as detected: `"vfat"`, `"ext4"`, `"ntfs"`, ...
    pub fs_type: &'static str,
    /// Open handle, or `None` for a partition we could only sniff (NTFS):
    /// a Windows entry has no per-entry files to probe anyway.
    pub fs: Option<F>,
    pub scan: BootScan,
}

/// What a [`PartitionBoot`] says.
#[verifier::ext_equal]
pub struct PartView<F> {
    pub partition: PartitionView,
    pub fs_type: Seq<char>,
    pub fs: Option<F>,
    pub scan: ScanView,
}

impl<F> View for PartitionBoot<F> {
    type V = PartView<F>;

    open spec fn view(&self) -> PartView<F> {
        PartView {
            partition: self.partition@,
            fs_type: self.fs_type@,
            fs: self.fs,
            scan: self.scan@,
        }
    }
}

// ---------------------------------------------------------------------
// The walk
// ---------------------------------------------------------------------

/// What a walk has found so far.
#[verifier::ext_equal]
pub struct Found<F> {
    pub parts: Seq<PartView<F>>,
    pub evidence: Seq<Seq<char>>,
    pub boot_manager: Option<Seq<char>>,
    pub bcd: Option<Seq<char>>,
    pub arch: Option<Seq<char>>,
    /// NTFS volume that chains to bootmgr/ntldr.
    pub ntfs_loader: Option<int>,
    /// An NTFS/ReFS volume exists at all.
    pub volumes: bool,
    /// A Windows-only partition type.
    pub win_type: bool,
}

/// Partition types only Windows creates. "Microsoft basic data" is
/// deliberately absent: it is the generic "holds a filesystem" type and
/// says nothing on its own. `0x27` is MBR hidden NTFS: the recovery partition.
pub open spec fn is_windows_type(type_id: Seq<char>) -> bool {
    ||| type_id == gpt::MS_RESERVED@
    ||| type_id == gpt::WINDOWS_RECOVERY@
    ||| type_id == gpt::MS_LDM_METADATA@
    ||| type_id == gpt::MS_LDM_DATA@
    ||| type_id == gpt::MS_STORAGE_SPACES@
    ||| type_id == "0x27"@
}

/// `/EFI/Microsoft/Boot/bootmgfw.efi`, by component.
pub open spec fn boot_manager_parts() -> Seq<Seq<char>> {
    seq!["EFI"@, "Microsoft"@, "Boot"@, "bootmgfw.efi"@]
}

/// `/EFI/Microsoft/Boot/BCD`, by component.
pub open spec fn bcd_parts() -> Seq<Seq<char>> {
    seq!["EFI"@, "Microsoft"@, "Boot"@, "BCD"@]
}

/// A finding on a partition: `pN: what`.
pub open spec fn finding(part: int, what: Seq<char>) -> Seq<char> {
    "p"@ + dec(part as nat) + ": "@ + what
}

/// The first 4096 bytes of `d`, or all of it if it is shorter.
pub open spec fn start_of(d: Seq<u8>) -> Seq<u8> {
    if d.len() > 4096 {
        d.take(4096)
    } else {
        d
    }
}

/// What the type of a partition adds.
pub open spec fn with_type<F>(st: Found<F>, p: PartitionView) -> Found<F> {
    if is_windows_type(p.type_id) {
        Found {
            win_type: true,
            evidence: st.evidence.push(finding(p.index, p.kind + " partition"@)),
            ..st
        }
    } else {
        st
    }
}

/// What an NTFS or ReFS volume adds. Every Windows-formatted NTFS volume
/// carries boot code, data volumes included: it marks a BIOS boot path only
/// together with a Windows MBR bootstrap.
pub open spec fn with_volume<F>(
    st: Found<F>,
    p: PartitionView,
    fs_type: Seq<char>,
    loader: Option<Seq<char>>,
) -> Found<F> {
    Found {
        volumes: true,
        ntfs_loader: match loader {
            Some(_) => or(st.ntfs_loader, Some(p.index)),
            None => st.ntfs_loader,
        },
        evidence: st.evidence.push(
            finding(
                p.index,
                match loader {
                    Some(l) => fs_type + " volume, VBR chains to "@ + l,
                    None => fs_type + " volume"@,
                },
            ),
        ),
        parts: st.parts.push(PartView { partition: p, fs_type, fs: None, scan: empty_scan() }),
        ..st
    }
}

/// What a boot manager on a filesystem adds.
pub open spec fn with_manager<F: FileSystem>(st: Found<F>, p: PartitionView, fs: F) -> Found<F> {
    match path_from(&fs, seq![], boot_manager_parts()) {
        None => st,
        Some(path) => Found {
            evidence: st.evidence.push(finding(p.index, "Windows boot manager "@ + path)),
            arch: match st.arch {
                Some(_) => st.arch,
                None => match fs.file(path) {
                    Some(d) => arch_in(start_of(d)),
                    None => None,
                },
            },
            boot_manager: or(st.boot_manager, Some(uri_of(p.index as nat, path))),
            ..st
        },
    }
}

/// What a boot configuration store on a filesystem adds.
pub open spec fn with_bcd<F: FileSystem>(st: Found<F>, p: PartitionView, fs: F) -> Found<F> {
    match path_from(&fs, seq![], bcd_parts()) {
        None => st,
        Some(path) => Found {
            evidence: st.evidence.push(finding(p.index, "boot configuration store "@ + path)),
            bcd: or(st.bcd, Some(uri_of(p.index as nat, path))),
            ..st
        },
    }
}

/// What a filesystem that can be read adds.
pub open spec fn with_files<F: FileSystem>(
    st: Found<F>,
    p: PartitionView,
    fs_type: Seq<char>,
    fs: F,
    want_entries: bool,
) -> Found<F> {
    let st = with_bcd(with_manager(st, p, fs), p, fs);
    Found {
        parts: st.parts.push(
            PartView {
                partition: p,
                fs_type,
                fs: Some(fs),
                scan: if want_entries {
                    scan_of(&fs)
                } else {
                    empty_scan()
                },
            },
        ),
        ..st
    }
}

/// What a partition adds.
pub open spec fn with_partition<F: FileSystem>(st: Found<F>, p: Probed<F>, want_entries: bool) -> Found<
    F,
> {
    let st = with_type(st, p.partition@);
    match opt_str(p.fs_type) {
        None => st,
        Some(t) => if t == "ntfs"@ || t == "refs"@ {
            with_volume(st, p.partition@, t, opt_str(p.loader))
        } else if t == "ext4"@ || t == "vfat"@ {
            match p.fs {
                Some(fs) => with_files(st, p.partition@, t, fs, want_entries),
                None => st,
            }
        } else {
            st
        },
    }
}

/// What the walk starts with: the bootstrap code of the disk.
pub open spec fn start<F>(bootstrap: bool) -> Found<F> {
    Found {
        parts: seq![],
        evidence: if bootstrap {
            seq!["mbr: Windows bootstrap code"@]
        } else {
            seq![]
        },
        boot_manager: None,
        bcd: None,
        arch: None,
        ntfs_loader: None,
        volumes: false,
        win_type: false,
    }
}

/// What walking the partitions finds.
pub open spec fn walked<F: FileSystem>(bootstrap: bool, probed: Seq<Probed<F>>, want_entries: bool) -> Found<
    F,
>
    decreases probed.len(),
{
    if probed.len() == 0 {
        start(bootstrap)
    } else {
        with_partition(
            walked(bootstrap, probed.drop_last(), want_entries),
            probed.last(),
            want_entries,
        )
    }
}

/// Partition of a BIOS install's system volume. A BIOS install is Windows' own
/// MBR bootstrap chaining to an NTFS volume that loads bootmgr/ntldr. Either
/// half alone is too weak: the bootstrap survives an OS replacement, and the
/// VBR code ships with every Windows-formatted volume.
pub open spec fn bios_part<F>(st: Found<F>, bootstrap: bool) -> Option<int> {
    if bootstrap {
        st.ntfs_loader
    } else {
        None
    }
}

/// What starts the install, if there is a boot path.
pub open spec fn firmware_of<F>(st: Found<F>, bootstrap: bool) -> Option<Firmware> {
    match (st.boot_manager, bios_part(st, bootstrap)) {
        (Some(_), Some(_)) => Some(Firmware::Both),
        (Some(_), None) => Some(Firmware::Uefi),
        (None, Some(_)) => Some(Firmware::Bios),
        (None, None) => None,
    }
}

/// Enough to call it Windows: a boot path, a partition type only Windows
/// creates, its boot configuration store, or an NTFS/ReFS volume. (Not exFAT:
/// it is the interchange format of every camera and SD card, and says nothing
/// about the guest.)
pub open spec fn verdict<F>(st: Found<F>, bootstrap: bool) -> Option<WindowsView> {
    if firmware_of(st, bootstrap) is Some || st.win_type || st.bcd is Some || st.volumes {
        Some(
            WindowsView {
                firmware: firmware_of(st, bootstrap),
                boot_manager: st.boot_manager,
                bcd: st.bcd,
                arch: st.arch,
                evidence: st.evidence,
            },
        )
    } else {
        None
    }
}

/// Every filesystem among the partitions is stable.
pub open spec fn all_stable<F: FileSystem>(probed: Seq<Probed<F>>) -> bool {
    forall|i: int|
        0 <= i < probed.len() ==> ((#[trigger] probed[i]).fs matches Some(fs) ==> fs.stable())
}

/// A walk under way.
struct Walk<F> {
    parts: Vec<PartitionBoot<F>>,
    evidence: Vec<String>,
    boot_manager: Option<String>,
    bcd: Option<String>,
    arch: Option<&'static str>,
    ntfs_loader: Option<usize>,
    volumes: bool,
    win_type: bool,
}

impl<F> View for Walk<F> {
    type V = Found<F>;

    closed spec fn view(&self) -> Found<F> {
        Found {
            parts: views(self.parts@),
            evidence: views(self.evidence@),
            boot_manager: opt(self.boot_manager),
            bcd: opt(self.bcd),
            arch: opt_str(self.arch),
            ntfs_loader: index(self.ntfs_loader),
            volumes: self.volumes,
            win_type: self.win_type,
        }
    }
}

/// The default of a scan is one of its entries; there is one wherever there is
/// an entry.
pub open spec fn default_ok(scan: BootScan) -> bool {
    match scan.default {
        Some(d) => d < scan.entries@.len(),
        None => scan.entries@.len() == 0,
    }
}

/// Every scan's default is one of its entries.
pub open spec fn defaults_ok<F>(parts: Seq<PartitionBoot<F>>) -> bool {
    forall|i: int| 0 <= i < parts.len() ==> default_ok((#[trigger] parts[i]).scan)
}

/// Add a finding on a partition.
fn note(evidence: &mut Vec<String>, part: usize, a: &str, b: &str, c: &str)
    ensures
        views(final(evidence)@) == views(old(evidence)@).push(
            finding(part as int, a@ + b@ + c@),
        ),
{
    let mut out: String = String::new();
    out.append("p");
    push_dec(&mut out, part as u64);
    out.append(": ");
    out.append(a);
    out.append(b);
    out.append(c);
    assert(out@ =~= finding(part as int, a@ + b@ + c@));
    let ghost before = evidence@;
    let ghost line = out@;
    evidence.push(out);
    assert(views(evidence@) =~= views(before).push(line));
}

/// Whether only Windows creates partitions of this type.
fn windows_type(type_id: &str) -> (r: bool)
    ensures
        r == is_windows_type(type_id@),
{
    eq(type_id, gpt::MS_RESERVED) || eq(type_id, gpt::WINDOWS_RECOVERY) || eq(
        type_id,
        gpt::MS_LDM_METADATA,
    ) || eq(type_id, gpt::MS_LDM_DATA) || eq(type_id, gpt::MS_STORAGE_SPACES) || eq(type_id, "0x27")
}

impl<F: FileSystem> Walk<F> {
    closed spec fn wf(&self) -> bool {
        defaults_ok(self.parts@)
    }

    fn start(bootstrap: bool) -> (r: Walk<F>)
        ensures
            r@ == start::<F>(bootstrap),
            r.wf(),
    {
        let mut evidence: Vec<String> = Vec::new();
        if bootstrap {
            evidence.push("mbr: Windows bootstrap code".to_owned());
        }
        let r = Walk {
            parts: Vec::new(),
            evidence,
            boot_manager: None,
            bcd: None,
            arch: None,
            ntfs_loader: None,
            volumes: false,
            win_type: false,
        };
        assert(r@.evidence =~= start::<F>(bootstrap).evidence);
        assert(r@.parts =~= Seq::<PartView<F>>::empty());
        r
    }

    fn add_part(&mut self, p: PartitionBoot<F>)
        requires
            old(self).wf(),
            default_ok(p.scan),
        ensures
            final(self)@ == (Found { parts: old(self)@.parts.push(p@), ..old(self)@ }),
            final(self).wf(),
    {
        let ghost before = self.parts@;
        let ghost pv = p@;
        self.parts.push(p);
        assert(views(self.parts@) =~= views(before).push(pv));
    }

    fn see_type(&mut self, p: &Partition)
        requires
            old(self).wf(),
        ensures
            final(self)@ == with_type(old(self)@, p@),
            final(self).wf(),
    {
        if windows_type(p.type_id.as_str()) {
            self.win_type = true;
            note(&mut self.evidence, p.index, p.kind.as_str(), " partition", "");
            proof {
                reveal_strlit("");
                assert(p.kind@ + " partition"@ + ""@ =~= p.kind@ + " partition"@);
            }
        }
    }

    fn see_volume(&mut self, p: Partition, fs_type: &'static str, loader: Option<&'static str>)
        requires
            old(self).wf(),
        ensures
            final(self)@ == with_volume(old(self)@, p@, fs_type@, opt_str(loader)),
            final(self).wf(),
    {
        self.volumes = true;
        match loader {
            Some(l) => {
                if self.ntfs_loader.is_none() {
                    self.ntfs_loader = Some(p.index);
                }
                note(&mut self.evidence, p.index, fs_type, " volume, VBR chains to ", l);
            },
            None => {
                note(&mut self.evidence, p.index, fs_type, " volume", "");
                proof {
                    reveal_strlit("");
                    assert(fs_type@ + " volume"@ + ""@ =~= fs_type@ + " volume"@);
                }
            },
        }
        self.add_part(PartitionBoot { partition: p, fs_type, fs: None, scan: BootScan::default() });
    }

    fn see_manager(&mut self, p: &Partition, fs: &F)
        requires
            old(self).wf(),
        ensures
            fs.stable() ==> final(self)@ == with_manager(old(self)@, p@, *fs),
            final(self).wf(),
    {
        let parts: [&str; 4] = ["EFI", "Microsoft", "Boot", "bootmgfw.efi"];
        assert(views(parts@) =~= boot_manager_parts());
        if let Some(path) = find_path(fs, parts.as_slice()) {
            note(&mut self.evidence, p.index, "Windows boot manager ", path.as_str(), "");
            proof {
                reveal_strlit("");
                assert("Windows boot manager "@ + path@ + ""@ =~= "Windows boot manager "@ + path@);
            }
            if self.arch.is_none() {
                match fs.read_prefix(path.as_str(), 4096) {
                    Ok(head) => {
                        self.arch = pe_arch(head.as_slice());
                    },
                    Err(_) => {},
                }
            }
            if self.boot_manager.is_none() {
                self.boot_manager = Some(uri(p.index, path.as_str()));
            }
        }
    }

    fn see_bcd(&mut self, p: &Partition, fs: &F)
        requires
            old(self).wf(),
        ensures
            fs.stable() ==> final(self)@ == with_bcd(old(self)@, p@, *fs),
            final(self).wf(),
    {
        let parts: [&str; 4] = ["EFI", "Microsoft", "Boot", "BCD"];
        assert(views(parts@) =~= bcd_parts());
        if let Some(path) = find_path(fs, parts.as_slice()) {
            note(&mut self.evidence, p.index, "boot configuration store ", path.as_str(), "");
            proof {
                reveal_strlit("");
                assert("boot configuration store "@ + path@ + ""@ =~= "boot configuration store "@
                    + path@);
            }
            if self.bcd.is_none() {
                self.bcd = Some(uri(p.index, path.as_str()));
            }
        }
    }

    fn see_files(&mut self, p: Partition, fs_type: &'static str, fs: F, want_entries: bool)
        requires
            old(self).wf(),
        ensures
            fs.stable() ==> final(self)@ == with_files(
                old(self)@,
                p@,
                fs_type@,
                fs,
                want_entries,
            ),
            final(self).wf(),
    {
        self.see_manager(&p, &fs);
        self.see_bcd(&p, &fs);
        let found: BootScan = if want_entries {
            match scan(&fs) {
                Ok(s) => s,
                Err(_) => BootScan::default(),
            }
        } else {
            BootScan::default()
        };
        self.add_part(PartitionBoot { partition: p, fs_type, fs: Some(fs), scan: found });
    }

    fn see(&mut self, p: Probed<F>, want_entries: bool)
        requires
            old(self).wf(),
        ensures
            (p.fs matches Some(fs) ==> fs.stable()) ==> final(self)@ == with_partition(
                old(self)@,
                p,
                want_entries,
            ),
            final(self).wf(),
    {
        self.see_type(&p.partition);
        match p.fs_type {
            None => {},
            Some(t) => {
                if eq(t, "ntfs") || eq(t, "refs") {
                    self.see_volume(p.partition, t, p.loader);
                } else if eq(t, "ext4") || eq(t, "vfat") {
                    match p.fs {
                        Some(fs) => {
                            self.see_files(p.partition, t, fs, want_entries);
                        },
                        None => {},
                    }
                }
            },
        }
    }
}

/// One pass over the partitions: what every one of them is, and - with
/// `want_entries` - what the configs on it declare.
fn walk<F: FileSystem>(bootstrap: bool, probed: Vec<Probed<F>>, want_entries: bool) -> (r: Walk<F>)
    ensures
        all_stable(probed@) ==> r@ == walked(bootstrap, probed@, want_entries),
        r.wf(),
{
    let ghost all = probed@;
    let mut probed = probed;
    let mut w = Walk::<F>::start(bootstrap);
    let ghost mut n: int = 0;
    proof {
        assert(all.take(0) =~= Seq::<Probed<F>>::empty());
        assert(all.skip(0) =~= all);
    }
    while probed.len() > 0
        invariant
            0 <= n <= all.len(),
            probed@ == all.skip(n),
            w.wf(),
            all_stable(all) ==> w@ == walked(bootstrap, all.take(n), want_entries),
        decreases probed@.len(),
    {
        proof {
            assert(all.skip(n)[0] == all[n]);
            assert(all.take(n + 1).drop_last() =~= all.take(n));
            assert(all.take(n + 1).last() == all[n]);
        }
        let p = probed.remove(0);
        w.see(p, want_entries);
        proof {
            assert(probed@ =~= all.skip(n + 1));
            n = n + 1;
        }
    }
    assert(all.take(n) =~= all);
    w
}

impl<F: FileSystem> Walk<F> {
    fn bios_part(&self, bootstrap: bool) -> (r: Option<usize>)
        ensures
            index(r) == bios_part(self@, bootstrap),
    {
        if bootstrap {
            self.ntfs_loader
        } else {
            None
        }
    }

    /// Is it Windows?
    fn verdict(&self, bootstrap: bool) -> (r: Option<Windows>)
        ensures
            match r {
                Some(w) => verdict(self@, bootstrap) == Some(w@),
                None => verdict(self@, bootstrap) is None,
            },
    {
        let bios: Option<usize> = self.bios_part(bootstrap);
        let firmware: Option<Firmware> = if self.boot_manager.is_some() {
            if bios.is_some() {
                Some(Firmware::Both)
            } else {
                Some(Firmware::Uefi)
            }
        } else {
            if bios.is_some() {
                Some(Firmware::Bios)
            } else {
                None
            }
        };
        if firmware.is_some() || self.win_type || self.bcd.is_some() || self.volumes {
            let mut evidence: Vec<String> = Vec::new();
            let mut i: usize = 0;
            while i < self.evidence.len()
                invariant
                    i <= self.evidence@.len(),
                    views(evidence@) == views(self.evidence@).take(i as int),
                decreases self.evidence@.len() - i,
            {
                let ghost before = evidence@;
                evidence.push(self.evidence[i].clone());
                proof {
                    assert(views(self.evidence@).take(i + 1) =~= views(self.evidence@).take(
                        i as int,
                    ).push(self.evidence@[i as int]@));
                    assert(views(evidence@) =~= views(before).push(self.evidence@[i as int]@));
                }
                i = i + 1;
            }
            assert(views(self.evidence@).take(i as int) =~= views(self.evidence@));
            Some(
                Windows {
                    firmware,
                    boot_manager: opt_copy(&self.boot_manager),
                    bcd: opt_copy(&self.bcd),
                    arch: self.arch,
                    evidence,
                },
            )
        } else {
            None
        }
    }
}

/// The Windows evidence on its own - for explaining an image that boots
/// nothing, where a full [`bootable`] scan has already come up empty.
/// `bootstrap` says whether the disk starts with Windows' bootstrap code.
pub fn windows<F: FileSystem>(bootstrap: bool, probed: Vec<Probed<F>>) -> (r: Option<Windows>)
    ensures
        all_stable(probed@) ==> match verdict(walked(bootstrap, probed@, false), bootstrap) {
            Some(w) => r matches Some(x) && x@ == w,
            None => r is None,
        },
{
    let w = walk(bootstrap, probed, false);
    w.verdict(bootstrap)
}

// ---------------------------------------------------------------------
// The merged answer
// ---------------------------------------------------------------------

/// The path of the boot manager that was found.
pub open spec fn manager_path(win: Option<WindowsView>) -> Option<Seq<char>> {
    match win {
        Some(w) => match w.boot_manager {
            Some(u) => Some(path_in(u)),
            None => None,
        },
        None => None,
    }
}

/// The entry hands over to the boot manager that was found.
pub open spec fn claims(e: EntryView, win: Option<WindowsView>) -> bool {
    e.chainloader matches Some(target) && (manager_path(win) matches Some(bm) && is_same_file(
        target,
        bm,
    ))
}

/// A `chainloader` item is kept only if we can say what it starts: the boot
/// manager we found on the ESP. Anything else (another loader,
/// `chainloader +1`) goes, as a kernel-less entry always did.
pub open spec fn stays(e: EntryView, win: Option<WindowsView>) -> bool {
    e.chainloader is None || claims(e, win)
}

/// What starting the boot manager takes.
pub open spec fn start_of_windows(firmware: Firmware, win: WindowsView) -> WindowsBootView {
    WindowsBootView { firmware, arch: win.arch, loader: win.boot_manager }
}

/// The entry with what it starts filled in.
pub open spec fn resolved(e: EntryView, win: Option<WindowsView>) -> EntryView {
    if claims(e, win) {
        // it chainloads an EFI binary
        EntryView { windows: Some(start_of_windows(Firmware::Uefi, win->0)), ..e }
    } else {
        e
    }
}

/// The flag of each entry.
pub open spec fn staying(entries: Seq<EntryView>, win: Option<WindowsView>) -> Seq<bool> {
    Seq::new(entries.len(), |i: int| stays(entries[i], win))
}

/// The entries with what they start filled in.
pub open spec fn all_resolved(entries: Seq<EntryView>, win: Option<WindowsView>) -> Seq<EntryView> {
    Seq::new(entries.len(), |i: int| resolved(entries[i], win))
}

/// Some entry hands over to the boot manager.
pub open spec fn claimed(entries: Seq<EntryView>, win: Option<WindowsView>) -> bool {
    exists|i: int| 0 <= i < entries.len() && claims(#[trigger] entries[i], win)
}

/// A partition with its `chainloader` items resolved.
pub open spec fn settled<F>(p: PartView<F>, win: Option<WindowsView>) -> PartView<F> {
    let keep = staying(p.scan.entries, win);
    PartView {
        scan: ScanView {
            entries: kept(all_resolved(p.scan.entries, win), keep),
            default: moved_default(p.scan.default, keep),
            ..p.scan
        },
        ..p
    }
}

/// Every partition with its `chainloader` items resolved.
pub open spec fn all_settled<F>(parts: Seq<PartView<F>>, win: Option<WindowsView>) -> Seq<PartView<F>> {
    Seq::new(parts.len(), |i: int| settled(parts[i], win))
}

/// A config declares the boot manager.
pub open spec fn is_declared<F>(parts: Seq<PartView<F>>, win: Option<WindowsView>) -> bool {
    exists|i: int| 0 <= i < parts.len() && claimed((#[trigger] parts[i]).scan.entries, win)
}

/// The entry of an install that no config declares.
pub open spec fn windows_entry(firmware: Firmware, win: WindowsView) -> EntryView {
    EntryView {
        title: Some("Windows Boot Manager"@),
        id: Some("windows"@),
        windows: Some(start_of_windows(firmware, win)),
        ..blank_entry(Source::Windows)
    }
}

/// The partition that the entry goes on: that of the boot manager, else that
/// of the BIOS system volume.
pub open spec fn host_of(win: WindowsView, bios: Option<int>) -> Option<int> {
    or(
        match win.boot_manager {
            Some(u) => partition_in(u),
            None => None,
        },
        bios,
    )
}

/// The predicate "is the partition with this index".
pub open spec fn indexed<F>(n: int) -> spec_fn(PartView<F>) -> bool {
    |p: PartView<F>| p.partition.index == n
}

/// A partition with one more entry; the default, where there is none.
pub open spec fn with_entry<F>(p: PartView<F>, e: EntryView) -> PartView<F> {
    PartView {
        scan: ScanView {
            entries: p.scan.entries.push(e),
            default: or(p.scan.default, Some(p.scan.entries.len() as int)),
            ..p.scan
        },
        ..p
    }
}

/// Nothing declared it, but it is there and bootable: add the entry.
pub open spec fn with_windows<F>(parts: Seq<PartView<F>>, win: WindowsView, bios: Option<int>) -> Seq<
    PartView<F>,
> {
    match (win.firmware, host_of(win, bios)) {
        (Some(firmware), Some(n)) => match position(parts, indexed(n)) {
            Some(k) => parts.update(k, with_entry(parts[k], windows_entry(firmware, win))),
            None => parts,
        },
        _ => parts,
    }
}

/// The partitions that boot something.
pub open spec fn booting<F>(parts: Seq<PartView<F>>) -> Seq<PartView<F>>
    decreases parts.len(),
{
    if parts.len() == 0 {
        seq![]
    } else if parts.last().scan.entries.len() > 0 {
        booting(parts.drop_last()).push(parts.last())
    } else {
        booting(parts.drop_last())
    }
}

/// The merged answer.
pub open spec fn merged<F>(st: Found<F>, bootstrap: bool) -> Seq<PartView<F>> {
    let win = verdict(st, bootstrap);
    let parts = all_settled(st.parts, win);
    booting(
        if win is Some && !is_declared(st.parts, win) {
            with_windows(parts, win->0, bios_part(st, bootstrap))
        } else {
            parts
        },
    )
}

/// What an optional verdict says.
spec fn win_view(win: Option<Windows>) -> Option<WindowsView> {
    match win {
        Some(w) => Some(w@),
        None => None,
    }
}

/// The path of the boot manager that was found.
fn manager(win: &Option<Windows>) -> (r: Option<String>)
    ensures
        opt(r) == manager_path(win_view(*win)),
{
    match win {
        Some(w) => match &w.boot_manager {
            Some(u) => Some(path_of(u.as_str())),
            None => None,
        },
        None => None,
    }
}

/// What starting the boot manager takes.
fn windows_start(firmware: Firmware, win: &Windows) -> (r: WindowsBoot)
    ensures
        r@ == start_of_windows(firmware, win@),
{
    WindowsBoot { firmware, arch: win.arch, loader: opt_copy(&win.boot_manager) }
}

/// Resolve the `chainloader` items of a partition: its entries with what they
/// start filled in, the flags of those that stay, and whether one of them is
/// the boot manager.
fn resolve(entries: Vec<BootEntry>, win: &Option<Windows>) -> (r: (Vec<BootEntry>, Vec<bool>, bool))
    ensures
        views(r.0@) == all_resolved(views(entries@), win_view(*win)),
        r.0@.len() == entries@.len(),
        r.1@ == staying(views(entries@), win_view(*win)),
        r.2 == claimed(views(entries@), win_view(*win)),
{
    let ghost all = views(entries@);
    let ghost wv = win_view(*win);
    let bm = manager(win);
    let mut entries = entries;
    let n: usize = entries.len();
    let mut out: Vec<BootEntry> = Vec::new();
    let mut keep: Vec<bool> = Vec::new();
    let mut declared: bool = false;
    let mut i: usize = 0;
    assert(views(out@) =~= all_resolved(all, wv).take(0));
    assert(views(entries@) =~= all.skip(0));
    while i < n
        invariant
            i <= n,
            n == all.len(),
            entries@.len() == n - i,
            views(entries@) == all.skip(i as int),
            wv == win_view(*win),
            opt(bm) == manager_path(wv),
            views(out@) == all_resolved(all, wv).take(i as int),
            out@.len() == i,
            keep@ == staying(all, wv).take(i as int),
            declared <==> exists|j: int| 0 <= j < i && claims(#[trigger] all[j], wv),
        decreases n - i,
    {
        proof {
            assert(all.skip(i as int)[0] == all[i as int]);
            assert(views(entries@)[0] == entries@[0]@);
        }
        let ghost before_entries = views(entries@);
        let ghost before_out = out@;
        let ghost was = declared;
        let mut e = entries.remove(0);
        let ghost ev = e@;
        let mine: bool = match (&e.chainloader, &bm) {
            (Some(target), Some(path)) => same_file(target.as_str(), path.as_str()),
            _ => false,
        };
        assert(mine == claims(ev, wv));
        let stay: bool = e.chainloader.is_none() || mine;
        if mine {
            if let Some(w) = win {
                e.windows = Some(windows_start(Firmware::Uefi, w));
            }
            declared = true;
        }
        let ghost rv = e@;
        assert(rv == resolved(ev, wv));
        out.push(e);
        keep.push(stay);
        proof {
            assert(views(entries@) =~= before_entries.skip(1));
            assert(before_entries.skip(1) =~= all.skip(i + 1));
            assert(views(out@) =~= views(before_out).push(rv));
            assert(all_resolved(all, wv).take(i + 1) =~= all_resolved(all, wv).take(i as int).push(
                rv,
            ));
            assert(staying(all, wv).take(i + 1) =~= staying(all, wv).take(i as int).push(stay));
            if mine {
                assert(claims(all[i as int], wv));
            } else if was {
                let j = choose|j: int| 0 <= j < i && claims(#[trigger] all[j], wv);
                assert(claims(all[j], wv));
            }
        }
        i = i + 1;
    }
    assert(all_resolved(all, wv).take(i as int) =~= all_resolved(all, wv));
    assert(staying(all, wv).take(i as int) =~= staying(all, wv));
    (out, keep, declared)
}

/// Resolve the `chainloader` items of a partition, and say whether one of them
/// is the boot manager.
fn settle<F>(p: PartitionBoot<F>, win: &Option<Windows>) -> (r: (PartitionBoot<F>, bool))
    requires
        default_ok(p.scan),
    ensures
        r.0@ == settled(p@, win_view(*win)),
        default_ok(r.0.scan),
        r.1 == claimed(p@.scan.entries, win_view(*win)),
{
    let PartitionBoot { partition, fs_type, fs, scan } = p;
    let BootScan { entries, default, configs } = scan;
    let (entries, keep, declared) = resolve(entries, win);
    let (entries, default) = retain(entries, default, &keep);
    (
        PartitionBoot { partition, fs_type, fs, scan: BootScan { entries, default, configs } },
        declared,
    )
}

/// Resolve the `chainloader` items of every partition.
fn settle_all<F>(parts: Vec<PartitionBoot<F>>, win: &Option<Windows>) -> (r: (
    Vec<PartitionBoot<F>>,
    bool,
))
    requires
        defaults_ok(parts@),
    ensures
        views(r.0@) == all_settled(views(parts@), win_view(*win)),
        defaults_ok(r.0@),
        r.1 == is_declared(views(parts@), win_view(*win)),
{
    let ghost orig = parts@;
    let ghost all = views(parts@);
    let ghost wv = win_view(*win);
    let mut parts = parts;
    let n: usize = parts.len();
    let mut out: Vec<PartitionBoot<F>> = Vec::new();
    let mut declared: bool = false;
    let mut i: usize = 0;
    assert(views(out@) =~= all_settled(all, wv).take(0));
    assert(parts@ =~= orig.skip(0));
    while i < n
        invariant
            i <= n,
            n == all.len(),
            n == orig.len(),
            all == views(orig),
            parts@ == orig.skip(i as int),
            defaults_ok(orig),
            defaults_ok(out@),
            wv == win_view(*win),
            views(out@) == all_settled(all, wv).take(i as int),
            declared <==> exists|j: int| 0 <= j < i && claimed((#[trigger] all[j]).scan.entries, wv),
        decreases n - i,
    {
        proof {
            assert(orig.skip(i as int)[0] == orig[i as int]);
            assert(all[i as int] == orig[i as int]@);
            assert(default_ok(orig[i as int].scan));
        }
        let ghost before_out = out@;
        let ghost was = declared;
        let p = parts.remove(0);
        let (q, mine) = settle(p, win);
        if mine {
            declared = true;
        }
        let ghost qv = q@;
        out.push(q);
        proof {
            assert(parts@ =~= orig.skip(i + 1));
            assert(views(out@) =~= views(before_out).push(qv));
            assert(all_settled(all, wv).take(i + 1) =~= all_settled(all, wv).take(i as int).push(qv));
            if mine {
                assert(claimed(all[i as int].scan.entries, wv));
            } else if was {
                let j = choose|j: int| 0 <= j < i && claimed((#[trigger] all[j]).scan.entries, wv);
                assert(claimed(all[j].scan.entries, wv));
            }
        }
        i = i + 1;
    }
    assert(all_settled(all, wv).take(i as int) =~= all_settled(all, wv));
    (out, declared)
}

/// The entry of an install that no config declares.
fn new_entry(firmware: Firmware, win: &Windows) -> (r: BootEntry)
    ensures
        r@ == windows_entry(firmware, win@),
{
    let mut e = BootEntry::blank(Source::Windows);
    e.title = Some("Windows Boot Manager".to_owned());
    e.id = Some("windows".to_owned());
    e.windows = Some(windows_start(firmware, win));
    e
}

/// Add the entry of an install to the partition that it goes on.
fn add_windows<F>(parts: Vec<PartitionBoot<F>>, win: &Windows, bios: Option<usize>) -> (r: Vec<
    PartitionBoot<F>,
>)
    requires
        defaults_ok(parts@),
    ensures
        views(r@) == with_windows(views(parts@), win@, index(bios)),
        defaults_ok(r@),
{
    let firmware = match win.firmware {
        Some(f) => f,
        None => {
            return parts;
        },
    };
    let on_manager: Option<usize> = match &win.boot_manager {
        Some(u) => uri_partition(u.as_str()),
        None => None,
    };
    let host: Option<usize> = match on_manager {
        Some(n) => Some(n),
        None => bios,
    };
    let n: usize = match host {
        Some(n) => n,
        None => {
            return parts;
        },
    };
    let test = |p: &PartitionBoot<F>| -> (b: bool)
        ensures
            b == indexed::<F>(n as int)(p@)
    { p.partition.index == n };
    let k: usize = match position_by(&parts, test, Ghost(indexed::<F>(n as int))) {
        Some(k) => k,
        None => {
            return parts;
        },
    };
    let ghost all = views(parts@);
    let ghost before = parts@;
    let mut parts = parts;
    let mut p = parts.remove(k);
    let ghost pv = p@;
    assert(pv == all[k as int]);
    let e = new_entry(firmware, win);
    let ghost ev = e@;
    // Nothing else on that partition boots, so it is the default.
    if p.scan.default.is_none() {
        p.scan.default = Some(p.scan.entries.len());
    }
    let ghost entries = p.scan.entries@;
    p.scan.entries.push(e);
    proof {
        assert(views(p.scan.entries@) =~= views(entries).push(ev));
        assert(p@ =~= with_entry(pv, ev));
    }
    parts.insert(k, p);
    proof {
        assert(views(parts@) =~= all.update(k as int, with_entry(pv, ev)));
    }
    parts
}

/// Leave out the partitions that boot nothing.
fn drop_empty<F>(parts: Vec<PartitionBoot<F>>) -> (r: Vec<PartitionBoot<F>>)
    requires
        defaults_ok(parts@),
    ensures
        views(r@) == booting(views(parts@)),
        defaults_ok(r@),
{
    let ghost orig = parts@;
    let ghost all = views(parts@);
    let mut parts = parts;
    let n: usize = parts.len();
    let mut out: Vec<PartitionBoot<F>> = Vec::new();
    let mut i: usize = 0;
    proof {
        assert(views(out@) =~= Seq::<PartView<F>>::empty());
        assert(all.take(0) =~= Seq::<PartView<F>>::empty());
        assert(parts@ =~= orig.skip(0));
    }
    while i < n
        invariant
            i <= n,
            n == orig.len(),
            all == views(orig),
            parts@ == orig.skip(i as int),
            views(out@) == booting(all.take(i as int)),
            defaults_ok(orig),
            defaults_ok(out@),
        decreases n - i,
    {
        proof {
            assert(orig.skip(i as int)[0] == orig[i as int]);
            assert(all[i as int] == orig[i as int]@);
            assert(all.take(i + 1).drop_last() =~= all.take(i as int));
            assert(all.take(i + 1).last() == all[i as int]);
        }
        let p = parts.remove(0);
        let ghost pv = p@;
        let ghost before = out@;
        if p.scan.entries.len() > 0 {
            assert(pv.scan.entries.len() > 0);
            out.push(p);
            assert(views(out@) =~= views(before).push(pv));
        } else {
            assert(pv.scan.entries.len() == 0);
        }
        assert(parts@ =~= orig.skip(i + 1));
        i = i + 1;
    }
    assert(all.take(i as int) =~= all);
    out
}

/// Every partition that boots something: the entries its configs declare,
/// plus the Windows install as an entry of its own. Partitions that boot
/// nothing are left out, so an empty result means the image boots nothing
/// we understand - ask [`windows`] why. `bootstrap` says whether the disk
/// starts with Windows' bootstrap code.
pub fn bootable<F: FileSystem>(bootstrap: bool, probed: Vec<Probed<F>>) -> (r: Vec<PartitionBoot<F>>)
    ensures
        all_stable(probed@) ==> views(r@) == merged(walked(bootstrap, probed@, true), bootstrap),
        defaults_ok(r@),
{
    let w = walk(bootstrap, probed, true);
    let ghost st = w@;
    let win = w.verdict(bootstrap);
    let bios: Option<usize> = w.bios_part(bootstrap);
    let (parts, declared) = settle_all(w.parts, &win);
    let parts = if declared {
        parts
    } else {
        match &win {
            Some(x) => add_windows(parts, x, bios),
            None => parts,
        }
    };
    drop_empty(parts)
}

/// Partitions that boot nothing are left out.
pub proof fn law_every_partition_boots_something<F>(st: Found<F>, bootstrap: bool, i: int)
    requires
        0 <= i < merged(st, bootstrap).len(),
    ensures
        merged(st, bootstrap)[i].scan.entries.len() > 0,
{
    let win = verdict(st, bootstrap);
    let parts = all_settled(st.parts, win);
    lemma_booting(
        if win is Some && !is_declared(st.parts, win) {
            with_windows(parts, win->0, bios_part(st, bootstrap))
        } else {
            parts
        },
        i,
    );
}

proof fn lemma_booting<F>(parts: Seq<PartView<F>>, i: int)
    requires
        0 <= i < booting(parts).len(),
    ensures
        booting(parts)[i].scan.entries.len() > 0,
        exists|j: int| 0 <= j < parts.len() && parts[j] == booting(parts)[i],
    decreases parts.len(),
{
    let before = booting(parts.drop_last());
    if i < before.len() {
        lemma_booting(parts.drop_last(), i);
        let j = choose|j: int|
            0 <= j < parts.drop_last().len() && parts.drop_last()[j] == before[i];
        assert(parts[j] == booting(parts)[i]);
    } else {
        assert(parts[parts.len() - 1] == booting(parts)[i]);
    }
}

/// Windows volumes with no boot path at all are an attached data disk: they
/// produce no entry.
pub proof fn law_data_disk_adds_no_entry<F>(st: Found<F>, bootstrap: bool)
    requires
        firmware_of(st, bootstrap) is None,
    ensures
        merged(st, bootstrap) == booting(all_settled(st.parts, verdict(st, bootstrap))),
{
}

/// A `chainloader` item that is kept says what it starts.
pub proof fn law_kept_chainloaders_are_resolved<F>(p: PartView<F>, win: Option<WindowsView>, i: int)
    requires
        0 <= i < settled(p, win).scan.entries.len(),
        settled(p, win).scan.entries[i].chainloader is Some,
    ensures
        settled(p, win).scan.entries[i].windows is Some,
        claims(settled(p, win).scan.entries[i], win),
{
    let keep = staying(p.scan.entries, win);
    let all = all_resolved(p.scan.entries, win);
    crate::boot::stale::lemma_kept_from(all, keep, i);
    let j = choose|j: int| 0 <= j < all.len() && keep[j] && all[j] == kept(all, keep)[i];
    assert(stays(p.scan.entries[j], win));
}

/// A bootable install that no config declares gets an entry, where the
/// partition it goes on is one of those that were walked.
pub proof fn law_undeclared_windows_gets_an_entry<F>(st: Found<F>, bootstrap: bool, k: int)
    requires
        verdict(st, bootstrap) is Some,
        !is_declared(st.parts, verdict(st, bootstrap)),
        firmware_of(st, bootstrap) is Some,
        0 <= k < st.parts.len(),
        host_of(verdict(st, bootstrap)->0, bios_part(st, bootstrap)) == Some(
            st.parts[k].partition.index,
        ),
    ensures
        exists|i: int, e: int|
            0 <= i < merged(st, bootstrap).len() && 0 <= e < merged(st, bootstrap)[i].scan.entries.len()
                && #[trigger] merged(st, bootstrap)[i].scan.entries[e] == windows_entry(
                firmware_of(st, bootstrap)->0,
                verdict(st, bootstrap)->0,
            ),
{
    let win = verdict(st, bootstrap);
    let parts = all_settled(st.parts, win);
    let n = st.parts[k].partition.index;
    lemma_position(parts, indexed(n));
    assert(indexed(n)(parts[k]));
    let at = position(parts, indexed(n))->0;
    let more = with_windows(parts, win->0, bios_part(st, bootstrap));
    let e = parts[at].scan.entries.len() as int;
    let w = windows_entry(firmware_of(st, bootstrap)->0, win->0);
    assert(more[at].scan.entries[e] == w);
    let i = lemma_booting_has(more, at);
    assert(merged(st, bootstrap)[i].scan.entries[e] == w);
}

proof fn lemma_booting_has<F>(parts: Seq<PartView<F>>, k: int) -> (i: int)
    requires
        0 <= k < parts.len(),
        parts[k].scan.entries.len() > 0,
    ensures
        0 <= i < booting(parts).len(),
        booting(parts)[i] == parts[k],
    decreases parts.len(),
{
    if k == parts.len() - 1 {
        booting(parts).len() - 1
    } else {
        lemma_booting_has(parts.drop_last(), k)
    }
}

} // verus!
