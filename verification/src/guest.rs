//! Find the boot entries no bootloader config declares - today, a
//! **Windows** install.
//!
//! [`boot::scan`](crate::boot::scan) reads one filesystem and finds what
//! the configs on it describe. That misses a whole class of bootable
//! image: Windows keeps its system files on NTFS (which we deliberately
//! don't read) and, on a Windows-only image, no config file mentions it at
//! all. Such an image would look empty - indistinguishable from a Linux
//! one whose `/boot` we failed to parse.
//!
//! So this module walks the *partitions of a disk* rather than a filesystem,
//! and produces the merged answer [`bootable`]: every partition that boots
//! something, Linux entries as the configs describe them, plus Windows folded
//! in as an entry of its own. A Windows entry carries what starting it takes -
//! firmware, architecture, boot manager - in place of a kernel. [`survey`]
//! looks at the disk; the caller opens the filesystems, and hands over what it
//! found as [`Probed`] partitions.
//!
//! It comes from one of two places:
//!
//! * a **`chainloader` menu item** in an existing config: os-prober writes
//!   one per foreign OS, so a dual-boot GRUB menu already declares Windows
//!   and even says whether it is the default. The target is resolved here
//!   against the boot manager actually on the ESP;
//! * **detection**, when nothing declares it - the usual Windows-only
//!   image. What it keys on, all of it readable without touching NTFS:
//!   - the **ESP** is FAT: `/EFI/Microsoft/Boot/bootmgfw.efi` is the
//!     Windows boot manager and settles it, and its PE header gives the
//!     architecture, i.e. which firmware build the VMM needs;
//!   - **partition types** only Windows creates: Microsoft Reserved,
//!     Windows recovery, LDM, Storage Spaces;
//!   - **filesystem magic**: an NTFS or ReFS volume;
//!   - **boot code**: Windows' own MBR bootstrap chaining to an NTFS
//!     volume boot record that loads `BOOTMGR`/`NTLDR` - a BIOS install.
//!
//! [`Windows::evidence`] lists everything a verdict rests on, so it can be
//! judged rather than trusted. Windows volumes with no boot path at all
//! (`firmware: None`) are an attached data disk, not a guest: they produce
//! no entry, only an explanation for why the image boots nothing.

pub mod survey;
pub mod survey_laws;
pub mod walk;
pub mod walk_laws;

pub use crate::guest::survey::{survey, Survey};
pub use crate::guest::walk::{bootable, windows, PartitionBoot, Probed};

use crate::blockdev::{read_vec, reads, ReadAt};
use crate::boot::{opt_str, Firmware};
use crate::bytes::{contains, lemma_spans, occurs};
use crate::fsys::{DirEntry, DirEntryView, FileSystem};
use crate::kernel::{mz_magic, number_at, pe_magic, piece};
use crate::part::TableKind;
use crate::seqs::{index, lemma_position, position, position_by, views};
use crate::text::number::{dec, parse_unsigned, parse_usize, push_dec};
use crate::text::split::{
    after_last, after_prefix, cut, split_once, strip_prefix, tail_after, trim_start_char,
    trimmed_start_char,
};
use crate::text::{chars, lemma_lower_joins, lower, opt, same, same_but_case, string, to_lower};
use vstd::prelude::*;
use vstd::slice::slice_subrange;
use vstd::string::*;

verus! {

broadcast use vstd::seq_lib::group_seq_properties;

/// A Windows install, as seen from outside its filesystems.
#[derive(Debug, Clone)]
pub struct Windows {
    /// `None` when Windows volumes were found but no boot path - an
    /// attached data disk rather than a bootable guest.
    pub firmware: Option<Firmware>,
    /// URI of the UEFI boot manager, `pN:/EFI/Microsoft/Boot/bootmgfw.efi`.
    pub boot_manager: Option<String>,
    /// URI of the UEFI boot configuration store (`BCD`), when present.
    pub bcd: Option<String>,
    /// Architecture from the boot manager's PE header: `x86_64`,
    /// `aarch64`, `i386` or `arm`. `None` when there is no boot manager to
    /// read (a BIOS install's loader lives on unreadable NTFS).
    pub arch: Option<&'static str>,
    /// Everything the verdict rests on, one line per finding.
    pub evidence: Vec<String>,
}

/// What a [`Windows`] says.
#[verifier::ext_equal]
pub struct WindowsView {
    pub firmware: Option<Firmware>,
    pub boot_manager: Option<Seq<char>>,
    pub bcd: Option<Seq<char>>,
    pub arch: Option<Seq<char>>,
    pub evidence: Seq<Seq<char>>,
}

impl View for Windows {
    type V = WindowsView;

    open spec fn view(&self) -> WindowsView {
        WindowsView {
            firmware: self.firmware,
            boot_manager: opt(self.boot_manager),
            bcd: opt(self.bcd),
            arch: opt_str(self.arch),
            evidence: views(self.evidence@),
        }
    }
}

impl Default for Windows {
    fn default() -> (r: Windows)
        ensures
            r@ == (WindowsView {
                firmware: None,
                boot_manager: None,
                bcd: None,
                arch: None,
                evidence: seq![],
            }),
    {
        let r = Windows {
            firmware: None,
            boot_manager: None,
            bcd: None,
            arch: None,
            evidence: Vec::new(),
        };
        assert(r@.evidence =~= Seq::<Seq<char>>::empty());
        r
    }
}

impl Windows {
    /// One-line description for diagnostics: `"uefi, x86_64"`.
    pub fn summary(&self) -> (r: String)
        ensures
            r@ == ({
                let firmware = match self@.firmware {
                    Some(f) => f.name(),
                    None => "no boot manager found"@,
                };
                match self@.arch {
                    Some(arch) => firmware + ", "@ + arch,
                    None => firmware,
                }
            }),
    {
        let mut out: String = String::new();
        out.append(
            match &self.firmware {
                Some(f) => f.label(),
                None => "no boot manager found",
            },
        );
        if let Some(arch) = self.arch {
            out.append(", ");
            out.append(arch);
        }
        out
    }
}

// ---------------------------------------------------------------------
// URIs and paths
// ---------------------------------------------------------------------

/// `pN:/path`.
pub open spec fn uri_of(part: nat, path: Seq<char>) -> Seq<char> {
    "p"@ + dec(part) + ":"@ + path
}

/// The URI of a path on a partition: `pN:/path`.
pub fn uri(part: usize, path: &str) -> (r: String)
    ensures
        r@ == uri_of(part as nat, path@),
{
    let mut out: String = String::new();
    out.append("p");
    push_dec(&mut out, part as u64);
    out.append(":");
    out.append(path);
    assert(out@ =~= uri_of(part as nat, path@));
    out
}

/// The partition index of a `pN:/path` URI.
pub open spec fn partition_in(uri: Seq<char>) -> Option<int> {
    match strip_prefix(uri, "p"@) {
        None => None,
        Some(rest) => match split_once(rest, ':') {
            None => None,
            Some((n, _)) => parse_unsigned(n, 10, usize::MAX as int),
        },
    }
}

/// Partition index of a `pN:/path` URI.
pub fn uri_partition(uri: &str) -> (r: Option<usize>)
    ensures
        index(r) == partition_in(uri@),
{
    let c = chars(uri);
    match after_prefix(c.as_slice(), "p") {
        None => None,
        Some(rest) => match cut(rest, ':') {
            None => None,
            Some((n, _)) => parse_usize(n),
        },
    }
}

/// The path half of a `pN:/path` URI.
pub open spec fn path_in(uri: Seq<char>) -> Seq<char> {
    match split_once(uri, ':') {
        Some((_, path)) => path,
        None => uri,
    }
}

/// Path half of a `pN:/path` URI.
pub fn path_of(uri: &str) -> (r: String)
    ensures
        r@ == path_in(uri@),
{
    let c = chars(uri);
    match cut(c.as_slice(), ':') {
        Some((_, path)) => string(path),
        None => uri.to_owned(),
    }
}

/// A URI splits at the colon behind the number of its partition.
pub proof fn lemma_uri_splits(part: nat, path: Seq<char>)
    requires
        part <= usize::MAX,
    ensures
        strip_prefix(uri_of(part, path), "p"@) == Some(uri_of(part, path).skip(1)),
        split_once(uri_of(part, path).skip(1), ':') == Some((dec(part), path)),
        parse_unsigned(dec(part), 10, usize::MAX as int) == Some(part as int),
{
    reveal_strlit("p");
    reveal_strlit(":");
    let n = dec(part);
    let k = n.len() as int;
    let u = uri_of(part, path);
    crate::text::number::lemma_dec_reads_back(part);
    let colon = crate::text::eq_to(':');
    let rest = u.skip(1);
    assert(rest =~= n + seq![':'] + path);
    assert(u.take(1) =~= "p"@);
    assert forall|j: int| 0 <= j < k implies !colon(#[trigger] rest[j]) by {
        assert(rest[j] == n[j]);
    }
    assert(colon(rest[k]));
    crate::text::lemma_first_is(rest, colon, k);
    assert(rest.take(k) =~= n);
    assert(rest.skip(k + 1) =~= path);
}

/// A URI says which partition and which path it was made of.
pub proof fn law_uri_round_trips(part: nat, path: Seq<char>)
    requires
        part <= usize::MAX,
    ensures
        partition_in(uri_of(part, path)) == Some(part as int),
        path_in(uri_of(part, path)) == path,
{
    reveal_strlit("p");
    reveal_strlit(":");
    lemma_uri_splits(part, path);
    let n = dec(part);
    let k = n.len() as int;
    let u = uri_of(part, path);
    let colon = crate::text::eq_to(':');
    let rest = u.skip(1);
    assert(rest =~= n + seq![':'] + path);
    crate::text::number::lemma_dec_reads_back(part);
    assert forall|j: int| 0 <= j < k + 1 implies !colon(#[trigger] u[j]) by {
        if j > 0 {
            assert(u[j] == rest[j - 1]);
        }
    }
    assert(u[k + 1] == ':') by {
        assert(u[k + 1] == rest[k]);
    }
    crate::text::lemma_first_is(u, colon, k + 1);
    assert(u.skip(k + 2) =~= path);
}

/// `c`, or `/` for a backslash.
pub open spec fn slash_char(c: char) -> char {
    if c == '\\' {
        '/'
    } else {
        c
    }
}

/// `s` with `/` for every backslash.
pub open spec fn slashed(s: Seq<char>) -> Seq<char> {
    Seq::new(s.len(), |i: int| slash_char(s[i]))
}

/// A config path in the form it is compared in.
pub open spec fn norm(s: Seq<char>) -> Seq<char> {
    lower(trim_start_char(slashed(s), '/'))
}

/// Two config paths name the same file.
pub open spec fn is_same_file(a: Seq<char>, b: Seq<char>) -> bool {
    norm(a) == norm(b) || after_last(norm(a), '/') == after_last(norm(b), '/')
}

fn normalized(s: &str) -> (r: Vec<char>)
    ensures
        r@ == norm(s@),
{
    let c = chars(s);
    let mut out: Vec<char> = Vec::new();
    let mut i: usize = 0;
    while i < c.len()
        invariant
            i <= c@.len(),
            out@ == slashed(c@.take(i as int)),
        decreases c@.len() - i,
    {
        let x: char = if c[i] == '\\' {
            '/'
        } else {
            c[i]
        };
        out.push(x);
        i = i + 1;
        assert(out@ =~= slashed(c@.take(i as int)));
    }
    assert(c@.take(i as int) =~= c@);
    to_lower(trimmed_start_char(out.as_slice(), '/'))
}

/// Do two config paths name the same file? Compared case-insensitively
/// (the ESP is FAT), with `\` accepted for `/`, and by base name too: a
/// config may reach the boot manager by a path we spell differently.
pub fn same_file(a: &str, b: &str) -> (r: bool)
    ensures
        r == is_same_file(a@, b@),
{
    let x = normalized(a);
    let y = normalized(b);
    same(x.as_slice(), y.as_slice()) || same(
        tail_after(x.as_slice(), '/'),
        tail_after(y.as_slice(), '/'),
    )
}

/// Paths are compared without regard to case.
pub proof fn law_case_does_not_matter(a: Seq<char>, b: Seq<char>)
    requires
        lower(slashed(a)) == lower(slashed(b)),
    ensures
        is_same_file(a, b),
{
    let x = slashed(a);
    let y = slashed(b);
    assert(x.len() == lower(x).len());
    assert forall|i: int| 0 <= i < x.len() implies (#[trigger] x[i] == '/') == (y[i] == '/') by {
        assert(lower(x)[i] == lower(y)[i]);
    }
    let p = crate::text::not_eq_to('/');
    crate::text::lemma_first(x, p);
    crate::text::lemma_first(y, p);
    let n = crate::text::first(x, p) as int;
    assert forall|j: int| 0 <= j < n implies !p(#[trigger] y[j]) by {
        assert(!p(x[j]));
    }
    if n < y.len() {
        assert(p(x[n]));
        assert(p(y[n]));
    }
    crate::text::lemma_first_is(y, p, n);
    assert(norm(a) =~= norm(b)) by {
        assert forall|i: int| 0 <= i < norm(a).len() implies norm(a)[i] == norm(b)[i] by {
            assert(lower(x)[n + i] == lower(y)[n + i]);
        }
    }
}

/// The predicate "is called like this, whatever the case".
pub open spec fn called(name: Seq<char>) -> spec_fn(DirEntryView) -> bool {
    |e: DirEntryView| lower(e.name) == lower(name)
}

/// The path of the parts `parts`, as they are spelled here.
pub open spec fn spelled(parts: Seq<Seq<char>>) -> Seq<char>
    decreases parts.len(),
{
    if parts.len() == 0 {
        seq![]
    } else {
        spelled(parts.drop_last()) + "/"@ + parts.last()
    }
}

/// The path that `parts` lead to from `path` on, one component at a time, as
/// it is spelled on disk.
pub open spec fn path_from<F: FileSystem + ?Sized>(
    fs: &F,
    path: Seq<char>,
    parts: Seq<Seq<char>>,
) -> Option<Seq<char>>
    decreases parts.len(),
{
    if parts.len() == 0 {
        Some(path)
    } else {
        match fs.listing(
            if path.len() == 0 {
                "/"@
            } else {
                path
            },
        ) {
            None => None,
            Some(l) => match position(l, called(parts[0])) {
                None => None,
                Some(i) => path_from(fs, path + "/"@ + l[i].name, parts.drop_first()),
            },
        }
    }
}

/// Resolve `/a/b/c` one component at a time, ignoring case. FAT lookups
/// are case-insensitive already, but the walk also covers an ESP read
/// through another backend, and image builders vary the spelling (`EFI` /
/// `efi`, `Boot` / `boot`). Returns the path as actually spelled on disk, which
/// is that of the parts but for case.
pub fn find_path<F: FileSystem + ?Sized>(fs: &F, parts: &[&str]) -> (r: Option<String>)
    ensures
        r matches Some(path) ==> lower(path@) == lower(spelled(views(parts@))),
        parts@.len() == 0 ==> r is Some,
        fs.stable() ==> opt(r) == path_from(fs, seq![], views(parts@)),
{
    let ghost all = views(parts@);
    let mut path: String = String::new();
    let mut i: usize = 0;
    proof {
        assert(path@ =~= Seq::<char>::empty());
        assert(all.skip(0) =~= all);
    }
    let mut empty: bool = true;
    while i < parts.len()
        invariant
            i <= parts@.len(),
            all == views(parts@),
            empty == (path@.len() == 0),
            lower(path@) == lower(spelled(all.take(i as int))),
            fs.stable() ==> path_from(fs, seq![], all) == path_from(fs, path@, all.skip(i as int)),
        decreases parts@.len() - i,
    {
        proof {
            assert(all.skip(i as int)[0] == parts@[i as int]@);
            assert(all.skip(i as int).drop_first() =~= all.skip(i + 1));
        }
        let dir = if empty {
            "/"
        } else {
            path.as_str()
        };
        let listing = match fs.read_dir(dir) {
            Ok(l) => l,
            Err(_) => {
                return None;
            },
        };
        let part: &str = parts[i];
        let test = |e: &DirEntry| -> (b: bool)
            ensures
                b == called(part@)(e@)
        { same_but_case(e.name.as_str(), part) };
        let k: usize = match position_by(&listing, test, Ghost(called(part@))) {
            Some(k) => k,
            None => {
                return None;
            },
        };
        proof {
            assert(views(listing@)[k as int] == listing@[k as int]@);
        }
        let mut next: String = String::new();
        next.append(path.as_str());
        next.append("/");
        next.append(listing[k].name.as_str());
        proof {
            reveal_strlit("/");
            assert(next@ =~= path@ + "/"@ + listing@[k as int]@.name);
            let name = listing@[k as int]@.name;
            assert(all.take(i + 1).drop_last() =~= all.take(i as int));
            assert(all.take(i + 1).last() == part@);
            lemma_position(views(listing@), called(part@));
            assert(lower(name) == lower(part@));
            lemma_lower_joins(path@ + "/"@, name);
            lemma_lower_joins(path@, "/"@);
            lemma_lower_joins(spelled(all.take(i as int)) + "/"@, part@);
            lemma_lower_joins(spelled(all.take(i as int)), "/"@);
        }
        path = next;
        empty = false;
        i = i + 1;
    }
    assert(all.skip(i as int) =~= Seq::<Seq<char>>::empty());
    assert(all.take(i as int) =~= all);
    Some(path)
}

// ---------------------------------------------------------------------
// Boot code
// ---------------------------------------------------------------------

/// The NTFS volume boot record is 16 sectors; its boot code and messages
/// (`BOOTMGR is missing`, ...) fit well inside that.
pub const VBR_LEN: u64 = 8192;

/// The start of a volume, as far as its boot record goes.
pub open spec fn boot_record<D: ReadAt + ?Sized>(dev: &D) -> Option<Seq<u8>> {
    let size = dev.bytes().len();
    reads(
        dev,
        0,
        if size < VBR_LEN {
            size
        } else {
            VBR_LEN as nat
        },
    )
}

/// `BOOTMGR`.
pub open spec fn bootmgr_text() -> Seq<u8> {
    seq![0x42u8, 0x4fu8, 0x4fu8, 0x54u8, 0x4du8, 0x47u8, 0x52u8]
}

/// `NTLDR`.
pub open spec fn ntldr_text() -> Seq<u8> {
    seq![0x4eu8, 0x54u8, 0x4cu8, 0x44u8, 0x52u8]
}

/// The loaders that a boot record may name.
pub open spec fn is_loader(name: Seq<char>) -> bool {
    name == "bootmgr"@ || name == "ntldr"@
}

/// The loader that a volume boot record chains to.
pub open spec fn loader_in(vbr: Seq<u8>) -> Option<Seq<char>> {
    if occurs(vbr, bootmgr_text()) {
        Some("bootmgr"@)
    } else if occurs(vbr, ntldr_text()) {
        Some("ntldr"@)
    } else {
        None
    }
}

/// The loader an NTFS volume boot record chains to, from the file name
/// embedded in its boot code.
pub fn vbr_loader<D: ReadAt + ?Sized>(dev: &D) -> (r: Option<&'static str>)
    ensures
        r matches Some(s) ==> is_loader(s@),
        dev.sound() ==> opt_str(r) == (match boot_record(dev) {
            Some(vbr) => loader_in(vbr),
            None => None,
        }),
{
    let size: u64 = dev.size();
    let len: u64 = if size < VBR_LEN {
        size
    } else {
        VBR_LEN
    };
    let buf = match read_vec(dev, 0, len as usize) {
        Ok(b) => b,
        Err(_) => {
            return None;
        },
    };
    let bootmgr: [u8; 7] = [0x42, 0x4f, 0x4f, 0x54, 0x4d, 0x47, 0x52];
    let ntldr: [u8; 5] = [0x4e, 0x54, 0x4c, 0x44, 0x52];
    assert(bootmgr@ =~= bootmgr_text());
    assert(ntldr@ =~= ntldr_text());
    if contains(buf.as_slice(), bootmgr.as_slice()) {
        Some("bootmgr")  // Vista and newer

    } else if contains(buf.as_slice(), ntldr.as_slice()) {
        Some("ntldr")  // XP / 2003

    } else {
        None
    }
}

/// The bytes of a text.
pub open spec fn text_bytes(s: Seq<char>) -> Seq<u8> {
    vstd::utf8::encode_utf8(s)
}

/// How many of the messages in the MBR bootstrap that Windows (NT 5 through
/// 10) writes are in `code`. GRUB and syslinux put their own code - and their
/// own strings - there.
pub open spec fn messages_in(code: Seq<u8>) -> int {
    (if occurs(code, text_bytes("Invalid partition table"@)) {
        1int
    } else {
        0
    }) + (if occurs(code, text_bytes("Error loading operating system"@)) {
        1int
    } else {
        0
    }) + (if occurs(code, text_bytes("Missing operating system"@)) {
        1int
    } else {
        0
    })
}

/// The bootstrap area of an MBR.
pub open spec fn bootstrap_area(sector: Seq<u8>) -> Seq<u8> {
    if sector.len() < 446 {
        sector
    } else {
        sector.take(446)
    }
}

/// True if the MBR's 446-byte bootstrap area looks like Windows'. Two of
/// the three messages are enough: the set differs slightly by version.
pub fn is_windows_bootstrap(sector: &[u8]) -> (r: bool)
    ensures
        r == (messages_in(bootstrap_area(sector@)) >= 2),
{
    let n: usize = if sector.len() < 446 {
        sector.len()
    } else {
        446
    };
    let code = slice_subrange(sector, 0, n);
    assert(code@ =~= bootstrap_area(sector@));
    let mut count: usize = 0;
    if contains(code, "Invalid partition table".as_bytes()) {
        count = count + 1;
    }
    if contains(code, "Error loading operating system".as_bytes()) {
        count = count + 1;
    }
    if contains(code, "Missing operating system".as_bytes()) {
        count = count + 1;
    }
    count >= 2
}

/// An MBR disk starts with Windows' bootstrap code.
pub open spec fn bootstrapped<D: ReadAt>(disk: &D, kind: TableKind) -> bool {
    kind == TableKind::Mbr && disk.bytes().len() >= 512 && (reads(disk, 0, 512) matches Some(sector)
        && messages_in(bootstrap_area(sector)) >= 2)
}

/// Disk level: the bootstrap code Windows writes into the MBR.
pub fn mbr_bootstrap<D: ReadAt>(disk: &D, kind: TableKind) -> (r: bool)
    ensures
        kind != TableKind::Mbr ==> !r,
        disk.sound() ==> r == bootstrapped(disk, kind),
{
    match kind {
        TableKind::Mbr => {
            if disk.check_bounds(0, 512).is_err() {
                return false;
            }
            match read_vec(disk, 0, 512) {
                Ok(sector) => is_windows_bootstrap(sector.as_slice()),
                Err(_) => false,
            }
        },
        _ => false,
    }
}

/// What a PE machine type is called.
pub open spec fn machine_name(machine: int) -> Option<Seq<char>> {
    if machine == 0x014c {
        Some("i386"@)
    } else if machine == 0x8664 {
        Some("x86_64"@)
    } else if machine == 0xaa64 {
        Some("aarch64"@)
    } else if machine == 0x01c4 {
        Some("arm"@)
    } else {
        None
    }
}

/// The architecture of a PE/COFF binary.
pub open spec fn arch_in(data: Seq<u8>) -> Option<Seq<char>> {
    if piece(data, 0, 2) != Some(mz_magic()) {
        None
    } else {
        match number_at(data, 0x3c, 4) {
            None => None,
            Some(pe) => if piece(data, pe, 4) != Some(pe_magic()) {
                None
            } else {
                match number_at(data, pe + 4, 2) {
                    None => None,
                    Some(machine) => machine_name(machine),
                }
            },
        }
    }
}

/// Architecture from a PE/COFF binary's machine field - for an EFI
/// executable this is the firmware architecture the guest needs.
pub fn pe_arch(data: &[u8]) -> (r: Option<&'static str>)
    ensures
        opt_str(r) == arch_in(data@),
{
    proof {
        lemma_spans();
    }
    let mz: [u8; 2] = [0x4d, 0x5a];
    assert(mz@ =~= mz_magic());
    if !crate::kernel::has_piece(data, 0, mz.as_slice()) {
        return None;
    }
    let pe: u64 = match crate::kernel::read_number(data, 0x3c, 4) {
        Some(n) => n,
        None => {
            return None;
        },
    };
    let mark: [u8; 4] = [0x50, 0x45, 0, 0];
    assert(mark@ =~= pe_magic());
    if !crate::kernel::has_piece(data, pe, mark.as_slice()) {
        return None;
    }
    match crate::kernel::read_number(data, pe + 4, 2) {
        Some(machine) => if machine == 0x014c {
            Some("i386")
        } else if machine == 0x8664 {
            Some("x86_64")
        } else if machine == 0xaa64 {
            Some("aarch64")
        } else if machine == 0x01c4 {
            Some("arm")  // ARMNT (Windows RT / 32-bit ARM)

        } else {
            None
        },
        None => None,
    }
}

} // verus!
