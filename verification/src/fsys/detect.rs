//! Which filesystem is on a device.

use crate::blockdev::{holds, law_reads_are_the_bytes, read_vec, reads, ReadAt};
use crate::bytes::{field, has_at, law_little_endian, le, le_at};
use crate::error::{Error, ErrorView, Result};
use crate::text::eq;
use vstd::prelude::*;
use vstd::string::*;

verus! {

broadcast use vstd::seq_lib::group_seq_properties;

/// What looking at some bytes of a device says.
pub enum Probe {
    /// They cannot be read.
    Unreadable,
    /// They are those of this filesystem.
    Hit(Seq<char>),
    Miss,
}

/// `XFSB`.
pub open spec fn xfs_magic() -> Seq<u8> {
    seq![0x58u8, 0x46u8, 0x53u8, 0x42u8]
}

/// `hsqs`.
pub open spec fn squashfs_magic() -> Seq<u8> {
    seq![0x68u8, 0x73u8, 0x71u8, 0x73u8]
}

/// `_BHRfS_M`.
pub open spec fn btrfs_magic() -> Seq<u8> {
    seq![0x5fu8, 0x42u8, 0x48u8, 0x52u8, 0x66u8, 0x53u8, 0x5fu8, 0x4du8]
}

/// `FAT`.
pub open spec fn fat_marker() -> Seq<u8> {
    seq![0x46u8, 0x41u8, 0x54u8]
}

/// `FAT32` and three spaces.
pub open spec fn fat32_marker() -> Seq<u8> {
    seq![0x46u8, 0x41u8, 0x54u8, 0x33u8, 0x32u8, 0x20u8, 0x20u8, 0x20u8]
}

/// ext2/3/4: superblock at 1024, magic 0xEF53 at superblock offset 56.
pub open spec fn ext_probe<D: ReadAt + ?Sized>(dev: &D) -> Probe {
    if dev.bytes().len() < 1082 {
        Probe::Miss
    } else {
        match reads(dev, 1080, 2) {
            None => Probe::Unreadable,
            Some(b) => if le(b) == 0xef53 {
                Probe::Hit("ext4"@)
            } else {
                Probe::Miss
            },
        }
    }
}

/// XFS and squashfs: at the very start.
pub open spec fn start_probe<D: ReadAt + ?Sized>(dev: &D) -> Probe {
    if dev.bytes().len() < 4 {
        Probe::Miss
    } else {
        match reads(dev, 0, 4) {
            None => Probe::Unreadable,
            Some(b) => if b == xfs_magic() {
                Probe::Hit("xfs"@)
            } else if b == squashfs_magic() {
                Probe::Hit("squashfs"@)
            } else {
                Probe::Miss
            },
        }
    }
}

/// btrfs: at 0x10040.
pub open spec fn btrfs_probe<D: ReadAt + ?Sized>(dev: &D) -> Probe {
    if dev.bytes().len() < 0x10048 {
        Probe::Miss
    } else {
        match reads(dev, 0x10040, 8) {
            None => Probe::Unreadable,
            Some(b) => if b == btrfs_magic() {
                Probe::Hit("btrfs"@)
            } else {
                Probe::Miss
            },
        }
    }
}

/// An x86 jump at 0 plus an OEM/FS-type marker.
pub open spec fn is_fat(sector: Seq<u8>) -> bool {
    (sector[0] == 0xeb || sector[0] == 0xe9) && (field(sector, 82, 8) == fat32_marker() || field(
        sector,
        54,
        3,
    ) == fat_marker())
}

/// FAT: by its boot sector.
pub open spec fn fat_probe<D: ReadAt + ?Sized>(dev: &D) -> Probe {
    if dev.bytes().len() < 512 {
        Probe::Miss
    } else {
        match reads(dev, 0, 512) {
            None => Probe::Unreadable,
            Some(sector) => if is_fat(sector) {
                Probe::Hit("vfat"@)
            } else {
                Probe::Miss
            },
        }
    }
}

/// `NTFS` and four spaces.
pub open spec fn ntfs_marker() -> Seq<u8> {
    seq![0x4eu8, 0x54u8, 0x46u8, 0x53u8, 0x20u8, 0x20u8, 0x20u8, 0x20u8]
}

/// `ReFS` and four zeroes.
pub open spec fn refs_marker() -> Seq<u8> {
    seq![0x52u8, 0x65u8, 0x46u8, 0x53u8, 0u8, 0u8, 0u8, 0u8]
}

/// NTFS and ReFS: the OEM name, behind the jump of the boot sector.
pub open spec fn volume_probe<D: ReadAt + ?Sized>(dev: &D) -> Probe {
    if dev.bytes().len() < 11 {
        Probe::Miss
    } else {
        match reads(dev, 3, 8) {
            None => Probe::Unreadable,
            Some(b) => if b == ntfs_marker() {
                Probe::Hit("ntfs"@)
            } else if b == refs_marker() {
                Probe::Hit("refs"@)
            } else {
                Probe::Miss
            },
        }
    }
}

/// The filesystem on a device: the first probe that does not miss.
pub open spec fn detected<D: ReadAt + ?Sized>(dev: &D) -> Probe {
    if !(ext_probe(dev) is Miss) {
        ext_probe(dev)
    } else if !(start_probe(dev) is Miss) {
        start_probe(dev)
    } else if !(btrfs_probe(dev) is Miss) {
        btrfs_probe(dev)
    } else if !(fat_probe(dev) is Miss) {
        fat_probe(dev)
    } else {
        volume_probe(dev)
    }
}

/// The names that filesystems are detected by.
pub open spec fn is_known(name: Seq<char>) -> bool {
    ||| name == "ext4"@
    ||| name == "xfs"@
    ||| name == "squashfs"@
    ||| name == "btrfs"@
    ||| name == "vfat"@
    ||| name == "ntfs"@
    ||| name == "refs"@
}

/// Best-effort filesystem type sniffing by magic bytes.
pub fn detect<D: ReadAt + ?Sized>(dev: &D) -> (r: Result<Option<&'static str>>)
    ensures
        r matches Ok(Some(name)) ==> is_known(name@),
        dev.sound() ==> match detected(dev) {
            Probe::Unreadable => r is Err,
            Probe::Hit(name) => r matches Ok(Some(s)) && s@ == name,
            Probe::Miss => r matches Ok(s) && s is None,
        },
{
    if dev.check_bounds(1080, 2).is_ok() {
        let m = read_vec(dev, 1080, 2)?;
        assert(field(m@, 0, 2) =~= m@);
        if le_at(m.as_slice(), 0, 2) == 0xef53 {
            return Ok(Some("ext4"));
        }
    }
    if dev.check_bounds(0, 4).is_ok() {
        let m = read_vec(dev, 0, 4)?;
        assert(field(m@, 0, 4) =~= m@);
        let xfs: [u8; 4] = [0x58, 0x46, 0x53, 0x42];
        assert(xfs@ =~= xfs_magic());
        if has_at(m.as_slice(), 0, xfs.as_slice()) {
            return Ok(Some("xfs"));
        }
        let squashfs: [u8; 4] = [0x68, 0x73, 0x71, 0x73];
        assert(squashfs@ =~= squashfs_magic());
        if has_at(m.as_slice(), 0, squashfs.as_slice()) {
            return Ok(Some("squashfs"));
        }
    }
    if dev.check_bounds(0x10040, 8).is_ok() {
        let m = read_vec(dev, 0x10040, 8)?;
        assert(field(m@, 0, 8) =~= m@);
        let btrfs: [u8; 8] = [0x5f, 0x42, 0x48, 0x52, 0x66, 0x53, 0x5f, 0x4d];
        assert(btrfs@ =~= btrfs_magic());
        if has_at(m.as_slice(), 0, btrfs.as_slice()) {
            return Ok(Some("btrfs"));
        }
    }
    // The driver validates the BPB properly; this is only a cheap pre-filter.
    if dev.check_bounds(0, 512).is_ok() {
        let sector = read_vec(dev, 0, 512)?;
        let s = sector.as_slice();
        let fat32: [u8; 8] = [0x46, 0x41, 0x54, 0x33, 0x32, 0x20, 0x20, 0x20];
        let fat: [u8; 3] = [0x46, 0x41, 0x54];
        assert(fat32@ =~= fat32_marker());
        assert(fat@ =~= fat_marker());
        let jump_ok: bool = s[0] == 0xeb || s[0] == 0xe9;
        if jump_ok && (has_at(s, 82, fat32.as_slice()) || has_at(s, 54, fat.as_slice())) {
            return Ok(Some("vfat"));
        }
    }
    if dev.check_bounds(3, 8).is_ok() {
        let m = read_vec(dev, 3, 8)?;
        assert(field(m@, 0, 8) =~= m@);
        let ntfs: [u8; 8] = [0x4e, 0x54, 0x46, 0x53, 0x20, 0x20, 0x20, 0x20];
        assert(ntfs@ =~= ntfs_marker());
        if has_at(m.as_slice(), 0, ntfs.as_slice()) {
            return Ok(Some("ntfs"));
        }
        let refs: [u8; 8] = [0x52, 0x65, 0x46, 0x53, 0, 0, 0, 0];
        assert(refs@ =~= refs_marker());
        if has_at(m.as_slice(), 0, refs.as_slice()) {
            return Ok(Some("refs"));
        }
    }
    Ok(None)
}

/// What reads a filesystem.
#[derive(Debug, Clone, Copy, PartialEq, Eq, Structural)]
pub enum Driver {
    /// ext2/3/4.
    Ext4,
    /// FAT12/16/32.
    Vfat,
}

/// What reads the filesystem that was detected. A known filesystem without a
/// driver gets a precise error, so users know what they hit.
pub fn driver(found: Option<&'static str>) -> (r: Result<Driver>)
    ensures
        match found {
            Some(s) => if s@ == "ext4"@ {
                r matches Ok(d) && d == Driver::Ext4
            } else if s@ == "vfat"@ {
                r matches Ok(d) && d == Driver::Vfat
            } else {
                r matches Err(e) && e@ == ErrorView::UnknownFilesystem(Some(s@))
            },
            None => r matches Err(e) && e@ == ErrorView::UnknownFilesystem(None),
        },
{
    match found {
        Some(s) => if eq(s, "ext4") {
            Ok(Driver::Ext4)
        } else if eq(s, "vfat") {
            Ok(Driver::Vfat)
        } else {
            Err(Error::UnknownFilesystem(Some(s)))
        },
        None => Err(Error::UnknownFilesystem(None)),
    }
}

/// What reads the filesystem on `dev`, if it is a supported type.
pub fn driver_for<D: ReadAt + ?Sized>(dev: &D) -> (r: Result<Driver>)
    ensures
        dev.sound() ==> match detected(dev) {
            Probe::Unreadable => r is Err,
            Probe::Hit(name) => if name == "ext4"@ {
                r matches Ok(d) && d == Driver::Ext4
            } else if name == "vfat"@ {
                r matches Ok(d) && d == Driver::Vfat
            } else {
                r matches Err(e) && e@ == ErrorView::UnknownFilesystem(Some(name))
            },
            Probe::Miss => r matches Err(e) && e@ == ErrorView::UnknownFilesystem(None),
        },
{
    driver(detect(dev)?)
}

/// The two bytes at 1080 that an ext2, ext3 or ext4 superblock has.
pub open spec fn ext_bytes(b: Seq<u8>) -> bool {
    b.len() >= 1082 && b[1080] == 0x53 && b[1081] == 0xef
}

/// `b` has the bytes `pat` at `at`.
pub open spec fn bytes_at(b: Seq<u8>, at: int, pat: Seq<u8>) -> bool {
    at + pat.len() <= b.len() && forall|i: int| 0 <= i < pat.len() ==> b[at + i] == #[trigger] pat[i]
}

/// A boot sector with a jump in front and `FAT32` or `FAT` where the type of
/// the filesystem stands.
pub open spec fn fat_bytes(b: Seq<u8>) -> bool {
    &&& b.len() >= 512
    &&& b[0] == 0xeb || b[0] == 0xe9
    &&& bytes_at(b, 82, seq![0x46u8, 0x41u8, 0x54u8, 0x33u8, 0x32u8, 0x20u8, 0x20u8, 0x20u8])
        || bytes_at(b, 54, seq![0x46u8, 0x41u8, 0x54u8])
}

proof fn lemma_bytes_at<D: ReadAt + ?Sized>(dev: &D, b: Seq<u8>, at: int, pat: Seq<u8>)
    requires
        holds(dev, b),
        0 <= at,
        pat.len() > 0,
    ensures
        (dev.bytes().len() >= at + pat.len() && reads(dev, at, pat.len()) == Some(pat)) <==> bytes_at(
            b,
            at,
            pat,
        ),
        dev.bytes().len() >= at + pat.len() ==> reads(dev, at, pat.len()) is Some,
{
    law_reads_are_the_bytes(dev, b, at, pat.len());
    if at + pat.len() <= b.len() {
        let r = b.subrange(at, at + pat.len());
        if bytes_at(b, at, pat) {
            assert(r =~= pat);
        } else if r == pat {
            assert forall|i: int| 0 <= i < pat.len() implies b[at + i] == #[trigger] pat[i] by {
                assert(r[i] == b[at + i]);
            }
        }
    }
}

/// A filesystem is told by these bytes, at these places; where several would
/// do, ext goes first, then the start of the device, btrfs, FAT and at last
/// the name behind the jump. A device with none of them has no known
/// filesystem.
pub proof fn law_bytes_tell_the_filesystem<D: ReadAt + ?Sized>(dev: &D, b: Seq<u8>)
    requires
        holds(dev, b),
    ensures
        detected(dev) == (if ext_bytes(b) {
            Probe::Hit("ext4"@)
        } else if bytes_at(b, 0, seq![0x58u8, 0x46u8, 0x53u8, 0x42u8]) {
            Probe::Hit("xfs"@)
        } else if bytes_at(b, 0, seq![0x68u8, 0x73u8, 0x71u8, 0x73u8]) {
            Probe::Hit("squashfs"@)
        } else if bytes_at(
            b,
            65600,
            seq![0x5fu8, 0x42u8, 0x48u8, 0x52u8, 0x66u8, 0x53u8, 0x5fu8, 0x4du8],
        ) {
            Probe::Hit("btrfs"@)
        } else if fat_bytes(b) {
            Probe::Hit("vfat"@)
        } else if bytes_at(
            b,
            3,
            seq![0x4eu8, 0x54u8, 0x46u8, 0x53u8, 0x20u8, 0x20u8, 0x20u8, 0x20u8],
        ) {
            Probe::Hit("ntfs"@)
        } else if bytes_at(b, 3, seq![0x52u8, 0x65u8, 0x46u8, 0x53u8, 0u8, 0u8, 0u8, 0u8]) {
            Probe::Hit("refs"@)
        } else {
            Probe::Miss
        }),
{
    law_reads_are_the_bytes(dev, b, 1080, 2);
    if b.len() >= 1082 {
        law_little_endian(b.subrange(1080, 1082));
    }
    lemma_bytes_at(dev, b, 0, xfs_magic());
    lemma_bytes_at(dev, b, 0, squashfs_magic());
    lemma_bytes_at(dev, b, 65600, btrfs_magic());
    lemma_bytes_at(dev, b, 3, ntfs_marker());
    lemma_bytes_at(dev, b, 3, refs_marker());
    assert(xfs_magic()[0] == 0x58 && squashfs_magic()[0] == 0x68);
    assert(ntfs_marker()[0] == 0x4e && refs_marker()[0] == 0x52);
    lemma_fat(dev, b);
    assert((ext_probe(dev) == Probe::Hit("ext4"@)) == ext_bytes(b));
    assert(ext_bytes(b) || ext_probe(dev) is Miss);
}

proof fn lemma_fat<D: ReadAt + ?Sized>(dev: &D, b: Seq<u8>)
    requires
        holds(dev, b),
    ensures
        fat_probe(dev) == (if fat_bytes(b) {
            Probe::Hit("vfat"@)
        } else {
            Probe::Miss
        }),
{
    law_reads_are_the_bytes(dev, b, 0, 512);
    if b.len() >= 512 {
        let s = b.subrange(0, 512);
        let long = field(s, 82, 8);
        let short = field(s, 54, 3);
        if bytes_at(b, 82, fat32_marker()) {
            assert forall|i: int| 0 <= i < 8 implies long[i] == fat32_marker()[i] by {
                assert(b[82 + i] == fat32_marker()[i]);
            }
            assert(long =~= fat32_marker());
        } else if long == fat32_marker() {
            assert forall|i: int| 0 <= i < 8 implies b[82 + i] == #[trigger] fat32_marker()[i] by {
                assert(long[i] == b[82 + i]);
            }
        }
        if bytes_at(b, 54, fat_marker()) {
            assert forall|i: int| 0 <= i < 3 implies short[i] == fat_marker()[i] by {
                assert(b[54 + i] == fat_marker()[i]);
            }
            assert(short =~= fat_marker());
        } else if short == fat_marker() {
            assert forall|i: int| 0 <= i < 3 implies b[54 + i] == #[trigger] fat_marker()[i] by {
                assert(short[i] == b[54 + i]);
            }
        }
    }
}

} // verus!
