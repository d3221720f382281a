//! GUID partition tables.

use crate::blockdev::{read_vec, reads, ReadAt};
use crate::bytes::{all_zero, field, has_at, le, le_at, lemma_spans};
use crate::error::{Error, ErrorView, Result};
use crate::part::{indices_ascend, wrap, Partition, PartitionTable, PartitionView, Scanned, TableKind, SECTOR};
use crate::seqs::views;
use crate::text::number::{dec, hex_bytes, push_dec};
use crate::text::utf16::{decode_utf16, from_utf16};
use vstd::prelude::*;
use vstd::slice::slice_subrange;
use vstd::string::*;

verus! {

broadcast use vstd::seq_lib::group_seq_properties;

/// `EFI PART`.
pub open spec fn signature() -> Seq<u8> {
    seq![0x45u8, 0x46u8, 0x49u8, 0x20u8, 0x50u8, 0x41u8, 0x52u8, 0x54u8]
}

// Well-known partition type GUIDs (canonical string form).
pub const ESP: &'static str = "c12a7328-f81f-11d2-ba4b-00a0c93ec93b";

pub const LINUX_FS: &'static str = "0fc63daf-8483-4772-8e79-3d69d8477de4";

pub const LINUX_XBOOTLDR: &'static str = "bc13c2ff-59e6-4262-a352-b275fd6f7172";

pub const LINUX_LVM: &'static str = "e6d6d379-f507-44c2-a23c-238f2a3df928";

pub const LINUX_SWAP: &'static str = "0657fd6d-a4ab-43c4-84e5-0933c84b4f4f";

pub const LINUX_ROOT_X86_64: &'static str = "4f68bce3-e8cd-4db1-96e7-fbcaf984b709";

pub const LINUX_ROOT_ARM64: &'static str = "b921b045-1df0-41c3-af44-4c6f280d3fae";

pub const BIOS_BOOT: &'static str = "21686148-6449-6e6f-744e-656564454649";

// Microsoft. Only Windows creates MSR/WinRE/LDM/Storage-Spaces partitions,
// so they are read as evidence of a Windows guest; "basic data" is weaker
// (it is also just the generic "some filesystem" type).
pub const MS_RESERVED: &'static str = "e3c9e316-0b5c-4db8-817d-f92df00215ae";

pub const MS_BASIC_DATA: &'static str = "ebd0a0a2-b9e5-4433-87c0-68b6b72699c7";

pub const WINDOWS_RECOVERY: &'static str = "de94bba4-06d1-4d40-a16a-bfd50179d6ac";

pub const MS_LDM_METADATA: &'static str = "5808c8aa-7e8f-42e0-85d2-e1e90434cfb3";

pub const MS_LDM_DATA: &'static str = "af9b60a0-1431-4f62-bc68-3311714a69ad";

pub const MS_STORAGE_SPACES: &'static str = "e75caf8f-f680-4cee-afa3-b001e56efc2d";

/// What a partition type is called, and whether it is worth probing.
pub open spec fn type_named(guid: Seq<char>) -> Option<(Seq<char>, bool)> {
    if guid == ESP@ {
        Some(("EFI System"@, true))
    } else if guid == LINUX_FS@ {
        Some(("Linux filesystem"@, true))
    } else if guid == LINUX_XBOOTLDR@ {
        Some(("Linux extended boot"@, true))
    } else if guid == LINUX_ROOT_X86_64@ {
        Some(("Linux root (x86-64)"@, true))
    } else if guid == LINUX_ROOT_ARM64@ {
        Some(("Linux root (ARM64)"@, true))
    } else if guid == MS_BASIC_DATA@ {
        Some(("Microsoft basic data"@, true))
    } else if guid == MS_RESERVED@ {
        Some(("Microsoft reserved"@, false))
    } else if guid == WINDOWS_RECOVERY@ {
        Some(("Windows recovery"@, false))
    } else if guid == MS_LDM_METADATA@ {
        Some(("Microsoft LDM metadata"@, false))
    } else if guid == MS_LDM_DATA@ {
        Some(("Microsoft LDM data"@, false))
    } else if guid == MS_STORAGE_SPACES@ {
        Some(("Microsoft Storage Spaces"@, false))
    } else if guid == LINUX_LVM@ {
        Some(("Linux LVM"@, false))
    } else if guid == LINUX_SWAP@ {
        Some(("Linux swap"@, false))
    } else if guid == BIOS_BOOT@ {
        Some(("BIOS boot"@, false))
    } else {
        None
    }
}

/// What a partition type is called, and whether it is worth probing.
fn name_of_type(guid: &str) -> (r: Option<(&'static str, bool)>)
    ensures
        match r {
            Some((name, probe)) => type_named(guid@) == Some((name@, probe)),
            None => type_named(guid@) is None,
        },
{
    if crate::text::eq(guid, ESP) {
        Some(("EFI System", true))
    } else if crate::text::eq(guid, LINUX_FS) {
        Some(("Linux filesystem", true))
    } else if crate::text::eq(guid, LINUX_XBOOTLDR) {
        Some(("Linux extended boot", true))
    } else if crate::text::eq(guid, LINUX_ROOT_X86_64) {
        Some(("Linux root (x86-64)", true))
    } else if crate::text::eq(guid, LINUX_ROOT_ARM64) {
        Some(("Linux root (ARM64)", true))
    } else if crate::text::eq(guid, MS_BASIC_DATA) {
        // ESP-less Windows keeps nothing here we read, but a plain FAT data
        // partition might hold configs
        Some(("Microsoft basic data", true))
    } else if crate::text::eq(guid, MS_RESERVED) {
        Some(("Microsoft reserved", false))
    } else if crate::text::eq(guid, WINDOWS_RECOVERY) {
        Some(("Windows recovery", false))  // NTFS

    } else if crate::text::eq(guid, MS_LDM_METADATA) {
        Some(("Microsoft LDM metadata", false))
    } else if crate::text::eq(guid, MS_LDM_DATA) {
        Some(("Microsoft LDM data", false))
    } else if crate::text::eq(guid, MS_STORAGE_SPACES) {
        Some(("Microsoft Storage Spaces", false))
    } else if crate::text::eq(guid, LINUX_LVM) {
        Some(("Linux LVM", false))  // probe once LVM support lands

    } else if crate::text::eq(guid, LINUX_SWAP) {
        Some(("Linux swap", false))
    } else if crate::text::eq(guid, BIOS_BOOT) {
        Some(("BIOS boot", false))
    } else {
        None
    }
}

/// The 16-byte on-disk GUID in canonical form (first three fields are
/// little-endian on disk).
pub open spec fn guid_text(g: Seq<u8>) -> Seq<char> {
    hex_bytes(seq![g[3], g[2], g[1], g[0]]) + "-"@ + hex_bytes(seq![g[5], g[4]]) + "-"@ + hex_bytes(
        seq![g[7], g[6]],
    ) + "-"@ + hex_bytes(seq![g[8], g[9]]) + "-"@ + hex_bytes(
        seq![g[10], g[11], g[12], g[13], g[14], g[15]],
    )
}

/// Render the 16-byte on-disk GUID in canonical form.
fn format_guid(g: &[u8]) -> (r: String)
    requires
        g@.len() == 16,
    ensures
        r@ == guid_text(g@),
{
    let mut out: String = String::new();
    let a: [u8; 4] = [g[3], g[2], g[1], g[0]];
    let b: [u8; 2] = [g[5], g[4]];
    let c: [u8; 2] = [g[7], g[6]];
    let d: [u8; 2] = [g[8], g[9]];
    let e: [u8; 6] = [g[10], g[11], g[12], g[13], g[14], g[15]];
    proof {
        assert(a@ =~= seq![g@[3], g@[2], g@[1], g@[0]]);
        assert(b@ =~= seq![g@[5], g@[4]]);
        assert(c@ =~= seq![g@[7], g@[6]]);
        assert(d@ =~= seq![g@[8], g@[9]]);
        assert(e@ =~= seq![g@[10], g@[11], g@[12], g@[13], g@[14], g@[15]]);
    }
    crate::text::number::push_hex_bytes(&mut out, a.as_slice());
    out.append("-");
    crate::text::number::push_hex_bytes(&mut out, b.as_slice());
    out.append("-");
    crate::text::number::push_hex_bytes(&mut out, c.as_slice());
    out.append("-");
    crate::text::number::push_hex_bytes(&mut out, d.as_slice());
    out.append("-");
    crate::text::number::push_hex_bytes(&mut out, e.as_slice());
    assert(out@ =~= guid_text(g@));
    out
}

/// Every byte is zero.
pub open spec fn blank(b: Seq<u8>) -> bool {
    forall|i: int| 0 <= i < b.len() ==> #[trigger] b[i] == 0
}

/// The code units of the name field, up to the first zero.
pub open spec fn name_units(b: Seq<u8>) -> Seq<u16>
    decreases b.len(),
{
    if b.len() < 2 || le(b.take(2)) == 0 {
        seq![]
    } else {
        seq![le(b.take(2)) as u16] + name_units(b.skip(2))
    }
}

/// The partition that the entry `e` in slot `i` declares, if it is in use.
pub open spec fn entry_partition(e: Seq<u8>, i: int) -> Option<PartitionView> {
    let type_guid = field(e, 0, 16);
    let unique = field(e, 16, 16);
    let first_lba = le(field(e, 32, 8));
    let last_lba = le(field(e, 40, 8));
    let units = name_units(field(e, 56, 72));
    let guid = guid_text(type_guid);
    if blank(type_guid) || last_lba < first_lba {
        None
    } else {
        Some(
            PartitionView {
                index: i + 1,
                start_byte: wrap((first_lba * 512) as int),
                size_bytes: wrap((last_lba - first_lba + 1) * 512),
                kind: match type_named(guid) {
                    Some((name, _)) => name,
                    None => guid,
                },
                type_id: guid,
                name: if units.len() == 0 {
                    None
                } else {
                    Some(decode_utf16(units))
                },
                probe_worthy: type_named(guid) matches Some((_, probe)) && probe,
                part_uuid: if blank(unique) {
                    None
                } else {
                    Some(guid_text(unique))
                },
            },
        )
    }
}

/// The partitions of the first `n` slots of a table.
pub open spec fn table_partitions(table: Seq<u8>, entry_size: nat, n: nat) -> Seq<PartitionView>
    decreases n,
{
    if n == 0 {
        seq![]
    } else {
        let i = (n - 1) as nat;
        let before = table_partitions(table, entry_size, i);
        match entry_partition(field(table, (i * entry_size) as int, entry_size as int), i as int) {
            Some(p) => before.push(p),
            None => before,
        }
    }
}

/// The GPT of a disk.
pub open spec fn gpt_of<D: ReadAt>(disk: &D) -> Scanned {
    if disk.bytes().len() < 2 * SECTOR + 92 {
        Scanned::Absent
    } else {
        match reads(disk, SECTOR as int, 92) {
            None => Scanned::Unreadable,
            Some(h) => {
                let entries_lba = le(field(h, 72, 8));
                let num = le(field(h, 80, 4));
                let size = le(field(h, 84, 4));
                if field(h, 0, 8) != signature() {
                    Scanned::Absent
                } else if !(128 <= size <= 4096) || num > 4096 {
                    Scanned::Refused(
                        ErrorView::Gpt(
                            "implausible GPT: "@ + dec(num) + " entries of "@ + dec(size)
                                + " bytes"@,
                        ),
                    )
                } else {
                    match reads(disk, wrap((entries_lba * 512) as int) as int, num * size) {
                        None => Scanned::Unreadable,
                        Some(table) => Scanned::Table(table_partitions(table, size, num)),
                    }
                }
            },
        }
    }
}

/// The code units of the name field.
fn read_units(b: &[u8]) -> (r: Vec<u16>)
    ensures
        r@ == name_units(b@),
{
    let len: usize = b.len();
    let mut out: Vec<u16> = Vec::new();
    let mut i: usize = 0;
    assert(b@.skip(0) =~= b@);
    assert(out@ + name_units(b@) =~= name_units(b@));
    while len - i >= 2
        invariant
            i <= len,
            len == b@.len(),
            out@ + name_units(b@.skip(i as int)) == name_units(b@),
        decreases len - i,
    {
        let u: u64 = le_at(b, i, 2);
        let ghost rest = b@.skip(i as int);
        proof {
            assert(field(b@, i as int, 2) =~= rest.take(2));
            lemma_spans();
        }
        if u == 0 {
            assert(name_units(rest) =~= Seq::<u16>::empty());
            assert(out@ =~= name_units(b@));
            return out;
        }
        let ghost before = out@;
        out.push(u as u16);
        i = i + 2;
        proof {
            assert(rest.skip(2) =~= b@.skip(i as int));
            assert(out@ + name_units(b@.skip(i as int)) =~= before + name_units(rest));
        }
    }
    assert(out@ =~= name_units(b@));
    out
}

/// The partition that an entry declares.
fn read_entry(e: &[u8], i: usize) -> (r: Option<Partition>)
    requires
        e@.len() >= 128,
        i < usize::MAX,
    ensures
        match r {
            Some(p) => entry_partition(e@, i as int) == Some(p@),
            None => entry_partition(e@, i as int) is None,
        },
{
    let type_guid = slice_subrange(e, 0, 16);
    assert(type_guid@ =~= field(e@, 0, 16));
    if all_zero(type_guid, 0, 16) {
        return None;
    }
    assert(!blank(type_guid@));
    let first_lba: u64 = le_at(e, 32, 8);
    let last_lba: u64 = le_at(e, 40, 8);
    if last_lba < first_lba {
        return None;
    }
    let units = read_units(slice_subrange(e, 56, 128));
    assert(e@.subrange(56, 128) =~= field(e@, 56, 72));
    let name: Option<String> = if units.len() == 0 {
        None
    } else {
        Some(from_utf16(&units))
    };
    let guid = format_guid(type_guid);
    let named = name_of_type(guid.as_str());
    let kind: String = match named {
        Some((name, _)) => name.to_owned(),
        None => guid.clone(),
    };
    let probe_worthy: bool = match named {
        Some((_, probe)) => probe,
        None => false,
    };
    let unique = slice_subrange(e, 16, 32);
    assert(unique@ =~= field(e@, 16, 16));
    let part_uuid: Option<String> = if all_zero(unique, 0, 16) {
        None
    } else {
        Some(format_guid(unique))
    };
    let sectors: u64 = (last_lba - first_lba).wrapping_add(1);
    proof {
        let n = last_lba - first_lba + 1;
        assert(sectors as int == n % 0x1_0000_0000_0000_0000);
        assert((sectors * 512) % 0x1_0000_0000_0000_0000 == (n * 512) % 0x1_0000_0000_0000_0000) by {
            if n == 0x1_0000_0000_0000_0000 {
                assert(sectors == 0);
            } else {
                assert(sectors == n);
            }
        }
        assert(blank(unique@) == forall|j: int| 0 <= j < 16 ==> #[trigger] unique@[j] == 0);
    }
    let p = Partition {
        index: i + 1,
        start_byte: first_lba.wrapping_mul(SECTOR),
        size_bytes: sectors.wrapping_mul(SECTOR),
        kind,
        type_id: guid,
        name,
        probe_worthy,
        part_uuid,
    };
    Some(p)
}

/// Returns `Ok(None)` when there is no GPT signature at LBA 1.
pub fn scan<D: ReadAt>(disk: &D) -> (r: Result<Option<PartitionTable>>)
    ensures
        r matches Ok(Some(t)) ==> t.kind == TableKind::Gpt,
        disk.sound() ==> match gpt_of(disk) {
            Scanned::Absent => r matches Ok(t) && t is None,
            Scanned::Table(p) => r matches Ok(Some(t)) && t.kind == TableKind::Gpt && views(
                t.partitions@,
            ) == p,
            Scanned::Refused(e) => r matches Err(x) && x@ == e,
            Scanned::Unreadable => r is Err,
        },
{
    if disk.size() < 2 * SECTOR + 92 {
        return Ok(None);
    }
    let header = read_vec(disk, SECTOR, 92)?;
    let h = header.as_slice();
    let sig: [u8; 8] = [0x45, 0x46, 0x49, 0x20, 0x50, 0x41, 0x52, 0x54];
    assert(sig@ =~= signature());
    if !has_at(h, 0, sig.as_slice()) {
        return Ok(None);
    }
    let entries_lba: u64 = le_at(h, 72, 8);
    let num_entries: u64 = le_at(h, 80, 4);
    let entry_size: u64 = le_at(h, 84, 4);
    if entry_size < 128 || entry_size > 4096 || num_entries > 4096 {
        let mut msg: String = String::new();
        msg.append("implausible GPT: ");
        push_dec(&mut msg, num_entries);
        msg.append(" entries of ");
        push_dec(&mut msg, entry_size);
        msg.append(" bytes");
        assert(msg@ =~= "implausible GPT: "@ + dec(num_entries as nat) + " entries of "@ + dec(
            entry_size as nat,
        ) + " bytes"@);
        return Err(Error::Gpt(msg));
    }
    let n: usize = num_entries as usize;
    let size: usize = entry_size as usize;
    assert(n * size <= 4096 * 4096) by (nonlinear_arith)
        requires
            n <= 4096,
            size <= 4096,
    ;
    let table = read_vec(disk, entries_lba.wrapping_mul(SECTOR), n * size)?;
    let mut partitions: Vec<Partition> = Vec::new();
    let mut i: usize = 0;
    assert(views(partitions@) =~= Seq::<PartitionView>::empty());
    while i < n
        invariant
            i <= n <= 4096,
            128 <= size <= 4096,
            n * size <= 4096 * 4096,
            table@.len() == n * size,
            views(partitions@) == table_partitions(table@, size as nat, i as nat),
        decreases n - i,
    {
        assert(i * size + size <= n * size) by (nonlinear_arith)
            requires
                i + 1 <= n,
        ;
        let e = slice_subrange(table.as_slice(), i * size, i * size + size);
        proof {
            assert(e@ =~= field(table@, i * size, size as int));
        }
        match read_entry(e, i) {
            Some(p) => {
                let ghost before = partitions@;
                let ghost pv = p@;
                partitions.push(p);
                assert(views(partitions@) =~= views(before).push(pv));
            },
            None => {},
        }
        i = i + 1;
    }
    Ok(Some(PartitionTable { kind: TableKind::Gpt, partitions }))
}

/// Partitions are numbered by their slot, from 1, so no two have the same
/// index.
pub proof fn law_indices_ascend(table: Seq<u8>, entry_size: nat, n: nat)
    ensures
        indices_ascend(table_partitions(table, entry_size, n)),
        forall|i: int|
            0 <= i < table_partitions(table, entry_size, n).len() ==> 1 <= (
            #[trigger] table_partitions(table, entry_size, n)[i]).index <= n,
    decreases n,
{
    if n > 0 {
        law_indices_ascend(table, entry_size, (n - 1) as nat);
    }
}

} // verus!
