//! MBR partition tables, with the chain of an extended partition.

use crate::blockdev::{read_vec, reads, ReadAt};
use crate::bytes::{field, le, le_at, lemma_spans};
use crate::error::Result;
use crate::part::{indices_ascend, Partition, PartitionTable, PartitionView, Scanned, TableKind, SECTOR};
use crate::seqs::views;
use crate::text::number::{hex_pad, push_hex_pad};
use vstd::prelude::*;
use vstd::string::*;

verus! {

broadcast use vstd::seq_lib::group_seq_properties;

pub const TYPE_EMPTY: u8 = 0x00;

pub const TYPE_EXTENDED_CHS: u8 = 0x05;

pub const TYPE_EXTENDED_LBA: u8 = 0x0f;

pub const TYPE_GPT_PROTECTIVE: u8 = 0xee;

/// How many links of an extended partition are followed: a hard cap against
/// malicious/corrupt chains.
pub const MAX_LINKS: usize = 128;

/// A type byte as `0x83`.
pub open spec fn type_text(t: u8) -> Seq<char> {
    "0x"@ + hex_pad(t as nat, 2)
}

/// What a partition type is called.
pub open spec fn kind_text(t: u8) -> Seq<char> {
    if t == 0x0b || t == 0x0c {
        "FAT32"@
    } else if t == 0x0e {
        "FAT16 LBA"@
    } else if t == 0x82 {
        "Linux swap"@
    } else if t == 0x83 {
        "Linux"@
    } else if t == 0x8e {
        "Linux LVM"@
    } else if t == 0xef {
        "EFI System"@
    } else {
        type_text(t)
    }
}

/// Whether a partition type is worth probing.
pub open spec fn worth_probing(t: u8) -> bool {
    t == 0x0b || t == 0x0c || t == 0x0e || t == 0x83 || t == 0xef
}

/// An extended partition, which holds others.
pub open spec fn is_extended(t: u8) -> bool {
    t == TYPE_EXTENDED_CHS || t == TYPE_EXTENDED_LBA
}

/// One of the four entries of a boot record.
#[derive(Debug, Clone, Copy)]
pub struct RawEntry {
    pub type_byte: u8,
    pub start_lba: u32,
    pub sectors: u32,
}

/// The entry `i` of a boot record.
pub open spec fn entry_at(sector: Seq<u8>, i: int) -> RawEntry {
    RawEntry {
        type_byte: sector[446 + 16 * i + 4],
        start_lba: le(field(sector, 446 + 16 * i + 8, 4)) as u32,
        sectors: le(field(sector, 446 + 16 * i + 12, 4)) as u32,
    }
}

/// A boot record ends in `55 aa`.
pub open spec fn has_mark(sector: Seq<u8>) -> bool {
    sector[510] == 0x55 && sector[511] == 0xaa
}

/// A boot sector of a bare FAT filesystem also ends in `55 aa`; require at
/// least one plausible partition entry to call it an MBR.
pub open spec fn is_plausible(sector: Seq<u8>) -> bool {
    exists|i: int|
        0 <= i < 4 && (#[trigger] entry_at(sector, i)).type_byte != TYPE_EMPTY && entry_at(
            sector,
            i,
        ).start_lba > 0 && entry_at(sector, i).sectors > 0
}

/// NT disk signature; the kernel derives MBR PARTUUIDs from it as
/// `%08x-%02x` (partition number in hex). All-zero means "not set".
pub open spec fn part_uuid(signature: nat, index: nat) -> Option<Seq<char>> {
    if signature == 0 {
        None
    } else {
        Some(hex_pad(signature, 8) + "-"@ + hex_pad(index, 2))
    }
}

/// The partition of an entry, which starts `base` bytes into the disk.
pub open spec fn partition_of(e: RawEntry, base: int, index: nat, signature: nat) -> PartitionView {
    PartitionView {
        index: index as int,
        start_byte: (base + e.start_lba * 512) as u64,
        size_bytes: (e.sectors * 512) as u64,
        kind: kind_text(e.type_byte),
        type_id: type_text(e.type_byte),
        name: None,
        probe_worthy: worth_probing(e.type_byte),
        part_uuid: part_uuid(signature, index),
    }
}

/// An entry that is a partition of its own.
pub open spec fn is_primary(e: RawEntry) -> bool {
    e.type_byte != TYPE_EMPTY && e.sectors != 0 && e.type_byte != TYPE_GPT_PROTECTIVE
        && !is_extended(e.type_byte)
}

/// The partitions of the first `n` entries of the MBR.
pub open spec fn primaries(sector: Seq<u8>, n: nat) -> Seq<PartitionView>
    decreases n,
{
    if n == 0 {
        seq![]
    } else {
        let e = entry_at(sector, n - 1);
        let before = primaries(sector, (n - 1) as nat);
        if is_primary(e) {
            before.push(partition_of(e, 0, n, le(field(sector, 440, 4))))
        } else {
            before
        }
    }
}

/// Where the extended partition starts, in bytes: the last of the first `n`
/// entries that is one.
pub open spec fn extended_start(sector: Seq<u8>, n: nat) -> Option<int>
    decreases n,
{
    if n == 0 {
        None
    } else {
        let e = entry_at(sector, n - 1);
        if e.sectors != 0 && is_extended(e.type_byte) {
            Some(e.start_lba * 512)
        } else {
            extended_start(sector, (n - 1) as nat)
        }
    }
}

/// The logical partitions from the boot record at `offset` on, the first of
/// which gets the number `index`; at most `links` records are read. Nothing,
/// where one cannot be read.
pub open spec fn logicals<D: ReadAt>(
    disk: &D,
    base: int,
    offset: int,
    index: nat,
    signature: nat,
    links: nat,
) -> Option<Seq<PartitionView>>
    decreases links,
{
    if links == 0 || offset + 512 > disk.bytes().len() {
        Some(seq![])
    } else {
        match reads(disk, offset, 512) {
            None => None,
            Some(sector) => {
                let data = entry_at(sector, 0);
                let link = entry_at(sector, 1);
                if !has_mark(sector) {
                    Some(seq![])
                } else {
                    let here = if data.type_byte != TYPE_EMPTY && data.sectors != 0 {
                        seq![partition_of(data, offset, index, signature)]
                    } else {
                        seq![]
                    };
                    if is_extended(link.type_byte) {
                        match logicals(
                            disk,
                            base,
                            base + link.start_lba * 512,
                            index + here.len(),
                            signature,
                            (links - 1) as nat,
                        ) {
                            Some(rest) => Some(here + rest),
                            None => None,
                        }
                    } else {
                        Some(here)
                    }
                }
            },
        }
    }
}

/// The partitions that the MBR in `sector` declares; logical ones are
/// numbered from 5.
pub open spec fn declared<D: ReadAt>(disk: &D, sector: Seq<u8>) -> Option<Seq<PartitionView>> {
    match extended_start(sector, 4) {
        None => Some(primaries(sector, 4)),
        Some(base) => match logicals(
            disk,
            base,
            base,
            5,
            le(field(sector, 440, 4)),
            MAX_LINKS as nat,
        ) {
            Some(l) => Some(primaries(sector, 4) + l),
            None => None,
        },
    }
}

/// The MBR of a disk.
pub open spec fn mbr_of<D: ReadAt>(disk: &D) -> Scanned {
    if disk.bytes().len() < SECTOR {
        Scanned::Absent
    } else {
        match reads(disk, 0, 512) {
            None => Scanned::Unreadable,
            Some(sector) => if !has_mark(sector) || !is_plausible(sector) {
                Scanned::Absent
            } else {
                match declared(disk, sector) {
                    None => Scanned::Unreadable,
                    Some(p) => if p.len() == 0 {
                        Scanned::Absent
                    } else {
                        Scanned::Table(p)
                    },
                }
            },
        }
    }
}

/// A type byte as `0x83`.
fn type_id(t: u8) -> (r: String)
    ensures
        r@ == type_text(t),
{
    let mut out: String = String::new();
    out.append("0x");
    push_hex_pad(&mut out, t as u64, 2);
    assert(out@ =~= type_text(t));
    out
}

/// What a partition type is called.
fn kind_of(t: u8) -> (r: String)
    ensures
        r@ == kind_text(t),
{
    if t == 0x0b || t == 0x0c {
        "FAT32".to_owned()
    } else if t == 0x0e {
        "FAT16 LBA".to_owned()
    } else if t == 0x82 {
        "Linux swap".to_owned()
    } else if t == 0x83 {
        "Linux".to_owned()
    } else if t == 0x8e {
        "Linux LVM".to_owned()  // probe once LVM support lands

    } else if t == 0xef {
        "EFI System".to_owned()
    } else {
        type_id(t)
    }
}

/// The entry `i` of a boot record.
fn read_entry(sector: &[u8], i: usize) -> (r: RawEntry)
    requires
        sector@.len() == 512,
        i < 4,
    ensures
        r == entry_at(sector@, i as int),
{
    let at: usize = 446 + 16 * i;
    proof {
        lemma_spans();
    }
    RawEntry {
        type_byte: sector[at + 4],
        start_lba: le_at(sector, at + 8, 4) as u32,
        sectors: le_at(sector, at + 12, 4) as u32,
    }
}

/// Whether a boot record ends in `55 aa`.
fn marked(sector: &[u8]) -> (r: bool)
    requires
        sector@.len() == 512,
    ensures
        r == has_mark(sector@),
{
    sector[510] == 0x55 && sector[511] == 0xaa
}

fn extended(t: u8) -> (r: bool)
    ensures
        r == is_extended(t),
{
    t == TYPE_EXTENDED_CHS || t == TYPE_EXTENDED_LBA
}

/// Whether one entry is a plausible partition.
fn plausible(sector: &[u8]) -> (r: bool)
    requires
        sector@.len() == 512,
    ensures
        r == is_plausible(sector@),
{
    let mut i: usize = 0;
    while i < 4
        invariant
            i <= 4,
            sector@.len() == 512,
            forall|j: int|
                0 <= j < i ==> (#[trigger] entry_at(sector@, j)).type_byte == TYPE_EMPTY || entry_at(
                    sector@,
                    j,
                ).start_lba == 0 || entry_at(sector@, j).sectors == 0,
        decreases 4 - i,
    {
        let e = read_entry(sector, i);
        if e.type_byte != TYPE_EMPTY && e.start_lba > 0 && e.sectors > 0 {
            return true;
        }
        i = i + 1;
    }
    false
}

/// The partition of an entry.
fn partition(e: RawEntry, base: u64, index: usize, signature: u64) -> (r: Partition)
    requires
        base <= 0x400_0000_0000,
    ensures
        r@ == partition_of(e, base as int, index as nat, signature as nat),
{
    let uuid: Option<String> = if signature == 0 {
        None
    } else {
        let mut out: String = String::new();
        push_hex_pad(&mut out, signature, 8);
        out.append("-");
        push_hex_pad(&mut out, index as u64, 2);
        assert(out@ =~= hex_pad(signature as nat, 8) + "-"@ + hex_pad(index as nat, 2));
        Some(out)
    };
    let t: u8 = e.type_byte;
    Partition {
        index,
        start_byte: base + e.start_lba as u64 * SECTOR,
        size_bytes: e.sectors as u64 * SECTOR,
        kind: kind_of(t),
        type_id: type_id(t),
        name: None,
        probe_worthy: t == 0x0b || t == 0x0c || t == 0x0e || t == 0x83 || t == 0xef,
        part_uuid: uuid,
    }
}

/// Append a partition.
fn add_partition(list: &mut Vec<Partition>, p: Partition)
    ensures
        views(final(list)@) == views(old(list)@).push(p@),
{
    let ghost before = list@;
    let ghost pv = p@;
    list.push(p);
    assert(views(list@) =~= views(before).push(pv));
}

/// Walk the EBR chain; logical partitions are numbered from 5.
fn walk_chain<D: ReadAt>(disk: &D, base: u64, signature: u64, list: &mut Vec<Partition>) -> (r: Result<
    (),
>)
    requires
        base <= 0x200_0000_0000,
    ensures
        disk.sound() ==> match logicals(
            disk,
            base as int,
            base as int,
            5,
            signature as nat,
            MAX_LINKS as nat,
        ) {
            Some(l) => r is Ok && views(final(list)@) == views(old(list)@) + l,
            None => r is Err,
        },
{
    let ghost want = logicals(
        disk,
        base as int,
        base as int,
        5,
        signature as nat,
        MAX_LINKS as nat,
    );
    let ghost v0 = views(list@);
    let mut offset: u64 = base;
    let mut index: usize = 5;
    let mut links: usize = MAX_LINKS;
    let ghost mut found: Seq<PartitionView> = seq![];
    assert(v0 + found =~= v0);
    while links > 0
        invariant
            links <= MAX_LINKS,
            index <= 5 + (MAX_LINKS - links),
            base <= 0x200_0000_0000,
            offset <= 0x400_0000_0000,
            v0 == views(old(list)@),
            want == logicals(
                disk,
                base as int,
                base as int,
                5,
                signature as nat,
                MAX_LINKS as nat,
            ),
            disk.sound() ==> views(list@) == v0 + found,
            disk.sound() ==> want == (match logicals(
                disk,
                base as int,
                offset as int,
                index as nat,
                signature as nat,
                links as nat,
            ) {
                Some(rest) => Some(found + rest),
                None => None,
            }),
        decreases links,
    {
        if disk.check_bounds(offset, 512).is_err() {
            assert(disk.sound() ==> found + Seq::<PartitionView>::empty() =~= found);
            return Ok(());
        }
        let sector = read_vec(disk, offset, 512)?;
        if !marked(sector.as_slice()) {
            assert(disk.sound() ==> found + Seq::<PartitionView>::empty() =~= found);
            return Ok(());
        }
        let data = read_entry(sector.as_slice(), 0);
        let link = read_entry(sector.as_slice(), 1);
        let ghost mut here: Seq<PartitionView> = seq![];
        let ghost before = found;
        if data.type_byte != TYPE_EMPTY && data.sectors != 0 {
            let p = partition(data, offset, index, signature);
            proof {
                here = seq![p@];
            }
            add_partition(list, p);
            index = index + 1;
        }
        proof {
            found = before + here;
            assert(disk.sound() ==> views(list@) =~= v0 + found);
            assert forall|rest: Seq<PartitionView>|
                #![trigger found + rest]
                found + rest == before + (here + rest) by {
                assert(found + rest =~= before + (here + rest));
            }
        }
        if !extended(link.type_byte) {
            return Ok(());
        }
        offset = base + link.start_lba as u64 * SECTOR;
        links = links - 1;
    }
    assert(disk.sound() ==> found + Seq::<PartitionView>::empty() =~= found);
    Ok(())
}

/// Returns `Ok(None)` if there is no valid MBR (or it is GPT-protective -
/// the GPT scanner runs first, so seeing 0xee here means a broken GPT).
pub fn scan<D: ReadAt>(disk: &D) -> (r: Result<Option<PartitionTable>>)
    ensures
        r matches Ok(Some(t)) ==> t.kind == TableKind::Mbr && t.partitions@.len() > 0,
        disk.sound() ==> match mbr_of(disk) {
            Scanned::Absent => r matches Ok(t) && t is None,
            Scanned::Table(p) => r matches Ok(Some(t)) && t.kind == TableKind::Mbr && views(
                t.partitions@,
            ) == p,
            Scanned::Refused(e) => false,
            Scanned::Unreadable => r is Err,
        },
{
    if disk.size() < SECTOR {
        return Ok(None);
    }
    let sector = read_vec(disk, 0, 512)?;
    let s = sector.as_slice();
    if !marked(s) || !plausible(s) {
        return Ok(None);
    }
    let signature: u64 = le_at(s, 440, 4);
    let mut partitions: Vec<Partition> = Vec::new();
    let mut base: Option<u64> = None;
    let mut i: usize = 0;
    assert(views(partitions@) =~= Seq::<PartitionView>::empty());
    while i < 4
        invariant
            i <= 4,
            s@ == sector@,
            s@.len() == 512,
            signature == le(field(s@, 440, 4)),
            views(partitions@) == primaries(s@, i as nat),
            match base {
                Some(b) => extended_start(s@, i as nat) == Some(b as int) && b <= 0x200_0000_0000,
                None => extended_start(s@, i as nat) is None,
            },
        decreases 4 - i,
    {
        let e = read_entry(s, i);
        i = i + 1;
        if e.type_byte == TYPE_EMPTY || e.sectors == 0 {
            continue;
        }
        if e.type_byte == TYPE_GPT_PROTECTIVE {
            continue;
        }
        if extended(e.type_byte) {
            base = Some(e.start_lba as u64 * SECTOR);
            continue;
        }
        add_partition(&mut partitions, partition(e, 0, i, signature));
    }
    if let Some(b) = base {
        walk_chain(disk, b, signature, &mut partitions)?;
    }
    if partitions.len() == 0 {
        return Ok(None);
    }
    Ok(Some(PartitionTable { kind: TableKind::Mbr, partitions }))
}

/// Primary partitions are numbered by their place, logical ones from 5, so no
/// two have the same index.
pub proof fn law_indices_ascend<D: ReadAt>(disk: &D, sector: Seq<u8>)
    ensures
        declared(disk, sector) matches Some(p) ==> indices_ascend(p),
{
    lemma_primaries(sector, 4);
    if extended_start(sector, 4) is Some {
        let base = extended_start(sector, 4)->0;
        lemma_logicals(disk, base, base, 5, le(field(sector, 440, 4)), MAX_LINKS as nat);
    }
}

proof fn lemma_primaries(sector: Seq<u8>, n: nat)
    requires
        n <= 4,
    ensures
        indices_ascend(primaries(sector, n)),
        forall|i: int|
            0 <= i < primaries(sector, n).len() ==> 1 <= (#[trigger] primaries(sector, n)[i]).index
                <= n,
    decreases n,
{
    if n > 0 {
        lemma_primaries(sector, (n - 1) as nat);
    }
}

proof fn lemma_logicals<D: ReadAt>(
    disk: &D,
    base: int,
    offset: int,
    index: nat,
    signature: nat,
    links: nat,
)
    ensures
        logicals(disk, base, offset, index, signature, links) matches Some(l) ==> indices_ascend(l)
            && forall|i: int| 0 <= i < l.len() ==> (#[trigger] l[i]).index >= index,
    decreases links,
{
    if links > 0 && offset + 512 <= disk.bytes().len() && reads(disk, offset, 512) is Some {
        let sector = reads(disk, offset, 512)->0;
        let data = entry_at(sector, 0);
        let link = entry_at(sector, 1);
        let next = if data.type_byte != TYPE_EMPTY && data.sectors != 0 {
            index + 1
        } else {
            index
        };
        lemma_logicals(
            disk,
            base,
            base + link.start_lba * 512,
            next,
            signature,
            (links - 1) as nat,
        );
    }
}

} // verus!
