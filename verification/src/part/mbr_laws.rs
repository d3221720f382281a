//! What the bytes of an MBR partition table say.

use crate::blockdev::{holds, law_reads_are_the_bytes, ReadAt};
use crate::bytes::{law_fields_are_numbers, small32};
use crate::part::gpt::gpt_of;
use crate::part::mbr::{
    entry_at, extended_start, is_plausible, kind_text, logicals, mbr_of, part_uuid, partition_of,
    primaries, type_text, worth_probing,
};
use crate::part::{table_of, PartitionView, Scanned, TableKind};
use crate::text::number::{hex_digit, hex_pad, law_padding_is_zeros};
use vstd::prelude::*;
use vstd::string::*;

verus! {

/// What the types of partitions are called; one that is not known is called
/// by its number.
pub proof fn law_types_have_names(t: u8)
    ensures
        kind_text(0x0b) == "FAT32"@,
        kind_text(0x0c) == "FAT32"@,
        kind_text(0x0e) == "FAT16 LBA"@,
        kind_text(0x82) == "Linux swap"@,
        kind_text(0x83) == "Linux"@,
        kind_text(0x8e) == "Linux LVM"@,
        kind_text(0xef) == "EFI System"@,
        type_text(t) == seq!['0', 'x', hex_digit((t / 16) as int), hex_digit((t % 16) as int)],
        !(t == 0x0b || t == 0x0c || t == 0x0e || t == 0x82 || t == 0x83 || t == 0x8e || t == 0xef)
            ==> kind_text(t) == type_text(t),
        worth_probing(t) <==> (t == 0x0b || t == 0x0c || t == 0x0e || t == 0x83 || t == 0xef),
{
    reveal_strlit("0x");
    law_padding_is_zeros(t as nat, 2);
    assert(type_text(t) =~= seq!['0', 'x', hex_digit((t / 16) as int), hex_digit((t % 16) as int)]);
}

/// A partition's UUID is the disk's signature in eight digits and its own
/// number in two; without a signature there is none.
pub proof fn law_uuid_is_signature_and_number(signature: nat, index: nat)
    requires
        0 < signature <= u32::MAX,
        index < 256,
    ensures
        part_uuid(0, index) is None,
        part_uuid(signature, index) matches Some(u) && u.len() >= 11 && u.skip(u.len() - 3) == seq![
            '-',
            hex_digit((index / 16) as int),
            hex_digit((index % 16) as int),
        ] && u.take(u.len() - 3) == hex_pad(signature, 8),
{
    reveal_strlit("-");
    law_padding_is_zeros(index, 2);
    law_padding_is_zeros(signature, 8);
    let u = hex_pad(signature, 8) + "-"@ + hex_pad(index, 2);
    assert(u.skip(u.len() - 3) =~= seq![
        '-',
        hex_digit((index / 16) as int),
        hex_digit((index % 16) as int),
    ]);
    assert(u.take(u.len() - 3) =~= hex_pad(signature, 8));
}

proof fn lemma_entry(sector: Seq<u8>, i: int)
    requires
        sector.len() == 512,
        0 <= i < 4,
    ensures
        entry_at(sector, i).type_byte == sector[450 + 16 * i],
        entry_at(sector, i).start_lba == small32(sector, 454 + 16 * i),
        entry_at(sector, i).sectors == small32(sector, 458 + 16 * i),
{
    law_fields_are_numbers(sector, 454 + 16 * i);
    law_fields_are_numbers(sector, 458 + 16 * i);
}

/// The partition that starts `base` bytes into the disk and whose entry is at
/// `at`: the type is the fifth byte of the entry, the first sector the number
/// at 8, and how many there are the number at 12. A sector has 512 bytes.
pub open spec fn partition_at(sector: Seq<u8>, at: int, base: int, index: nat) -> PartitionView {
    PartitionView {
        index: index as int,
        start_byte: (base + small32(sector, at + 8) * 512) as u64,
        size_bytes: (small32(sector, at + 12) * 512) as u64,
        kind: kind_text(sector[at + 4]),
        type_id: type_text(sector[at + 4]),
        name: None,
        probe_worthy: worth_probing(sector[at + 4]),
        part_uuid: None,
    }
}

/// The four slots from 446 on are read in order. A slot is a partition with
/// the slot's number, unless it is empty, the mark of a GPT disk or an
/// extended partition.
pub proof fn law_slots_are_read_in_order(sector: Seq<u8>, n: nat)
    requires
        sector.len() == 512,
        n < 4,
    ensures
        ({
            let at: int = 446 + 16 * n as int;
            let t = sector[at + 4];
            let used = t != 0 && t != 0xee && t != 0x05 && t != 0x0f && small32(sector, at + 12) > 0;
            let before = primaries(sector, n);
            let after = primaries(sector, n + 1);
            if used {
                after == before.push(
                    PartitionView {
                        part_uuid: part_uuid(small32(sector, 440) as nat, n + 1),
                        ..partition_at(sector, at, 0, n + 1)
                    },
                )
            } else {
                after == before
            }
        }),
        primaries(sector, 0) == Seq::<PartitionView>::empty(),
{
    lemma_entry(sector, n as int);
    law_fields_are_numbers(sector, 440);
    let at: int = 446 + 16 * n as int;
    law_fields_are_numbers(sector, at + 12);
    let e = entry_at(sector, n as int);
    assert(e.sectors == small32(sector, at + 12));
}

/// An extended partition is one of type 5 or 15; the last of the slots counts.
pub proof fn law_last_extended_counts(sector: Seq<u8>, n: nat)
    requires
        sector.len() == 512,
        n < 4,
    ensures
        ({
            let at: int = 446 + 16 * n as int;
            let t = sector[at + 4];
            extended_start(sector, n + 1) == (if (t == 0x05 || t == 0x0f) && small32(sector, at + 12)
                > 0 {
                Some(512 * small32(sector, at + 8))
            } else {
                extended_start(sector, n)
            })
        }),
        extended_start(sector, 0) is None,
{
    lemma_entry(sector, n as int);
    let at: int = 446 + 16 * n as int;
    law_fields_are_numbers(sector, at + 12);
    assert(entry_at(sector, n as int).sectors == small32(sector, at + 12));
    assert(entry_at(sector, n as int).start_lba == small32(sector, at + 8));
}

/// A record of the chain: its first slot is a logical partition that starts
/// behind the record, with the next number; its second slot, where that is an
/// extended partition, says how far behind the start of the whole chain the
/// next record is.
pub proof fn law_chain_is_followed<D: ReadAt>(
    disk: &D,
    b: Seq<u8>,
    base: int,
    at: int,
    index: nat,
    signature: nat,
    links: nat,
)
    requires
        holds(disk, b),
        0 <= at,
        links > 0,
    ensures
        at + 512 > b.len() ==> logicals(disk, base, at, index, signature, links) == Some(
            Seq::<PartitionView>::empty(),
        ),
        at + 512 <= b.len() && !(b[at + 510] == 0x55 && b[at + 511] == 0xaa) ==> logicals(
            disk,
            base,
            at,
            index,
            signature,
            links,
        ) == Some(Seq::<PartitionView>::empty()),
        at + 512 <= b.len() && b[at + 510] == 0x55 && b[at + 511] == 0xaa ==> ({
            let used = b[at + 450] != 0 && small32(b, at + 458) > 0;
            let here = if used {
                seq![
                    PartitionView {
                        part_uuid: part_uuid(signature, index),
                        ..partition_at(b, at + 446, at, index)
                    },
                ]
            } else {
                seq![]
            };
            if b[at + 466] == 0x05 || b[at + 466] == 0x0f {
                match logicals(
                    disk,
                    base,
                    base + 512 * small32(b, at + 470),
                    if used {
                        index + 1
                    } else {
                        index
                    },
                    signature,
                    (links - 1) as nat,
                ) {
                    Some(rest) => logicals(disk, base, at, index, signature, links) == Some(here + rest),
                    None => logicals(disk, base, at, index, signature, links) is None,
                }
            } else {
                logicals(disk, base, at, index, signature, links) == Some(here)
            }
        }),
        logicals(disk, base, at, index, signature, 0) == Some(Seq::<PartitionView>::empty()),
{
    law_reads_are_the_bytes(disk, b, at, 512);
    if at + 512 <= b.len() {
        let s = b.subrange(at, at + 512);
        lemma_entry(s, 0);
        lemma_entry(s, 1);
        assert(s[450] == b[at + 450] && s[466] == b[at + 466]);
        assert(s[510] == b[at + 510] && s[511] == b[at + 511]);
        assert(small32(s, 454) == small32(b, at + 454));
        assert(small32(s, 458) == small32(b, at + 458));
        assert(small32(s, 470) == small32(b, at + 470));
        let data = entry_at(s, 0);
        assert(small32(b, at + 458) >= 0);
        assert(data.sectors != 0 <==> small32(b, at + 458) > 0);
        assert(partition_of(data, at, index, signature) == (PartitionView {
            part_uuid: part_uuid(signature, index),
            ..partition_at(b, at + 446, at, index)
        }));
    }
}

/// A disk whose first sector ends in `55 aa` and has a slot in use is
/// partitioned as its slots say; the partitions of the chain come behind the
/// others and are numbered from 5, and at most 128 records of it are read.
pub proof fn law_first_sector_has_the_slots<D: ReadAt>(disk: &D, b: Seq<u8>, i: int)
    requires
        holds(disk, b),
        b.len() >= 512,
        b[510] == 0x55,
        b[511] == 0xaa,
        0 <= i < 4,
        b[450 + 16 * i] != 0,
        small32(b, 454 + 16 * i) > 0,
        small32(b, 458 + 16 * i) > 0,
    ensures
        ({
            let sector = b.take(512);
            let own = primaries(sector, 4);
            let all = match extended_start(sector, 4) {
                None => Some(own),
                Some(base) => match logicals(
                    disk,
                    base,
                    base,
                    5,
                    small32(sector, 440) as nat,
                    128,
                ) {
                    Some(l) => Some(own + l),
                    None => None,
                },
            };
            match all {
                Some(p) => mbr_of(disk) == (if p.len() > 0 {
                    Scanned::Table(p)
                } else {
                    Scanned::Absent
                }),
                None => mbr_of(disk) is Unreadable,
            }
        }),
{
    law_reads_are_the_bytes(disk, b, 0, 512);
    let sector = b.subrange(0, 512);
    assert(sector =~= b.take(512));
    lemma_entry(sector, i);
    assert(sector[450 + 16 * i] == b[450 + 16 * i]);
    assert(small32(sector, 454 + 16 * i) == small32(b, 454 + 16 * i));
    assert(small32(sector, 458 + 16 * i) == small32(b, 458 + 16 * i));
    assert(sector[510] == b[510] && sector[511] == b[511]);
    assert(is_plausible(sector)) by {
        let e = entry_at(sector, i);
        assert(e.type_byte != 0 && e.start_lba > 0 && e.sectors > 0);
    }
    law_fields_are_numbers(sector, 440);
}

/// A disk that does not end its first sector in `55 aa`, or has no slot in
/// use, has no such table.
pub proof fn law_what_is_no_table<D: ReadAt>(disk: &D, b: Seq<u8>)
    requires
        holds(disk, b),
    ensures
        b.len() < 512 ==> mbr_of(disk) is Absent,
        b.len() >= 512 && !(b[510] == 0x55 && b[511] == 0xaa) ==> mbr_of(disk) is Absent,
        b.len() >= 512 && (forall|i: int|
            0 <= i < 4 ==> #[trigger] b[450 + 16 * i] == 0 || small32(b, 454 + 16 * i) == 0 || small32(
                b,
                458 + 16 * i,
            ) == 0) ==> mbr_of(disk) is Absent,
{
    law_reads_are_the_bytes(disk, b, 0, 512);
    if b.len() >= 512 {
        let sector = b.subrange(0, 512);
        assert(sector[510] == b[510] && sector[511] == b[511]);
        if forall|i: int|
            0 <= i < 4 ==> #[trigger] b[450 + 16 * i] == 0 || small32(b, 454 + 16 * i) == 0 || small32(
                b,
                458 + 16 * i,
            ) == 0 {
            if is_plausible(sector) {
                let i = choose|i: int|
                    0 <= i < 4 && (#[trigger] entry_at(sector, i)).type_byte != 0 && entry_at(
                        sector,
                        i,
                    ).start_lba > 0 && entry_at(sector, i).sectors > 0;
                lemma_entry(sector, i);
                assert(sector[450 + 16 * i] == b[450 + 16 * i]);
                assert(small32(sector, 454 + 16 * i) == small32(b, 454 + 16 * i));
                assert(small32(sector, 458 + 16 * i) == small32(b, 458 + 16 * i));
                assert(b[450 + 16 * i] == 0 || small32(b, 454 + 16 * i) == 0 || small32(
                    b,
                    458 + 16 * i,
                ) == 0);
            }
        }
    }
}

/// A GPT counts before an MBR, and a disk with neither is one partition as a
/// whole.
pub proof fn law_which_table_counts<D: ReadAt>(disk: &D)
    ensures
        gpt_of(disk) matches Scanned::Table(p) ==> (table_of(disk) matches Ok(t) && t.kind
            == TableKind::Gpt && t.partitions == p),
        gpt_of(disk) is Refused || gpt_of(disk) is Unreadable ==> table_of(disk) is Err,
        gpt_of(disk) is Absent ==> (mbr_of(disk) matches Scanned::Table(p) ==> (table_of(disk) matches Ok(
            t,
        ) && t.kind == TableKind::Mbr && t.partitions == p)),
        gpt_of(disk) is Absent && mbr_of(disk) is Absent && disk.bytes().len() <= u64::MAX ==> (table_of(
            disk,
        ) matches Ok(t) && t.kind == TableKind::NoTable && t.partitions.len() == 1
            && t.partitions[0].start_byte == 0 && t.partitions[0].size_bytes == disk.bytes().len()
            && t.partitions[0].index == 1 && t.partitions[0].probe_worthy),
{
}

} // verus!
