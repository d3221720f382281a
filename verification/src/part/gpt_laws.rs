//! What the bytes of a GUID partition table say.

use crate::blockdev::{holds, law_reads_are_the_bytes, reads, ReadAt};
use crate::bytes::{field, law_fields_are_numbers, law_little_endian, le, small32, small64};
use crate::part::gpt::{
    entry_partition, gpt_of, guid_text, name_units, table_partitions, type_named,
};
use crate::part::{PartitionView, Scanned};
use crate::text::number::{hex_bytes, hex_digit, law_bytes_in_hex};
use crate::text::utf16::decode_utf16;
use vstd::prelude::*;
use vstd::string::*;

verus! {

/// A GUID is written as its bytes in hexadecimal; in its first three groups
/// the bytes stand in reverse order.
pub proof fn law_guid_text(g: Seq<u8>)
    requires
        g.len() == 16,
    ensures
        guid_text(g) == seq![
            hex_digit((g[3] / 16) as int),
            hex_digit((g[3] % 16) as int),
            hex_digit((g[2] / 16) as int),
            hex_digit((g[2] % 16) as int),
            hex_digit((g[1] / 16) as int),
            hex_digit((g[1] % 16) as int),
            hex_digit((g[0] / 16) as int),
            hex_digit((g[0] % 16) as int),
            '-',
            hex_digit((g[5] / 16) as int),
            hex_digit((g[5] % 16) as int),
            hex_digit((g[4] / 16) as int),
            hex_digit((g[4] % 16) as int),
            '-',
            hex_digit((g[7] / 16) as int),
            hex_digit((g[7] % 16) as int),
            hex_digit((g[6] / 16) as int),
            hex_digit((g[6] % 16) as int),
            '-',
            hex_digit((g[8] / 16) as int),
            hex_digit((g[8] % 16) as int),
            hex_digit((g[9] / 16) as int),
            hex_digit((g[9] % 16) as int),
            '-',
            hex_digit((g[10] / 16) as int),
            hex_digit((g[10] % 16) as int),
            hex_digit((g[11] / 16) as int),
            hex_digit((g[11] % 16) as int),
            hex_digit((g[12] / 16) as int),
            hex_digit((g[12] % 16) as int),
            hex_digit((g[13] / 16) as int),
            hex_digit((g[13] % 16) as int),
            hex_digit((g[14] / 16) as int),
            hex_digit((g[14] % 16) as int),
            hex_digit((g[15] / 16) as int),
            hex_digit((g[15] % 16) as int),
        ],
{
    reveal_strlit("-");
    let a = seq![g[3], g[2], g[1], g[0]];
    let b = seq![g[5], g[4]];
    let c = seq![g[7], g[6]];
    let d = seq![g[8], g[9]];
    let e = seq![g[10], g[11], g[12], g[13], g[14], g[15]];
    law_bytes_in_hex(a);
    law_bytes_in_hex(b);
    law_bytes_in_hex(c);
    law_bytes_in_hex(d);
    law_bytes_in_hex(e);
    assert(a[0] == g[3] && a[1] == g[2] && a[2] == g[1] && a[3] == g[0]);
    assert(b[0] == g[5] && b[1] == g[4]);
    assert(c[0] == g[7] && c[1] == g[6]);
    assert(d[0] == g[8] && d[1] == g[9]);
    assert(e[0] == g[10] && e[1] == g[11] && e[2] == g[12] && e[3] == g[13] && e[4] == g[14] && e[5]
        == g[15]);
    assert(hex_bytes(a).len() == 8 && hex_bytes(b).len() == 4 && hex_bytes(c).len() == 4 && hex_bytes(
        d,
    ).len() == 4 && hex_bytes(e).len() == 12);
    assert(guid_text(g).len() == 36);
}

/// What the partition types are called, and which of them may hold what a
/// guest boots.
pub proof fn law_types_have_names()
    ensures
        type_named("c12a7328-f81f-11d2-ba4b-00a0c93ec93b"@) == Some(("EFI System"@, true)),
        type_named("0fc63daf-8483-4772-8e79-3d69d8477de4"@) == Some(("Linux filesystem"@, true)),
        type_named("bc13c2ff-59e6-4262-a352-b275fd6f7172"@) == Some(("Linux extended boot"@, true)),
        type_named("4f68bce3-e8cd-4db1-96e7-fbcaf984b709"@) == Some(("Linux root (x86-64)"@, true)),
        type_named("b921b045-1df0-41c3-af44-4c6f280d3fae"@) == Some(("Linux root (ARM64)"@, true)),
        type_named("ebd0a0a2-b9e5-4433-87c0-68b6b72699c7"@) == Some(("Microsoft basic data"@, true)),
        type_named("e3c9e316-0b5c-4db8-817d-f92df00215ae"@) == Some(("Microsoft reserved"@, false)),
        type_named("de94bba4-06d1-4d40-a16a-bfd50179d6ac"@) == Some(("Windows recovery"@, false)),
        type_named("5808c8aa-7e8f-42e0-85d2-e1e90434cfb3"@) == Some(("Microsoft LDM metadata"@, false)),
        type_named("af9b60a0-1431-4f62-bc68-3311714a69ad"@) == Some(("Microsoft LDM data"@, false)),
        type_named("e75caf8f-f680-4cee-afa3-b001e56efc2d"@) == Some(("Microsoft Storage Spaces"@, false)),
        type_named("e6d6d379-f507-44c2-a23c-238f2a3df928"@) == Some(("Linux LVM"@, false)),
        type_named("0657fd6d-a4ab-43c4-84e5-0933c84b4f4f"@) == Some(("Linux swap"@, false)),
        type_named("21686148-6449-6e6f-744e-656564454649"@) == Some(("BIOS boot"@, false)),
{
    reveal_strlit("c12a7328-f81f-11d2-ba4b-00a0c93ec93b");
    reveal_strlit("0fc63daf-8483-4772-8e79-3d69d8477de4");
    reveal_strlit("bc13c2ff-59e6-4262-a352-b275fd6f7172");
    reveal_strlit("4f68bce3-e8cd-4db1-96e7-fbcaf984b709");
    reveal_strlit("b921b045-1df0-41c3-af44-4c6f280d3fae");
    reveal_strlit("ebd0a0a2-b9e5-4433-87c0-68b6b72699c7");
    reveal_strlit("e3c9e316-0b5c-4db8-817d-f92df00215ae");
    reveal_strlit("de94bba4-06d1-4d40-a16a-bfd50179d6ac");
    reveal_strlit("5808c8aa-7e8f-42e0-85d2-e1e90434cfb3");
    reveal_strlit("af9b60a0-1431-4f62-bc68-3311714a69ad");
    reveal_strlit("e75caf8f-f680-4cee-afa3-b001e56efc2d");
    reveal_strlit("e6d6d379-f507-44c2-a23c-238f2a3df928");
    reveal_strlit("0657fd6d-a4ab-43c4-84e5-0933c84b4f4f");
    reveal_strlit("21686148-6449-6e6f-744e-656564454649");
    assert("c12a7328-f81f-11d2-ba4b-00a0c93ec93b"@[0] == 'c' && "c12a7328-f81f-11d2-ba4b-00a0c93ec93b"@[1] == '1' && "c12a7328-f81f-11d2-ba4b-00a0c93ec93b"@[2] == '2');
    assert("0fc63daf-8483-4772-8e79-3d69d8477de4"@[0] == '0' && "0fc63daf-8483-4772-8e79-3d69d8477de4"@[1] == 'f' && "0fc63daf-8483-4772-8e79-3d69d8477de4"@[2] == 'c');
    assert("bc13c2ff-59e6-4262-a352-b275fd6f7172"@[0] == 'b' && "bc13c2ff-59e6-4262-a352-b275fd6f7172"@[1] == 'c' && "bc13c2ff-59e6-4262-a352-b275fd6f7172"@[2] == '1');
    assert("4f68bce3-e8cd-4db1-96e7-fbcaf984b709"@[0] == '4' && "4f68bce3-e8cd-4db1-96e7-fbcaf984b709"@[1] == 'f' && "4f68bce3-e8cd-4db1-96e7-fbcaf984b709"@[2] == '6');
    assert("b921b045-1df0-41c3-af44-4c6f280d3fae"@[0] == 'b' && "b921b045-1df0-41c3-af44-4c6f280d3fae"@[1] == '9' && "b921b045-1df0-41c3-af44-4c6f280d3fae"@[2] == '2');
    assert("ebd0a0a2-b9e5-4433-87c0-68b6b72699c7"@[0] == 'e' && "ebd0a0a2-b9e5-4433-87c0-68b6b72699c7"@[1] == 'b' && "ebd0a0a2-b9e5-4433-87c0-68b6b72699c7"@[2] == 'd');
    assert("e3c9e316-0b5c-4db8-817d-f92df00215ae"@[0] == 'e' && "e3c9e316-0b5c-4db8-817d-f92df00215ae"@[1] == '3' && "e3c9e316-0b5c-4db8-817d-f92df00215ae"@[2] == 'c');
    assert("de94bba4-06d1-4d40-a16a-bfd50179d6ac"@[0] == 'd' && "de94bba4-06d1-4d40-a16a-bfd50179d6ac"@[1] == 'e' && "de94bba4-06d1-4d40-a16a-bfd50179d6ac"@[2] == '9');
    assert("5808c8aa-7e8f-42e0-85d2-e1e90434cfb3"@[0] == '5' && "5808c8aa-7e8f-42e0-85d2-e1e90434cfb3"@[1] == '8' && "5808c8aa-7e8f-42e0-85d2-e1e90434cfb3"@[2] == '0');
    assert("af9b60a0-1431-4f62-bc68-3311714a69ad"@[0] == 'a' && "af9b60a0-1431-4f62-bc68-3311714a69ad"@[1] == 'f' && "af9b60a0-1431-4f62-bc68-3311714a69ad"@[2] == '9');
    assert("e75caf8f-f680-4cee-afa3-b001e56efc2d"@[0] == 'e' && "e75caf8f-f680-4cee-afa3-b001e56efc2d"@[1] == '7' && "e75caf8f-f680-4cee-afa3-b001e56efc2d"@[2] == '5');
    assert("e6d6d379-f507-44c2-a23c-238f2a3df928"@[0] == 'e' && "e6d6d379-f507-44c2-a23c-238f2a3df928"@[1] == '6' && "e6d6d379-f507-44c2-a23c-238f2a3df928"@[2] == 'd');
    assert("0657fd6d-a4ab-43c4-84e5-0933c84b4f4f"@[0] == '0' && "0657fd6d-a4ab-43c4-84e5-0933c84b4f4f"@[1] == '6' && "0657fd6d-a4ab-43c4-84e5-0933c84b4f4f"@[2] == '5');
    assert("21686148-6449-6e6f-744e-656564454649"@[0] == '2' && "21686148-6449-6e6f-744e-656564454649"@[1] == '1' && "21686148-6449-6e6f-744e-656564454649"@[2] == '6');
}

/// An entry in use says where its partition is: the first of its sectors is
/// the number at 32, the last the number at 40, and a sector has 512 bytes.
/// The slots are counted from 1. The type is at 0 and the partition's own
/// GUID at 16, where it has one.
pub proof fn law_entry_says_where(e: Seq<u8>, i: int)
    requires
        e.len() >= 128,
    ensures
        ({
            let first = small64(e, 32);
            let last = small64(e, 40);
            let used = exists|k: int| 0 <= k < 16 && #[trigger] e[k] != 0;
            let own = exists|k: int| 16 <= k < 32 && #[trigger] e[k] != 0;
            &&& (used && first <= last) == (entry_partition(e, i) is Some)
            &&& entry_partition(e, i) matches Some(p) ==> {
                &&& p.index == i + 1
                &&& first * 512 <= u64::MAX ==> p.start_byte == first * 512
                &&& (last - first + 1) * 512 <= u64::MAX ==> p.size_bytes == (last - first + 1) * 512
                &&& p.type_id == guid_text(e.take(16))
                &&& p.part_uuid == (if own {
                    Some(guid_text(e.subrange(16, 32)))
                } else {
                    None
                })
            }
        }),
{
    law_fields_are_numbers(e, 32);
    law_fields_are_numbers(e, 40);
    let t = field(e, 0, 16);
    let u = field(e, 16, 16);
    assert(t =~= e.take(16));
    if exists|k: int| 0 <= k < 16 && #[trigger] e[k] != 0 {
        let k = choose|k: int| 0 <= k < 16 && #[trigger] e[k] != 0;
        assert(t[k] != 0);
    } else {
        assert forall|k: int| 0 <= k < t.len() implies #[trigger] t[k] == 0 by {
            assert(t[k] == e[k]);
        }
    }
    if exists|k: int| 16 <= k < 32 && #[trigger] e[k] != 0 {
        let k = choose|k: int| 16 <= k < 32 && #[trigger] e[k] != 0;
        assert(u[k - 16] != 0);
    } else {
        assert forall|k: int| 0 <= k < u.len() implies #[trigger] u[k] == 0 by {
            assert(u[k] == e[k + 16]);
        }
    }
}

/// What a partition is called goes by its type; one whose type is not known
/// is called by the GUID of the type and is not probed.
pub proof fn law_entry_says_what(e: Seq<u8>, i: int)
    requires
        e.len() >= 128,
    ensures
        entry_partition(e, i) matches Some(p) ==> (match type_named(p.type_id) {
            Some((name, probe)) => p.kind == name && p.probe_worthy == probe,
            None => p.kind == p.type_id && !p.probe_worthy,
        }),
{
}

/// The name of a partition is the text at 56, in UTF-16 up to a zero: each two
/// bytes are a code unit, the lower byte first.
pub proof fn law_name_is_up_to_zero(b: Seq<u8>, x: u8, y: u8)
    ensures
        x != 0 || y != 0 ==> name_units(seq![x, y] + b) == seq![(x + 256 * y) as u16] + name_units(b),
        name_units(seq![0u8, 0u8] + b) == Seq::<u16>::empty(),
        name_units(seq![]) == Seq::<u16>::empty(),
{
    let s = seq![x, y] + b;
    let z = seq![0u8, 0u8] + b;
    law_little_endian(s.take(2));
    law_little_endian(z.take(2));
    assert(s.skip(2) =~= b);
}

/// The text at 56 is the name; an empty one is none.
pub proof fn law_entry_has_a_name(e: Seq<u8>, i: int)
    requires
        e.len() >= 128,
    ensures
        entry_partition(e, i) matches Some(p) ==> p.name == (if e[56] == 0 && e[57] == 0 {
            None
        } else {
            Some(decode_utf16(name_units(e.subrange(56, 128))))
        }),
{
    let n = e.subrange(56, 128);
    assert(field(e, 56, 72) =~= n);
    law_little_endian(n.take(2));
    assert(n.take(2)[0] == e[56] && n.take(2)[1] == e[57]);
}

/// Every slot of the table, in order, adds the partition that its bytes
/// declare, or none.
pub proof fn law_slots_are_read_in_order(table: Seq<u8>, size: nat, n: nat)
    ensures
        ({
            let e = table.subrange((n * size) as int, (n * size + size) as int);
            let before = table_partitions(table, size, n);
            let after = table_partitions(table, size, n + 1);
            match entry_partition(e, n as int) {
                Some(p) => after == before.push(p),
                None => after == before,
            }
        }),
        table_partitions(table, size, 0) == Seq::<PartitionView>::empty(),
{
}

/// A disk with `EFI PART` in its second sector has the table that its header
/// describes: as many entries as the number at 80 says, of the size at 84,
/// from the sector at 72 on.
pub proof fn law_header_says_where_the_entries_are<D: ReadAt>(disk: &D, b: Seq<u8>)
    requires
        holds(disk, b),
        b.len() >= 1116,
        b.subrange(512, 520) == seq![0x45u8, 0x46u8, 0x49u8, 0x20u8, 0x50u8, 0x41u8, 0x52u8, 0x54u8],
        0 < small32(b, 592) <= 4096,
        128 <= small32(b, 596) <= 4096,
        small64(b, 584) * 512 + small32(b, 592) * small32(b, 596) <= b.len() <= u64::MAX,
    ensures
        ({
            let at = small64(b, 584) * 512;
            let num = small32(b, 592);
            let size = small32(b, 596);
            gpt_of(disk) == Scanned::Table(
                table_partitions(b.subrange(at, at + num * size), size as nat, num as nat),
            )
        }),
{
    lemma_header(disk, b);
    let at = small64(b, 584) * 512;
    let num = small32(b, 592);
    let size = small32(b, 596);
    assert(0 < num * size) by (nonlinear_arith)
        requires
            0 < num,
            128 <= size,
    ;
    assert(0 <= at <= u64::MAX);
    law_reads_are_the_bytes(disk, b, at, (num * size) as nat);
}

proof fn lemma_header<D: ReadAt>(disk: &D, b: Seq<u8>)
    requires
        holds(disk, b),
        b.len() >= 1116,
    ensures
        reads(disk, 512, 92) == Some(b.subrange(512, 604)),
        field(b.subrange(512, 604), 0, 8) == b.subrange(512, 520),
        le(field(b.subrange(512, 604), 72, 8)) == small64(b, 584),
        le(field(b.subrange(512, 604), 80, 4)) == small32(b, 592),
        le(field(b.subrange(512, 604), 84, 4)) == small32(b, 596),
        0 <= small64(b, 584) <= u64::MAX,
{
    law_reads_are_the_bytes(disk, b, 512, 92);
    let h = b.subrange(512, 604);
    law_fields_are_numbers(b, 584);
    law_fields_are_numbers(b, 592);
    law_fields_are_numbers(b, 596);
    assert(field(h, 72, 8) =~= field(b, 584, 8));
    assert(field(h, 80, 4) =~= field(b, 592, 4));
    assert(field(h, 84, 4) =~= field(b, 596, 4));
    assert(field(h, 0, 8) =~= b.subrange(512, 520));
}

/// Without `EFI PART` there is no such table, and neither is there one on a
/// disk too small for it; a table whose entries cannot be meant is refused.
pub proof fn law_what_is_no_table<D: ReadAt>(disk: &D, b: Seq<u8>)
    requires
        holds(disk, b),
    ensures
        b.len() < 1116 ==> gpt_of(disk) is Absent,
        b.len() >= 1116 && b.subrange(512, 520) != seq![
            0x45u8,
            0x46u8,
            0x49u8,
            0x20u8,
            0x50u8,
            0x41u8,
            0x52u8,
            0x54u8,
        ] ==> gpt_of(disk) is Absent,
        b.len() >= 1116 && b.subrange(512, 520) == seq![
            0x45u8,
            0x46u8,
            0x49u8,
            0x20u8,
            0x50u8,
            0x41u8,
            0x52u8,
            0x54u8,
        ] && (small32(b, 596) < 128 || small32(b, 596) > 4096 || small32(b, 592) > 4096) ==> gpt_of(disk)
            is Refused,
{
    if b.len() >= 1116 {
        lemma_header(disk, b);
    }
}

} // verus!
