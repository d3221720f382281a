//! How a Windows guest is told, and how its files are named.

use crate::blockdev::{holds, law_reads_are_the_bytes, ReadAt};
use crate::bytes::{field, law_fields_are_numbers, occurs, small16, small32};
use crate::fsys::FileSystem;
use crate::guest::{
    arch_in, boot_record, bootmgr_text, bootstrap_area, bootstrapped, called, is_same_file,
    loader_in, messages_in, norm, ntldr_text, partition_in, path_from, path_in, slashed, text_bytes, uri_of,
};
use crate::kernel::{mz_magic, pe_magic};
use crate::part::TableKind;
use crate::seqs::lemma_position;
use crate::text::laws::{law_rsplit_once, law_split_once, law_strip_prefix};
use crate::text::number::dec;
use crate::text::split::{after_last, starts_with, trim_start_char};
use crate::text::{lemma_first_is, lower, not_eq_to};
use vstd::prelude::*;
use vstd::string::*;

verus! {

/// A URI is a `p`, the number of the partition, a colon and the path.
pub proof fn law_uri(part: nat, path: Seq<char>, other: Seq<char>)
    requires
        other.len() == 0 || other[0] != 'p' || !other.contains(':'),
    ensures
        uri_of(part, path) == seq!['p'] + dec(part) + seq![':'] + path,
        partition_in(other) is None,
        !other.contains(':') ==> path_in(other) == other,
{
    reveal_strlit("p");
    reveal_strlit(":");
    assert("p"@ =~= seq!['p']);
    assert(":"@ =~= seq![':']);
    law_strip_prefix("p"@, other);
    if starts_with(other, "p"@) {
        let rest = other.skip(1);
        assert(other.take(1)[0] == 'p');
        if rest.contains(':') {
            let i = choose|i: int| 0 <= i < rest.len() && rest[i] == ':';
            assert(other[i + 1] == ':');
        }
        law_split_once(rest, ':', seq![]);
    }
    if !other.contains(':') {
        law_split_once(other, ':', seq![]);
    }
}

/// A file name without a directory, in whatever case.
pub open spec fn file_name(n: Seq<char>) -> bool {
    n.len() > 0 && !n.contains('/') && !n.contains('\\')
}

proof fn lemma_norm_name(n: Seq<char>)
    requires
        file_name(n),
    ensures
        norm(n) == lower(n),
        after_last(norm(n), '/') == lower(n),
        !lower(n).contains('/'),
{
    assert forall|i: int| 0 <= i < n.len() implies #[trigger] n[i] != '/' && n[i] != '\\' by {
        assert(n.contains(n[i]));
    }
    assert(slashed(n) =~= n);
    lemma_first_is(n, not_eq_to('/'), 0);
    assert(trim_start_char(n, '/') =~= n);
    let l = lower(n);
    if l.contains('/') {
        let i = choose|i: int| 0 <= i < l.len() && l[i] == '/';
        assert(n[i] != '/');
        assert(false);
    }
    law_rsplit_once(seq![], '/', l);
}

/// Two paths name the same file where their last components are the same but
/// for case, behind whatever directories and with either kind of slash; two
/// names that differ in more than case do not.
pub proof fn law_last_component_tells(dir: Seq<char>, a: Seq<char>, b: Seq<char>)
    requires
        file_name(a),
        file_name(b),
        dir.len() == 0 || (dir[0] != '/' && dir[0] != '\\'),
    ensures
        is_same_file(a, b) <==> lower(a) == lower(b),
        lower(a) == lower(b) && dir.len() > 0 ==> is_same_file(dir + seq!['/'] + a, b) && is_same_file(
            dir + seq!['\\'] + a,
            b,
        ),
{
    lemma_norm_name(a);
    lemma_norm_name(b);
    if dir.len() > 0 {
        lemma_norm_path(dir, '/', a);
        lemma_norm_path(dir, '\\', a);
    }
}

proof fn lemma_norm_path(dir: Seq<char>, sep: char, a: Seq<char>)
    requires
        file_name(a),
        dir.len() > 0,
        dir[0] != '/' && dir[0] != '\\',
        sep == '/' || sep == '\\',
    ensures
        after_last(norm(dir + seq![sep] + a), '/') == lower(a),
{
    lemma_norm_name(a);
    let s = dir + seq![sep] + a;
    assert forall|i: int| 0 <= i < a.len() implies #[trigger] a[i] != '/' && a[i] != '\\' by {
        assert(a.contains(a[i]));
    }
    let t = slashed(s);
    assert(t =~= slashed(dir) + seq!['/'] + a);
    assert(t[0] == dir[0]);
    lemma_first_is(t, not_eq_to('/'), 0);
    assert(trim_start_char(t, '/') =~= t);
    assert(lower(t) =~= lower(slashed(dir)) + seq!['/'] + lower(a));
    law_rsplit_once(lower(slashed(dir)), '/', lower(a));
}

/// A path is followed component by component, each as the first entry of its
/// directory that is called so but for case is spelled; where there is none,
/// or no such directory, it leads nowhere.
pub proof fn law_components_are_found_in_any_case<F: FileSystem + ?Sized>(
    fs: &F,
    path: Seq<char>,
    part: Seq<char>,
    rest: Seq<Seq<char>>,
    i: int,
)
    requires
        path.len() > 0,
    ensures
        path_from(fs, path, seq![]) == Some(path),
        fs.listing(path) is None ==> path_from(fs, path, seq![part] + rest) is None,
        fs.listing(path) matches Some(l) ==> {
            &&& 0 <= i < l.len() && lower(l[i].name) == lower(part) && (forall|j: int|
                0 <= j < i ==> lower((#[trigger] l[j]).name) != lower(part)) ==> path_from(
                fs,
                path,
                seq![part] + rest,
            ) == path_from(fs, path + seq!['/'] + l[i].name, rest)
            &&& (forall|j: int| 0 <= j < l.len() ==> lower((#[trigger] l[j]).name) != lower(part))
                ==> path_from(fs, path, seq![part] + rest) is None
        },
{
    reveal_strlit("/");
    assert("/"@ =~= seq!['/']);
    let all = seq![part] + rest;
    assert(all[0] == part);
    assert(all.drop_first() =~= rest);
    if fs.listing(path) is Some {
        let l = fs.listing(path)->0;
        let p = called(part);
        lemma_position(l, p);
        if 0 <= i < l.len() && lower(l[i].name) == lower(part) {
            assert(p(l[i]));
        }
    }
}

/// The boot record of a volume is its first 8192 bytes, or all of a smaller
/// one.
pub proof fn law_boot_record<D: ReadAt + ?Sized>(dev: &D, b: Seq<u8>)
    requires
        holds(dev, b),
        b.len() > 0,
    ensures
        boot_record(dev) == Some(if b.len() < 8192 {
            b
        } else {
            b.take(8192)
        }),
{
    let n = if b.len() < 8192 {
        b.len()
    } else {
        8192
    };
    law_reads_are_the_bytes(dev, b, 0, n);
    if b.len() < 8192 {
        assert(b.subrange(0, n as int) =~= b);
    } else {
        assert(b.subrange(0, n as int) =~= b.take(8192));
    }
}

/// A boot record with `BOOTMGR` in it, wherever it stands, chains to bootmgr,
/// and one with `NTLDR` instead to ntldr; one with neither to none.
pub proof fn law_loader_is_named_in_the_record(a: Seq<u8>, b: Seq<u8>)
    ensures
        loader_in(a + seq![0x42u8, 0x4fu8, 0x4fu8, 0x54u8, 0x4du8, 0x47u8, 0x52u8] + b) == Some(
            "bootmgr"@,
        ),
        !occurs(
            a + seq![0x4eu8, 0x54u8, 0x4cu8, 0x44u8, 0x52u8] + b,
            seq![0x42u8, 0x4fu8, 0x4fu8, 0x54u8, 0x4du8, 0x47u8, 0x52u8],
        ) ==> loader_in(a + seq![0x4eu8, 0x54u8, 0x4cu8, 0x44u8, 0x52u8] + b) == Some("ntldr"@),
        !occurs(a, seq![0x42u8, 0x4fu8, 0x4fu8, 0x54u8, 0x4du8, 0x47u8, 0x52u8]) && !occurs(
            a,
            seq![0x4eu8, 0x54u8, 0x4cu8, 0x44u8, 0x52u8],
        ) ==> loader_in(a) is None,
{
    law_occurs(a, bootmgr_text(), b);
    law_occurs(a, ntldr_text(), b);
}

/// What stands between two other pieces occurs in the whole.
pub proof fn law_occurs(a: Seq<u8>, p: Seq<u8>, b: Seq<u8>)
    ensures
        occurs(a + p + b, p),
{
    let s = a + p + b;
    let i = a.len() as int;
    assert(s.subrange(i, i + p.len()) =~= p);
}

/// Windows' bootstrap code is told by two of its three messages in the first
/// 446 bytes of the sector.
pub proof fn law_bootstrap_messages(sector: Seq<u8>)
    requires
        sector.len() == 512,
    ensures
        ({
            let code = sector.take(446);
            let a = occurs(code, text_bytes("Invalid partition table"@));
            let b = occurs(code, text_bytes("Error loading operating system"@));
            let c = occurs(code, text_bytes("Missing operating system"@));
            messages_in(bootstrap_area(sector)) >= 2 <==> (a && b) || (a && c) || (b && c)
        }),
{
}

/// A disk with an MBR starts Windows where two of the messages are in the
/// first 446 bytes of the disk; one of them is not enough, and neither is a
/// disk with another table or one of less than a sector.
pub proof fn law_bootstrap_is_on_the_disk<D: ReadAt>(disk: &D, b: Seq<u8>, kind: TableKind)
    requires
        holds(disk, b),
    ensures
        kind == TableKind::Mbr && b.len() >= 512 ==> ({
            let code = b.take(446);
            let p = occurs(code, text_bytes("Invalid partition table"@));
            let q = occurs(code, text_bytes("Error loading operating system"@));
            let r = occurs(code, text_bytes("Missing operating system"@));
            bootstrapped(disk, kind) <==> (p && q) || (p && r) || (q && r)
        }),
        kind != TableKind::Mbr || b.len() < 512 ==> !bootstrapped(disk, kind),
{
    if b.len() >= 512 {
        law_reads_are_the_bytes(disk, b, 0, 512);
        assert(b.subrange(0, 512).take(446) =~= b.take(446));
    }
}

/// The architecture of a PE binary is in the two bytes behind its signature,
/// which is where the number at 60 says.
pub proof fn law_machine_tells_the_architecture(data: Seq<u8>, pe: int)
    requires
        data.len() >= 64,
        data[0] == 0x4d,
        data[1] == 0x5a,
        small32(data, 60) == pe,
        pe + 6 <= data.len(),
        data[pe] == 0x50,
        data[pe + 1] == 0x45,
        data[pe + 2] == 0,
        data[pe + 3] == 0,
    ensures
        small16(data, pe + 4) == 0x014c ==> arch_in(data) == Some("i386"@),
        small16(data, pe + 4) == 0x8664 ==> arch_in(data) == Some("x86_64"@),
        small16(data, pe + 4) == 0xaa64 ==> arch_in(data) == Some("aarch64"@),
        small16(data, pe + 4) == 0x01c4 ==> arch_in(data) == Some("arm"@),
        arch_in(data) is Some ==> small16(data, pe + 4) == 0x014c || small16(data, pe + 4) == 0x8664
            || small16(data, pe + 4) == 0xaa64 || small16(data, pe + 4) == 0x01c4,
{
    law_fields_are_numbers(data, 60);
    law_fields_are_numbers(data, pe + 4);
    assert(field(data, 0, 2) =~= mz_magic());
    assert(field(data, pe, 4) =~= pe_magic());
}

/// What does not begin with `MZ` has no architecture.
pub proof fn law_no_binary_no_architecture(data: Seq<u8>)
    requires
        data.len() < 2 || data[0] != 0x4d || data[1] != 0x5a,
    ensures
        arch_in(data) is None,
{
    if data.len() >= 2 {
        let m = field(data, 0, 2);
        assert(m[0] == data[0] && m[1] == data[1]);
        assert(mz_magic()[0] == 0x4d && mz_magic()[1] == 0x5a);
    }
}

} // verus!
