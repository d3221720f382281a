//! Which device references of a command line are rewritten, and to what.

use crate::part::PartitionView;
use crate::seqs::lemma_position;
use crate::text::laws::{law_split_once, law_strip_prefix};
use crate::text::number::{dec, lemma_dec_reads_back};
use crate::text::{blacks, lemma_first_is, lemma_last_end_is, whites};
use crate::vdafix::{
    after_gap, device_partition, fixed, fixed_token, gap, is_disk, is_disk_stem, is_letters,
    needs_fix, non_digits, with_index, word,
};
use vstd::prelude::*;
use vstd::string::*;

verus! {

/// The last part of a path below `/dev/`.
pub open spec fn dev(name: Seq<char>) -> Seq<char> {
    "/dev/"@ + name
}

proof fn lemma_number_behind(stem: Seq<char>, n: nat)
    requires
        stem.len() > 0,
        !('0' <= stem.last() <= '9'),
        is_disk_stem(stem),
        n <= usize::MAX,
    ensures
        device_partition(dev(stem + dec(n))) == Some(n as int),
{
    let name = stem + dec(n);
    let at = stem.len() as int;
    lemma_dec_reads_back(n);
    law_strip_prefix("/dev/"@, name);
    assert forall|j: int| at <= j < name.len() implies !non_digits()(#[trigger] name[j]) by {
        assert(name[j] == dec(n)[j - at]);
    }
    assert(name[at - 1] == stem.last());
    lemma_last_end_is(name, non_digits(), at);
    assert(name.take(at) =~= stem);
    assert(name.skip(at) =~= dec(n));
}

proof fn lemma_letters(prefix: Seq<char>, letters: Seq<char>)
    requires
        is_letters(letters),
        letters.last() != 'p',
    ensures
        is_disk(prefix + letters, prefix),
        (prefix + letters).len() > 0,
        (prefix + letters).last() == letters.last(),
        'a' <= letters.last() <= 'z',
{
    law_strip_prefix(prefix, letters);
    assert(letters.last() == letters[letters.len() - 1]);
}

/// The digits behind the letters of a disk are the number of the partition,
/// for disks of the kinds `sd`, `vd`, `hd` and `xvd`.
pub proof fn law_number_behind_the_letters(letters: Seq<char>, n: nat)
    requires
        letters.len() > 0,
        forall|i: int| 0 <= i < letters.len() ==> 'a' <= #[trigger] letters[i] <= 'z',
        letters.last() != 'p',
        n <= usize::MAX,
    ensures
        device_partition(dev("sd"@ + letters + dec(n))) == Some(n as int),
        device_partition(dev("vd"@ + letters + dec(n))) == Some(n as int),
        device_partition(dev("hd"@ + letters + dec(n))) == Some(n as int),
        device_partition(dev("xvd"@ + letters + dec(n))) == Some(n as int),
{
    lemma_letters("sd"@, letters);
    lemma_letters("vd"@, letters);
    lemma_letters("hd"@, letters);
    lemma_letters("xvd"@, letters);
    lemma_number_behind("sd"@ + letters, n);
    lemma_number_behind("vd"@ + letters, n);
    lemma_number_behind("hd"@ + letters, n);
    lemma_number_behind("xvd"@ + letters, n);
}

/// The digits behind the `p` of an NVMe or MMC disk are the number of the
/// partition.
pub proof fn law_number_behind_the_p(disk: Seq<char>, n: nat)
    requires
        n <= usize::MAX,
    ensures
        device_partition(dev("nvme"@ + disk + seq!['p'] + dec(n))) == Some(n as int),
        device_partition(dev("mmcblk"@ + disk + seq!['p'] + dec(n))) == Some(n as int),
{
    let a = "nvme"@ + disk + seq!['p'];
    let b = "mmcblk"@ + disk + seq!['p'];
    law_strip_prefix("nvme"@, disk);
    law_strip_prefix("mmcblk"@, disk);
    assert(a.drop_last() =~= "nvme"@ + disk);
    assert(b.drop_last() =~= "mmcblk"@ + disk);
    assert(a.last() == 'p' && b.last() == 'p');
    lemma_number_behind(a, n);
    lemma_number_behind(b, n);
}

/// What is not below `/dev/`, or does not end in a digit, has no number.
pub proof fn law_no_number(path: Seq<char>, name: Seq<char>)
    requires
        path.len() < 5 || path.take(5) != seq!['/', 'd', 'e', 'v', '/'],
        name.len() == 0 || !('0' <= name.last() <= '9'),
    ensures
        device_partition(path) is None,
        device_partition(dev(name)) is None,
{
    reveal_strlit("/dev/");
    assert("/dev/"@ =~= seq!['/', 'd', 'e', 'v', '/']);
    law_strip_prefix("/dev/"@, name);
    lemma_last_end_is(name, non_digits(), name.len() as int);
}

/// `root=` and `resume=` with a device of the disk become `PARTUUID=` with the
/// UUID of the partition that has the device's number; where the table has no
/// such partition, or no UUID for it, they stay.
pub proof fn law_device_becomes_partuuid(
    device: Seq<char>,
    n: int,
    parts: Seq<PartitionView>,
    i: int,
)
    requires
        device_partition(device) == Some(n),
    ensures
        0 <= i < parts.len() && parts[i].index == n && (forall|j: int|
            0 <= j < i ==> (#[trigger] parts[j]).index != n) ==> ({
            &&& fixed_token("root="@ + device, parts) == (match parts[i].part_uuid {
                Some(uuid) => Some("root=PARTUUID="@ + uuid),
                None => None,
            })
            &&& fixed_token("resume="@ + device, parts) == (match parts[i].part_uuid {
                Some(uuid) => Some("resume=PARTUUID="@ + uuid),
                None => None,
            })
        }),
        (forall|j: int| 0 <= j < parts.len() ==> (#[trigger] parts[j]).index != n) ==> fixed_token(
            "root="@ + device,
            parts,
        ) is None,
{
    lemma_key_is("root"@, "root="@, device);
    lemma_key_is("resume"@, "resume="@, device);
    reveal_strlit("root");
    reveal_strlit("resume");
    reveal_strlit("root=");
    reveal_strlit("resume=");
    reveal_strlit("=PARTUUID=");
    reveal_strlit("root=PARTUUID=");
    reveal_strlit("resume=PARTUUID=");
    assert("root=PARTUUID="@ =~= "root"@ + "=PARTUUID="@);
    assert("resume=PARTUUID="@ =~= "resume"@ + "=PARTUUID="@);
    let p = with_index(n);
    lemma_position(parts, p);
    if 0 <= i < parts.len() && parts[i].index == n {
        assert(p(parts[i]));
    }
}

proof fn lemma_key_is(key: Seq<char>, with_sign: Seq<char>, value: Seq<char>)
    requires
        (key == "root"@ && with_sign == "root="@) || (key == "resume"@ && with_sign == "resume="@),
    ensures
        crate::text::split::split_once(with_sign + value, '=') == Some((key, value)),
{
    reveal_strlit("root");
    reveal_strlit("resume");
    reveal_strlit("root=");
    reveal_strlit("resume=");
    assert(with_sign =~= key + seq!['=']);
    law_split_once(key, '=', value);
    assert(with_sign + value =~= key + seq!['='] + value);
}

/// No other parameter is touched, and neither is one that names its device in
/// another way than by a path below `/dev/`.
pub proof fn law_other_parameters_stay(
    key: Seq<char>,
    value: Seq<char>,
    parts: Seq<PartitionView>,
)
    requires
        !key.contains('='),
        (key != "root"@ && key != "resume"@) || value.len() < 5 || value.take(5) != seq![
            '/',
            'd',
            'e',
            'v',
            '/',
        ],
    ensures
        fixed_token(key + seq!['='] + value, parts) is None,
        fixed_token(key, parts) is None,
{
    law_split_once(key, '=', value);
    if value.len() < 5 || value.take(5) != seq!['/', 'd', 'e', 'v', '/'] {
        law_no_number(value, seq![]);
    }
}

/// A command line is rewritten parameter by parameter: what comes first is
/// rewritten or kept on its own, the white space behind it stays, and so on
/// with the rest.
pub proof fn law_parameters_are_fixed_one_by_one(
    token: Seq<char>,
    space: Seq<char>,
    rest: Seq<char>,
    parts: Seq<PartitionView>,
)
    requires
        token.len() > 0,
        forall|i: int| 0 <= i < token.len() ==> '!' <= #[trigger] token[i] <= '~',
        forall|i: int| 0 <= i < space.len() ==> #[trigger] space[i] == ' ' || space[i] == '\t',
        rest.len() > 0 ==> space.len() > 0 && '!' <= rest[0] <= '~',
    ensures
        fixed(token + space + rest, parts) == (match fixed_token(token, parts) {
            Some(t) => t,
            None => token,
        }) + space + fixed(rest, parts),
        fixed(seq![], parts) == Seq::<char>::empty(),
        needs_fix(token + space + rest, parts) <==> fixed_token(token, parts) is Some || needs_fix(
            rest,
            parts,
        ),
        !needs_fix(seq![], parts),
{
    let s = token + space + rest;
    let n = token.len() as int;
    let m = space.len() as int;
    assert forall|j: int| 0 <= j < n implies !whites()(#[trigger] s[j]) by {
        assert(s[j] == token[j]);
    }
    if n < s.len() {
        assert(m > 0);
        assert(s[n] == space[0]);
    }
    lemma_first_is(s, whites(), n);
    assert(s.take(n) =~= token);
    let tail = s.skip(n);
    assert(tail =~= space + rest);
    assert forall|j: int| 0 <= j < m implies !blacks()(#[trigger] tail[j]) by {
        assert(tail[j] == space[j]);
    }
    if m < tail.len() {
        assert(tail[m] == rest[0]);
    }
    lemma_first_is(tail, blacks(), m);
    assert(tail.take(m) =~= space);
    assert(tail.skip(m) =~= rest);
    assert(word(s) == token && gap(s) == space && after_gap(s) == rest);
}

} // verus!
