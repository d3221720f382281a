//! Rewrite `root=`/`resume=` device references in a kernel cmdline to
//! `PARTUUID=` form, so a cmdline written for e.g. `/dev/sda2` boots
//! unchanged when the disk shows up as `/dev/vda2` under virtio.
//!
//! The device name's partition *number* is looked up in the partition
//! table of the image the cmdline came from - a single-disk assumption:
//! `root=/dev/sdb3` on a multi-disk install maps to the wrong partition,
//! but such cmdlines are rare and the caller can always disable the fix.
//! Values already using `UUID=`/`PARTUUID=`/`LABEL=` are left alone, as is
//! a whole-disk `root=/dev/sda`. `PARTUUID=` is resolved by the kernel
//! itself, so the rewrite works even without an initramfs.

use crate::part::{Partition, PartitionTable, PartitionView};
use crate::seqs::{index, lemma_position, position, position_by, views};
use crate::text::number::{parse_unsigned, parse_usize};
use crate::text::split::{
    after_prefix, cut, ends, ends_char, has_prefix, split_once, starts_with, strip_prefix,
};
use crate::text::{
    blacks, chars, digit, find_black, find_white, first, is_digit, is_str, is_white, last_end,
    lemma_first, lemma_first_is, lemma_last_end_is, opt, push_chars, skip, take, whites,
};
use vstd::prelude::*;
use vstd::string::*;

verus! {

broadcast use vstd::seq_lib::group_seq_properties;

/// The predicate "is not a decimal digit".
pub open spec fn non_digits() -> spec_fn(char) -> bool {
    |c: char| !is_digit(c)
}

/// Only ASCII lower-case letters, and at least one.
pub open spec fn is_letters(s: Seq<char>) -> bool {
    s.len() > 0 && forall|i: int| 0 <= i < s.len() ==> 'a' <= #[trigger] s[i] <= 'z'
}

/// `stem` is `prefix` followed by the letters of a disk.
pub open spec fn is_disk(stem: Seq<char>, prefix: Seq<char>) -> bool {
    strip_prefix(stem, prefix) matches Some(l) && is_letters(l)
}

/// A disk name that a partition number can follow.
pub open spec fn is_disk_stem(stem: Seq<char>) -> bool {
    if ends_char(stem, 'p') {
        // nvme0n1p2 / mmcblk0p1: digits follow a 'p' separator.
        starts_with(stem.drop_last(), "nvme"@) || starts_with(stem.drop_last(), "mmcblk"@)
    } else {
        is_disk(stem, "sd"@) || is_disk(stem, "vd"@) || is_disk(stem, "hd"@) || is_disk(
            stem,
            "xvd"@,
        )
    }
}

/// The partition number of a `/dev/...` block device path.
pub open spec fn device_partition(dev: Seq<char>) -> Option<int> {
    match strip_prefix(dev, "/dev/"@) {
        None => None,
        Some(name) => {
            let at = last_end(name, non_digits()) as int;
            if at == 0 || at >= name.len() || !is_disk_stem(name.take(at)) {
                None
            } else {
                parse_unsigned(name.skip(at), 10, usize::MAX as int)
            }
        },
    }
}

/// The predicate "has this index".
pub open spec fn with_index(n: int) -> spec_fn(PartitionView) -> bool {
    |p: PartitionView| p.index == n
}

/// The PARTUUID of the partition with the number `n`.
pub open spec fn uuid_of(parts: Seq<PartitionView>, n: int) -> Option<Seq<char>> {
    match position(parts, with_index(n)) {
        Some(i) => parts[i].part_uuid,
        None => None,
    }
}

/// What a parameter is rewritten to, if it names a device of the table.
pub open spec fn fixed_token(token: Seq<char>, parts: Seq<PartitionView>) -> Option<Seq<char>> {
    match split_once(token, '=') {
        None => None,
        Some((key, value)) => if key != "root"@ && key != "resume"@ {
            None
        } else {
            match device_partition(value) {
                None => None,
                Some(n) => match uuid_of(parts, n) {
                    Some(uuid) => Some(key + "=PARTUUID="@ + uuid),
                    None => None,
                },
            }
        },
    }
}

/// The first word of `s`; empty, if it starts with white space.
pub open spec fn word(s: Seq<char>) -> Seq<char> {
    s.take(first(s, whites()) as int)
}

/// The white space after the first word.
pub open spec fn gap(s: Seq<char>) -> Seq<char> {
    let tail = s.skip(first(s, whites()) as int);
    tail.take(first(tail, blacks()) as int)
}

/// What follows that.
pub open spec fn after_gap(s: Seq<char>) -> Seq<char> {
    let tail = s.skip(first(s, whites()) as int);
    tail.skip(first(tail, blacks()) as int)
}

/// `s` with every parameter that can be rewritten, rewritten, and everything
/// else as it is.
pub open spec fn fixed(s: Seq<char>, parts: Seq<PartitionView>) -> Seq<char>
    decreases s.len(),
{
    if s.len() == 0 {
        seq![]
    } else {
        proof {
            lemma_after_gap(s);
        }
        (match fixed_token(word(s), parts) {
            Some(t) => t,
            None => word(s),
        }) + gap(s) + fixed(after_gap(s), parts)
    }
}

/// Some parameter of `s` can be rewritten.
pub open spec fn needs_fix(s: Seq<char>, parts: Seq<PartitionView>) -> bool
    decreases s.len(),
{
    if s.len() == 0 {
        false
    } else {
        proof {
            lemma_after_gap(s);
        }
        fixed_token(word(s), parts) is Some || needs_fix(after_gap(s), parts)
    }
}

pub proof fn lemma_after_gap(s: Seq<char>)
    requires
        s.len() > 0,
    ensures
        after_gap(s).len() < s.len(),
        s == word(s) + gap(s) + after_gap(s),
{
    lemma_first(s, whites());
    let n = first(s, whites()) as int;
    let tail = s.skip(n);
    lemma_first(tail, blacks());
    if n == 0 {
        assert(tail[0] == s[0]);
    }
    assert(s =~= word(s) + gap(s) + after_gap(s));
}

/// Whether `s` is a non-empty run of lower-case letters.
fn letters(s: &[char]) -> (r: bool)
    ensures
        r == is_letters(s@),
{
    let mut i: usize = 0;
    while i < s.len()
        invariant
            i <= s@.len(),
            forall|j: int| 0 <= j < i ==> 'a' <= #[trigger] s@[j] <= 'z',
        decreases s@.len() - i,
    {
        if !('a' <= s[i] && s[i] <= 'z') {
            return false;
        }
        i = i + 1;
    }
    s.len() > 0
}

/// Whether `stem` is `prefix` followed by the letters of a disk.
fn disk(stem: &[char], prefix: &str) -> (r: bool)
    ensures
        r == is_disk(stem@, prefix@),
{
    match after_prefix(stem, prefix) {
        Some(l) => letters(l),
        None => false,
    }
}

/// Partition number of a `/dev/...` block device path, for the styles a
/// distro installer would write: `sdXN`/`vdXN`/`hdXN`/`xvdXN`, and
/// `nvme0n1pN`/`mmcblk0pN`. Anything else (no `/dev/` prefix, UUID=,
/// whole-disk without partition digits) returns `None`.
pub fn partition_number(dev: &str) -> (r: Option<usize>)
    ensures
        index(r) == device_partition(dev@),
{
    let c = chars(dev);
    number_in(c.as_slice())
}

fn number_in(dev: &[char]) -> (r: Option<usize>)
    ensures
        index(r) == device_partition(dev@),
{
    let name = match after_prefix(dev, "/dev/") {
        Some(n) => n,
        None => {
            return None;
        },
    };
    // Trailing digits are the partition number...
    let mut at: usize = name.len();
    while at > 0 && digit(name[at - 1])
        invariant
            at <= name@.len(),
            forall|j: int| at <= j < name@.len() ==> is_digit(#[trigger] name@[j]),
        decreases at,
    {
        at = at - 1;
    }
    proof {
        lemma_last_end_is(name@, non_digits(), at as int);
    }
    if at == 0 || at >= name.len() {
        return None;
    }
    let stem = take(name, at);
    // ...but only with a disk-name stem we recognize in front of them.
    let valid: bool = if ends(stem, 'p') {
        let base = take(stem, at - 1);
        assert(base@ =~= stem@.drop_last());
        has_prefix(base, "nvme") || has_prefix(base, "mmcblk")
    } else {
        disk(stem, "sd") || disk(stem, "vd") || disk(stem, "hd") || disk(stem, "xvd")
    };
    if !valid {
        return None;
    }
    parse_usize(skip(name, at))
}

/// What a parameter is rewritten to.
fn fix_token(token: &[char], table: &PartitionTable) -> (r: Option<String>)
    ensures
        opt(r) == fixed_token(token@, table@.partitions),
{
    let (key, value) = match cut(token, '=') {
        Some(kv) => kv,
        None => {
            return None;
        },
    };
    if !is_str(key, "root") && !is_str(key, "resume") {
        return None;
    }
    let n: usize = match number_in(value) {
        Some(n) => n,
        None => {
            return None;
        },
    };
    let test = |p: &Partition| -> (b: bool)
        ensures
            b == with_index(n as int)(p@)
    { p.index == n };
    let i: usize = match position_by(&table.partitions, test, Ghost(with_index(n as int))) {
        Some(i) => i,
        None => {
            return None;
        },
    };
    assert(views(table.partitions@)[i as int] == table.partitions@[i as int]@);
    match &table.partitions[i].part_uuid {
        Some(uuid) => {
            let mut out: String = String::new();
            push_chars(&mut out, key);
            out.append("=PARTUUID=");
            out.append(uuid.as_str());
            assert(out@ =~= key@ + "=PARTUUID="@ + uuid@);
            Some(out)
        },
        None => None,
    }
}

proof fn lemma_fix_step(s: Seq<char>, parts: Seq<PartitionView>, before: Seq<char>)
    requires
        s.len() > 0,
    ensures
        ({
            let piece = match fixed_token(word(s), parts) {
                Some(t) => t,
                None => word(s),
            };
            before + piece + gap(s) + fixed(after_gap(s), parts) == before + fixed(s, parts)
        }),
        needs_fix(s, parts) == (fixed_token(word(s), parts) is Some || needs_fix(after_gap(s), parts)),
{
    let piece = match fixed_token(word(s), parts) {
        Some(t) => t,
        None => word(s),
    };
    let rest = fixed(after_gap(s), parts);
    assert(before + piece + gap(s) + rest =~= before + (piece + gap(s) + rest));
}

/// Returns the rewritten cmdline, or `None` when nothing needed fixing or
/// nothing could be resolved against `table`. Whitespace is preserved.
#[verifier::spinoff_prover]
#[verifier::rlimit(40)]
pub fn fix_cmdline(cmdline: &str, table: &PartitionTable) -> (r: Option<String>)
    ensures
        opt(r) == (if needs_fix(cmdline@, table@.partitions) {
            Some(fixed(cmdline@, table@.partitions))
        } else {
            None
        }),
{
    let c = chars(cmdline);
    let ghost parts = table@.partitions;
    let mut out: String = String::new();
    let mut changed: bool = false;
    let mut rest: &[char] = c.as_slice();
    assert(out@ + fixed(rest@, parts) =~= fixed(cmdline@, parts));
    while rest.len() > 0
        invariant
            parts == table@.partitions,
            out@ + fixed(rest@, parts) == fixed(cmdline@, parts),
            needs_fix(cmdline@, parts) == (changed || needs_fix(rest@, parts)),
        decreases rest@.len(),
    {
        let ghost before = out@;
        let n: usize = find_white(rest);
        let token = take(rest, n);
        let tail = skip(rest, n);
        match fix_token(token, table) {
            Some(t) => {
                out.append(t.as_str());
                changed = true;
            },
            None => {
                push_chars(&mut out, token);
            },
        }
        let ghost piece = match fixed_token(token@, parts) {
            Some(t) => t,
            None => token@,
        };
        assert(out@ == before + piece);
        let m: usize = find_black(tail);
        push_chars(&mut out, take(tail, m));
        let next = skip(tail, m);
        proof {
            assert(token@ == word(rest@) && next@ == after_gap(rest@));
            lemma_after_gap(rest@);
            lemma_fix_step(rest@, parts, before);
        }
        rest = next;
    }
    assert(out@ =~= fixed(cmdline@, parts));
    if changed {
        Some(out)
    } else {
        None
    }
}

// ---------------------------------------------------------------------
// Laws
// ---------------------------------------------------------------------

/// The runs of white space of `s`, in order: the one after each word.
pub open spec fn gaps(s: Seq<char>) -> Seq<Seq<char>>
    decreases s.len(),
{
    if s.len() == 0 {
        seq![]
    } else {
        proof {
            lemma_after_gap(s);
        }
        seq![gap(s)] + gaps(after_gap(s))
    }
}

/// No character of `s` is white space.
pub open spec fn is_word(s: Seq<char>) -> bool {
    forall|i: int| 0 <= i < s.len() ==> !is_white(#[trigger] s[i])
}

/// The PARTUUIDs of the table hold no white space.
pub open spec fn uuids_are_words(parts: Seq<PartitionView>) -> bool {
    forall|i: int|
        0 <= i < parts.len() ==> ((#[trigger] parts[i]).part_uuid matches Some(u) ==> is_word(u))
}

/// How the first word, the first gap and the rest come apart again.
proof fn lemma_joined(w: Seq<char>, g: Seq<char>, rest: Seq<char>)
    requires
        is_word(w),
        forall|i: int| 0 <= i < g.len() ==> is_white(#[trigger] g[i]),
        g.len() == 0 ==> rest.len() == 0,
        rest.len() > 0 ==> !is_white(rest[0]),
        w.len() + g.len() > 0,
    ensures
        word(w + g + rest) == w,
        gap(w + g + rest) == g,
        after_gap(w + g + rest) == rest,
{
    let s = w + g + rest;
    assert forall|j: int| 0 <= j < w.len() implies !whites()(#[trigger] s[j]) by {
        assert(s[j] == w[j]);
    }
    if w.len() < s.len() {
        assert(s[w.len() as int] == g[0]);
    }
    lemma_first_is(s, whites(), w.len() as int);
    let tail = s.skip(w.len() as int);
    assert(tail =~= g + rest);
    assert forall|j: int| 0 <= j < g.len() implies !blacks()(#[trigger] tail[j]) by {
        assert(tail[j] == g[j]);
    }
    if g.len() < tail.len() {
        assert(tail[g.len() as int] == rest[0]);
    }
    lemma_first_is(tail, blacks(), g.len() as int);
    assert(word(s) =~= w);
    assert(gap(s) =~= g);
    assert(after_gap(s) =~= rest);
}

/// The facts about the parts of `s` that putting it together again needs.
proof fn lemma_parts(s: Seq<char>)
    requires
        s.len() > 0,
    ensures
        is_word(word(s)),
        forall|i: int| 0 <= i < gap(s).len() ==> is_white(#[trigger] gap(s)[i]),
        gap(s).len() == 0 ==> after_gap(s).len() == 0,
        after_gap(s).len() > 0 ==> !is_white(after_gap(s)[0]),
        word(s).len() + gap(s).len() > 0,
{
    lemma_after_gap(s);
    lemma_first(s, whites());
    let n = first(s, whites()) as int;
    let tail = s.skip(n);
    lemma_first(tail, blacks());
    let m = first(tail, blacks()) as int;
    assert forall|i: int| 0 <= i < word(s).len() implies !is_white(#[trigger] word(s)[i]) by {
        assert(!whites()(s[i]));
    }
    assert forall|i: int| 0 <= i < gap(s).len() implies is_white(#[trigger] gap(s)[i]) by {
        assert(!blacks()(tail[i]));
    }
    if n < s.len() {
        assert(whites()(s[n]));
        assert(tail[0] == s[n]);
    }
    if m < tail.len() {
        assert(blacks()(tail[m]));
        assert(after_gap(s)[0] == tail[m]);
    }
}

proof fn lemma_partuuid_is_word(key: Seq<char>, uuid: Seq<char>)
    requires
        is_word(key),
        is_word(uuid),
    ensures
        is_word(key + "=PARTUUID="@ + uuid),
        (key + "=PARTUUID="@ + uuid).len() > 0,
{
    reveal_strlit("=PARTUUID=");
    let mid = "=PARTUUID="@;
    let t = key + mid + uuid;
    assert(is_word(mid));
    assert forall|j: int| 0 <= j < t.len() implies !is_white(#[trigger] t[j]) by {
        if j < key.len() {
            assert(t[j] == key[j]);
        } else if j < key.len() + mid.len() {
            assert(t[j] == mid[j - key.len()]);
        } else {
            assert(t[j] == uuid[j - key.len() - mid.len()]);
        }
    }
}

proof fn lemma_partuuid_is_final(key: Seq<char>, uuid: Seq<char>, parts: Seq<PartitionView>)
    requires
        forall|j: int| 0 <= j < key.len() ==> #[trigger] key[j] != '=',
    ensures
        fixed_token(key + "=PARTUUID="@ + uuid, parts) is None,
{
    reveal_strlit("=PARTUUID=");
    reveal_strlit("/dev/");
    let t = key + "=PARTUUID="@ + uuid;
    let n = key.len() as int;
    assert forall|j: int| 0 <= j < n implies !crate::text::eq_to('=')(#[trigger] t[j]) by {
        assert(t[j] == key[j]);
    }
    assert(t[n] == '=');
    assert(t[n + 1] == 'P');
    lemma_first_is(t, crate::text::eq_to('='), n);
    let value = t.skip(n + 1);
    assert(value[0] == 'P');
    if starts_with(value, "/dev/"@) {
        assert(value.take(5)[0] == '/');
    }
    assert(device_partition(value) is None);
}

/// The rewritten form of a word is a word, and is not rewritten again.
proof fn lemma_token_is_final(w: Seq<char>, parts: Seq<PartitionView>)
    requires
        is_word(w),
        uuids_are_words(parts),
    ensures
        fixed_token(w, parts) matches Some(t) ==> is_word(t) && t.len() > 0 && fixed_token(
            t,
            parts,
        ) is None,
{
    if fixed_token(w, parts) is Some {
        let (key, value) = split_once(w, '=')->0;
        let n = device_partition(value)->0;
        lemma_position(parts, with_index(n));
        let uuid = uuid_of(parts, n)->0;
        let i = position(parts, with_index(n))->0;
        assert(is_word(parts[i].part_uuid->0));
        lemma_first(w, crate::text::eq_to('='));
        assert forall|j: int| 0 <= j < key.len() implies #[trigger] key[j] != '=' && !is_white(
            key[j],
        ) by {
            assert(key[j] == w[j]);
            assert(!crate::text::eq_to('=')(w[j]));
        }
        lemma_partuuid_is_word(key, uuid);
        lemma_partuuid_is_final(key, uuid, parts);
    }
}

/// White space is preserved: rewriting leaves every run of it as it was.
pub proof fn law_whitespace_is_preserved(s: Seq<char>, parts: Seq<PartitionView>)
    requires
        uuids_are_words(parts),
    ensures
        gaps(fixed(s, parts)) == gaps(s),
    decreases s.len(),
{
    if s.len() > 0 {
        lemma_fixed_parts(s, parts);
        lemma_after_gap(s);
        law_whitespace_is_preserved(after_gap(s), parts);
    }
}

/// The rewritten line comes apart as the line did.
proof fn lemma_fixed_parts(s: Seq<char>, parts: Seq<PartitionView>)
    requires
        uuids_are_words(parts),
        s.len() > 0,
    ensures
        fixed(s, parts).len() > 0,
        word(fixed(s, parts)) == (match fixed_token(word(s), parts) {
            Some(t) => t,
            None => word(s),
        }),
        gap(fixed(s, parts)) == gap(s),
        after_gap(fixed(s, parts)) == fixed(after_gap(s), parts),
        after_gap(s).len() > 0 ==> fixed(after_gap(s), parts).len() > 0 && !is_white(
            fixed(after_gap(s), parts)[0],
        ),
    decreases s.len(),
{
    lemma_after_gap(s);
    lemma_parts(s);
    lemma_token_is_final(word(s), parts);
    let t = match fixed_token(word(s), parts) {
        Some(t) => t,
        None => word(s),
    };
    let rest = after_gap(s);
    if rest.len() > 0 {
        lemma_fixed_parts(rest, parts);
        lemma_parts(rest);
        lemma_token_is_final(word(rest), parts);
        let f = fixed(rest, parts);
        let u = word(f);
        // The rest starts with a word, and so does its rewritten form.
        lemma_first(rest, whites());
        if first(rest, whites()) == 0 {
            assert(is_white(rest[0]));
        }
        assert(word(rest).len() > 0);
        assert(u.len() > 0);
        lemma_after_gap(f);
        lemma_parts(f);
        assert(f[0] == u[0]);
    }
    lemma_joined(t, gap(s), fixed(rest, parts));
}

/// A rewritten line needs no more rewriting.
pub proof fn law_fixed_is_final(s: Seq<char>, parts: Seq<PartitionView>)
    requires
        uuids_are_words(parts),
    ensures
        !needs_fix(fixed(s, parts), parts),
    decreases s.len(),
{
    if s.len() > 0 {
        lemma_fixed_parts(s, parts);
        lemma_after_gap(s);
        lemma_parts(s);
        lemma_token_is_final(word(s), parts);
        law_fixed_is_final(after_gap(s), parts);
    }
}

/// A line of which nothing can be rewritten is left as it is.
pub proof fn law_nothing_to_fix_changes_nothing(s: Seq<char>, parts: Seq<PartitionView>)
    requires
        !needs_fix(s, parts),
    ensures
        fixed(s, parts) == s,
    decreases s.len(),
{
    if s.len() > 0 {
        lemma_after_gap(s);
        law_nothing_to_fix_changes_nothing(after_gap(s), parts);
        assert(fixed(s, parts) =~= s);
    } else {
        assert(fixed(s, parts) =~= s);
    }
}

} // verus!
