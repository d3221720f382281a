//! Byte sequences: integers in either byte order, searching, copying.

use vstd::prelude::*;

verus! {

broadcast use vstd::seq_lib::group_seq_properties;

/// The number whose bytes are `b`, the lowest first.
pub open spec fn le(b: Seq<u8>) -> nat
    decreases b.len(),
{
    if b.len() == 0 {
        0
    } else {
        (b[0] + 256 * le(b.drop_first())) as nat
    }
}

/// The number whose bytes are `b`, the highest first.
pub open spec fn be(b: Seq<u8>) -> nat
    decreases b.len(),
{
    if b.len() == 0 {
        0
    } else {
        (256 * be(b.drop_last()) + b.last()) as nat
    }
}

/// The bytes `[at, at + n)` of `b`.
pub open spec fn field(b: Seq<u8>, at: int, n: int) -> Seq<u8> {
    b.subrange(at, at + n)
}

/// How many numbers `n` bytes can write.
pub open spec fn span(n: nat) -> nat
    decreases n,
{
    if n == 0 {
        1
    } else {
        256 * span((n - 1) as nat)
    }
}

pub proof fn lemma_spans()
    ensures
        span(0) == 1,
        span(1) == 0x100,
        span(2) == 0x1_0000,
        span(3) == 0x100_0000,
        span(4) == 0x1_0000_0000,
        span(5) == 0x100_0000_0000,
        span(6) == 0x1_0000_0000_0000,
        span(7) == 0x100_0000_0000_0000,
        span(8) == 0x1_0000_0000_0000_0000,
{
    reveal_with_fuel(span, 9);
}

pub proof fn lemma_le_bound(b: Seq<u8>)
    ensures
        le(b) < span(b.len()),
    decreases b.len(),
{
    if b.len() > 0 {
        lemma_le_bound(b.drop_first());
    }
}

pub proof fn lemma_be_bound(b: Seq<u8>)
    ensures
        be(b) < span(b.len()),
    decreases b.len(),
{
    if b.len() > 0 {
        lemma_be_bound(b.drop_last());
    }
}

/// The `n`-byte little-endian number at `at`.
pub fn le_at(b: &[u8], at: usize, n: usize) -> (r: u64)
    requires
        n <= 8,
        at + n <= b@.len(),
    ensures
        r == le(field(b@, at as int, n as int)),
        r < span(n as nat),
{
    let len: usize = b.len();
    let mut v: u64 = 0;
    let mut i: usize = n;
    assert(field(b@, at + n, 0) =~= Seq::<u8>::empty());
    while i > 0
        invariant
            i <= n <= 8,
            at + n <= len == b@.len(),
            v == le(field(b@, at + i, n - i)),
        decreases i,
    {
        i = i - 1;
        proof {
            let f = field(b@, at + i, n - i);
            assert(f[0] == b@[at + i]);
            assert(f.drop_first() =~= field(b@, at + i + 1, n - i - 1));
            lemma_le_bound(f);
            lemma_spans();
            assert(span((n - i) as nat) <= span(8)) by {
                lemma_span_grows((n - i) as nat, 8);
            }
        }
        v = v * 256 + (b[at + i] as u64);
    }
    proof {
        lemma_le_bound(field(b@, at as int, n as int));
    }
    v
}

/// The `n`-byte big-endian number at `at`.
pub fn be_at(b: &[u8], at: usize, n: usize) -> (r: u64)
    requires
        n <= 8,
        at + n <= b@.len(),
    ensures
        r == be(field(b@, at as int, n as int)),
        r < span(n as nat),
{
    let len: usize = b.len();
    let mut v: u64 = 0;
    let mut i: usize = 0;
    assert(field(b@, at as int, 0) =~= Seq::<u8>::empty());
    while i < n
        invariant
            i <= n <= 8,
            at + n <= len == b@.len(),
            v == be(field(b@, at as int, i as int)),
        decreases n - i,
    {
        proof {
            let f = field(b@, at as int, i + 1);
            assert(f.last() == b@[at + i]);
            assert(f.drop_last() =~= field(b@, at as int, i as int));
            lemma_be_bound(f);
            lemma_spans();
            lemma_span_grows((i + 1) as nat, 8);
        }
        v = v * 256 + (b[at + i] as u64);
        i = i + 1;
    }
    proof {
        lemma_be_bound(field(b@, at as int, n as int));
    }
    v
}

proof fn lemma_span_grows(a: nat, b: nat)
    requires
        a <= b,
    ensures
        span(a) <= span(b),
    decreases b,
{
    if a < b {
        lemma_span_grows(a, (b - 1) as nat);
    }
}

/// Whether the bytes of `b` at `at` are `pat`.
pub fn has_at(b: &[u8], at: usize, pat: &[u8]) -> (r: bool)
    requires
        at + pat@.len() <= b@.len(),
    ensures
        r == (field(b@, at as int, pat@.len() as int) == pat@),
{
    let len: usize = b.len();
    let mut i: usize = 0;
    while i < pat.len()
        invariant
            i <= pat@.len(),
            at + pat@.len() <= len == b@.len(),
            forall|j: int| 0 <= j < i ==> b@[at + j] == #[trigger] pat@[j],
        decreases pat@.len() - i,
    {
        if b[at + i] != pat[i] {
            assert(field(b@, at as int, pat@.len() as int)[i as int] != pat@[i as int]);
            return false;
        }
        i = i + 1;
    }
    assert(field(b@, at as int, pat@.len() as int) =~= pat@);
    true
}

/// Whether `n` bytes from `at` are all zero.
pub fn all_zero(b: &[u8], at: usize, n: usize) -> (r: bool)
    requires
        at + n <= b@.len(),
    ensures
        r == forall|j: int| at <= j < at + n ==> #[trigger] b@[j] == 0,
{
    let len: usize = b.len();
    let mut i: usize = 0;
    while i < n
        invariant
            i <= n,
            at + n <= len == b@.len(),
            forall|j: int| at <= j < at + i ==> #[trigger] b@[j] == 0,
        decreases n - i,
    {
        if b[at + i] != 0 {
            return false;
        }
        i = i + 1;
    }
    true
}

/// `pat` occurs somewhere in `b`.
pub open spec fn occurs(b: Seq<u8>, pat: Seq<u8>) -> bool {
    exists|i: int|
        0 <= i && i + pat.len() <= b.len() && #[trigger] b.subrange(i, i + pat.len()) == pat
}

/// Whether `pat` occurs in `b`.
pub fn contains(b: &[u8], pat: &[u8]) -> (r: bool)
    ensures
        r == occurs(b@, pat@),
{
    if pat.len() > b.len() {
        return false;
    }
    let last: usize = b.len() - pat.len();
    let mut i: usize = 0;
    while i < last
        invariant
            last == b@.len() - pat@.len(),
            i <= last,
            forall|j: int| 0 <= j < i ==> #[trigger] b@.subrange(j, j + pat@.len()) != pat@,
        decreases last - i,
    {
        assert(field(b@, i as int, pat@.len() as int) == b@.subrange(i as int, i + pat@.len()));
        if has_at(b, i, pat) {
            return true;
        }
        i = i + 1;
    }
    assert(field(b@, last as int, pat@.len() as int) == b@.subrange(last as int, last + pat@.len()));
    has_at(b, last, pat)
}

/// Set every byte to zero.
pub fn clear(buf: &mut [u8])
    ensures
        final(buf)@ == Seq::new(old(buf)@.len(), |i: int| 0u8),
{
    let n: usize = buf.len();
    let mut i: usize = 0;
    while i < n
        invariant
            i <= n,
            n == buf@.len(),
            n == old(buf)@.len(),
            forall|j: int| 0 <= j < i ==> #[trigger] buf@[j] == 0,
        decreases n - i,
    {
        buf[i] = 0;
        i = i + 1;
    }
    assert(buf@ =~= Seq::new(old(buf)@.len(), |i: int| 0u8));
}

/// Copy `src`, from `at` on, over the whole of `buf`.
pub fn copy_from(buf: &mut [u8], src: &[u8], at: usize)
    requires
        at + old(buf)@.len() <= src@.len(),
    ensures
        final(buf)@ == src@.subrange(at as int, at + old(buf)@.len()),
{
    let n: usize = buf.len();
    let len: usize = src.len();
    let mut i: usize = 0;
    while i < n
        invariant
            i <= n,
            n == buf@.len(),
            n == old(buf)@.len(),
            at + n <= len == src@.len(),
            forall|j: int| 0 <= j < i ==> #[trigger] buf@[j] == src@[at + j],
        decreases n - i,
    {
        buf[i] = src[at + i];
        i = i + 1;
    }
    assert(buf@ =~= src@.subrange(at as int, at + old(buf)@.len()));
}

/// The number that the four bytes at `at` write, the highest first.
pub open spec fn big32(b: Seq<u8>, at: int) -> int {
    0x100_0000 * b[at] + 0x1_0000 * b[at + 1] + 0x100 * b[at + 2] + b[at + 3]
}

/// The number that the eight bytes at `at` write, the highest first.
pub open spec fn big64(b: Seq<u8>, at: int) -> int {
    0x1_0000_0000 * big32(b, at) + big32(b, at + 4)
}

/// The number that the two bytes at `at` write, the lowest first.
pub open spec fn small16(b: Seq<u8>, at: int) -> int {
    b[at] + 0x100 * b[at + 1]
}

/// The number that the four bytes at `at` write, the lowest first.
pub open spec fn small32(b: Seq<u8>, at: int) -> int {
    b[at] + 0x100 * b[at + 1] + 0x1_0000 * b[at + 2] + 0x100_0000 * b[at + 3]
}

/// The number that the eight bytes at `at` write, the lowest first.
pub open spec fn small64(b: Seq<u8>, at: int) -> int {
    small32(b, at) + 0x1_0000_0000 * small32(b, at + 4)
}

/// Fields of four and of eight bytes hold the numbers that these write.
pub proof fn law_fields_are_numbers(b: Seq<u8>, at: int)
    requires
        0 <= at,
    ensures
        at + 2 <= b.len() ==> le(field(b, at, 2)) == small16(b, at) && 0 <= small16(b, at)
            <= u16::MAX,
        at + 4 <= b.len() ==> be(field(b, at, 4)) == big32(b, at) && le(field(b, at, 4)) == small32(
            b,
            at,
        ) && 0 <= big32(b, at) <= u32::MAX && 0 <= small32(b, at) <= u32::MAX,
        at + 8 <= b.len() ==> be(field(b, at, 8)) == big64(b, at) && le(field(b, at, 8)) == small64(
            b,
            at,
        ) && 0 <= big64(b, at) <= u64::MAX && 0 <= small64(b, at) <= u64::MAX,
{
    law_little_endian(field(b, at, 2));
    law_big_endian(field(b, at, 4));
    law_little_endian(field(b, at, 4));
    law_big_endian(field(b, at, 8));
    law_little_endian(field(b, at, 8));
}

/// A little-endian number is the sum of its bytes, each 256 times the one in front
/// of it.
pub proof fn law_little_endian(b: Seq<u8>)
    ensures
        b.len() == 1 ==> le(b) == b[0],
        b.len() == 2 ==> le(b) == b[0] + 0x100 * b[1],
        b.len() == 4 ==> le(b) == b[0] + 0x100 * b[1] + 0x1_0000 * b[2] + 0x100_0000 * b[3],
        b.len() == 8 ==> le(b) == b[0] + 0x100 * b[1] + 0x1_0000 * b[2] + 0x100_0000 * b[3]
            + 0x1_0000_0000 * b[4] + 0x100_0000_0000 * b[5] + 0x1_0000_0000_0000 * b[6]
            + 0x100_0000_0000_0000 * b[7],
{
    reveal_with_fuel(le, 9);
}

/// A big-endian number is the sum of its bytes, each 256 times the one behind it.
pub proof fn law_big_endian(b: Seq<u8>)
    ensures
        b.len() == 1 ==> be(b) == b[0],
        b.len() == 2 ==> be(b) == 0x100 * b[0] + b[1],
        b.len() == 4 ==> be(b) == 0x100_0000 * b[0] + 0x1_0000 * b[1] + 0x100 * b[2] + b[3],
        b.len() == 8 ==> be(b) == 0x100_0000_0000_0000 * b[0] + 0x1_0000_0000_0000 * b[1]
            + 0x100_0000_0000 * b[2] + 0x1_0000_0000 * b[3] + 0x100_0000 * b[4] + 0x1_0000 * b[5]
            + 0x100 * b[6] + b[7],
{
    reveal_with_fuel(be, 9);
}

} // verus!
