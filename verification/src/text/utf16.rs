//! UTF-16.

use vstd::prelude::*;

verus! {

broadcast use vstd::seq_lib::group_seq_properties;

/// `char::from_u32`: the character with the code point `n`, if it is one.
pub assume_specification[ char::from_u32 ](n: u32) -> (r: Option<char>)
    ensures
        r == (if n <= 0xd7ff || 0xe000 <= n <= 0x10ffff {
            Some(n as char)
        } else {
            None
        }),
;

/// A code unit that is half of a character.
pub open spec fn is_surrogate(u: u16) -> bool {
    0xd800 <= u <= 0xdfff
}

/// The text that UTF-16 code units encode, with a replacement character for
/// each half that has no other half.
pub open spec fn decode_utf16(s: Seq<u16>) -> Seq<char>
    decreases s.len(),
{
    if s.len() == 0 {
        seq![]
    } else if !is_surrogate(s[0]) {
        seq![(s[0] as u32) as char] + decode_utf16(s.skip(1))
    } else if s[0] < 0xdc00 && s.len() > 1 && 0xdc00 <= s[1] <= 0xdfff {
        seq![((0x1_0000 + (s[0] - 0xd800) * 0x400 + (s[1] - 0xdc00)) as u32) as char]
            + decode_utf16(s.skip(2))
    } else {
        seq!['\u{fffd}'] + decode_utf16(s.skip(1))
    }
}

/// The text that UTF-16 code units encode.
pub fn from_utf16(s: &Vec<u16>) -> (r: String)
    ensures
        r@ == decode_utf16(s@),
{
    let mut out: String = String::new();
    let mut i: usize = 0;
    assert(s@.skip(0) =~= s@);
    assert(out@ + decode_utf16(s@) =~= decode_utf16(s@));
    while i < s.len()
        invariant
            i <= s@.len(),
            out@ + decode_utf16(s@.skip(i as int)) == decode_utf16(s@),
        decreases s@.len() - i,
    {
        let u: u16 = s[i];
        let ghost rest = s@.skip(i as int);
        let ghost before = out@;
        let mut c: char = '\u{fffd}';
        let mut n: usize = 1;
        if u < 0xd800 || u > 0xdfff {
            if let Some(x) = char::from_u32(u as u32) {
                c = x;
            }
        } else if u < 0xdc00 && i < s.len() - 1 && s[i + 1] >= 0xdc00 && s[i + 1] <= 0xdfff {
            let high: u32 = u as u32 - 0xd800;
            let low: u32 = s[i + 1] as u32 - 0xdc00;
            if let Some(x) = char::from_u32(0x1_0000 + high * 0x400 + low) {
                c = x;
            }
            n = 2;
        }
        proof {
            assert(rest[0] == u);
            if i + 1 < s@.len() {
                assert(rest[1] == s@[i + 1]);
            }
            assert(rest.skip(n as int) =~= s@.skip(i + n));
            assert(decode_utf16(rest) == seq![c] + decode_utf16(rest.skip(n as int)));
            assert(before.push(c) + decode_utf16(s@.skip(i + n)) =~= before + decode_utf16(rest));
        }
        out.push(c);
        i = i + n;
    }
    assert(s@.skip(i as int) =~= Seq::<u16>::empty());
    assert(out@ =~= decode_utf16(s@));
    out
}

/// A code unit outside of the surrogates is the character with its number,
/// and a high and a low surrogate are one character together: its number is
/// 0x10000 more than the ten bits of the one and then of the other.
pub proof fn law_units_are_characters(s: Seq<u16>, u: u16, high: u16, low: u16)
    requires
        !(0xd800 <= u <= 0xdfff),
        0xd800 <= high <= 0xdbff,
        0xdc00 <= low <= 0xdfff,
    ensures
        decode_utf16(seq![u] + s).len() == decode_utf16(s).len() + 1,
        decode_utf16(seq![u] + s)[0] as int == u,
        decode_utf16(seq![u] + s).skip(1) == decode_utf16(s),
        decode_utf16(seq![high, low] + s).len() == decode_utf16(s).len() + 1,
        decode_utf16(seq![high, low] + s)[0] as int == 0x1_0000 + 1024 * (high - 0xd800) + (low - 0xdc00),
        decode_utf16(seq![high, low] + s).skip(1) == decode_utf16(s),
        decode_utf16(seq![]) == Seq::<char>::empty(),
{
    let a = seq![u] + s;
    let b = seq![high, low] + s;
    assert(a.skip(1) =~= s);
    assert(b.skip(2) =~= s);
    assert(decode_utf16(a).skip(1) =~= decode_utf16(s));
    assert(decode_utf16(b).skip(1) =~= decode_utf16(s));
}

/// A surrogate alone becomes the replacement character.
pub proof fn law_lone_halves_are_replaced(s: Seq<u16>, u: u16)
    requires
        0xd800 <= u <= 0xdfff,
        u < 0xdc00 ==> (s.len() == 0 || !(0xdc00 <= s[0] <= 0xdfff)),
    ensures
        decode_utf16(seq![u] + s) == seq!['\u{fffd}'] + decode_utf16(s),
{
    let a = seq![u] + s;
    assert(a.skip(1) =~= s);
}

} // verus!
