//! Numbers as text: parsing, decimal and hexadecimal output.

use crate::text::push_chars;
use vstd::prelude::*;

verus! {

broadcast use vstd::seq_lib::group_seq_properties;

/// The value of a digit, up to radix 16; -1 for any other character.
pub open spec fn digit_value(c: char) -> int {
    if '0' <= c <= '9' {
        c as int - '0' as int
    } else if 'a' <= c <= 'f' {
        c as int - 'a' as int + 10
    } else if 'A' <= c <= 'F' {
        c as int - 'A' as int + 10
    } else {
        -1
    }
}

/// Every character is a digit of `radix`, and there is one.
pub open spec fn is_numeral(s: Seq<char>, radix: int) -> bool {
    s.len() > 0 && forall|i: int| 0 <= i < s.len() ==> 0 <= digit_value(#[trigger] s[i]) < radix
}

/// The number that a numeral writes.
pub open spec fn numeral(s: Seq<char>, radix: int) -> int
    decreases s.len(),
{
    if s.len() == 0 {
        0
    } else {
        numeral(s.drop_last(), radix) * radix + digit_value(s.last())
    }
}

/// The unsigned number that `s` writes: digits of `radix`, with at most one
/// `+` in front, of a value up to `max`.
pub open spec fn parse_unsigned(s: Seq<char>, radix: int, max: int) -> Option<int> {
    let t = if s.len() > 0 && s[0] == '+' {
        s.skip(1)
    } else {
        s
    };
    if is_numeral(t, radix) && numeral(t, radix) <= max {
        Some(numeral(t, radix))
    } else {
        None
    }
}

proof fn lemma_numeral_prefix(s: Seq<char>, radix: int, n: int)
    requires
        is_numeral(s, radix),
        0 <= n <= s.len(),
        radix >= 1,
    ensures
        0 <= numeral(s.take(n), radix) <= numeral(s, radix),
    decreases s.len(),
{
    if s.len() == 1 {
        assert(s.drop_last() =~= Seq::<char>::empty());
        if n == 1 {
            assert(s.take(1) =~= s);
        }
        assert(numeral(s.drop_last(), radix) == 0);
    } else {
        let d = s.drop_last();
        assert forall|i: int| 0 <= i < d.len() implies 0 <= digit_value(#[trigger] d[i]) < radix by {
            assert(d[i] == s[i]);
        }
        if n == s.len() {
            assert(s.take(n) =~= s);
            lemma_numeral_prefix(d, radix, 0);
        } else {
            lemma_numeral_prefix(d, radix, n);
            assert(d.take(n) =~= s.take(n));
        }
        let v = numeral(d, radix);
        if n == s.len() {
            lemma_numeral_prefix(d, radix, d.len() as int);
            assert(d.take(d.len() as int) =~= d);
        }
        assert(v >= 0);
        assert(v * radix >= v) by (nonlinear_arith)
            requires
                v >= 0,
                radix >= 1,
        ;
        assert(s.last() == s[s.len() - 1]);
    }
}

/// The value of a digit of a radix up to 16.
fn digit_of(c: char) -> (r: Option<u64>)
    ensures
        match r {
            Some(d) => digit_value(c) == d && d < 16,
            None => digit_value(c) == -1,
        },
{
    if '0' <= c && c <= '9' {
        Some((c as u64) - 48)
    } else if 'a' <= c && c <= 'f' {
        Some((c as u64) - 87)
    } else if 'A' <= c && c <= 'F' {
        Some((c as u64) - 55)
    } else {
        None
    }
}

/// Read an unsigned number.
pub fn parse_number(s: &[char], radix: u64, max: u64) -> (r: Option<u64>)
    requires
        2 <= radix <= 16,
    ensures
        match r {
            Some(n) => parse_unsigned(s@, radix as int, max as int) == Some(n as int),
            None => parse_unsigned(s@, radix as int, max as int) is None,
        },
{
    let t = if s.len() > 0 && s[0] == '+' {
        crate::text::skip(s, 1)
    } else {
        s
    };
    if t.len() == 0 {
        return None;
    }
    let mut i: usize = 0;
    let mut value: u64 = 0;
    assert(t@.take(0) =~= Seq::<char>::empty());
    while i < t.len()
        invariant
            i <= t@.len(),
            2 <= radix <= 16,
            t@ == (if s@.len() > 0 && s@[0] == '+' {
                s@.skip(1)
            } else {
                s@
            }),
            forall|j: int| 0 <= j < i ==> 0 <= digit_value(#[trigger] t@[j]) < radix,
            value == numeral(t@.take(i as int), radix as int),
            value <= max,
        decreases t@.len() - i,
    {
        let d: u64 = match digit_of(t[i]) {
            Some(d) => d,
            None => {
                assert(digit_value(t@[i as int]) == -1);
                return None;
            },
        };
        if d >= radix {
            assert(digit_value(t@[i as int]) >= radix);
            return None;
        }
        proof {
            assert(value * radix <= 0xffff_ffff_ffff_ffff * 16) by (nonlinear_arith)
                requires
                    0 <= value <= 0xffff_ffff_ffff_ffff,
                    0 <= radix <= 16,
            ;
        }
        let wide: u128 = (value as u128) * (radix as u128) + (d as u128);
        proof {
            assert(t@.take(i + 1).drop_last() =~= t@.take(i as int));
            assert(t@.take(i + 1).last() == t@[i as int]);
            assert(numeral(t@.take(i + 1), radix as int) == value * radix + d);
            assert(wide == value * radix + d);
        }
        if wide > max as u128 {
            proof {
                if is_numeral(t@, radix as int) {
                    lemma_numeral_prefix(t@, radix as int, i + 1);
                }
            }
            return None;
        }
        value = wide as u64;
        i = i + 1;
    }
    assert(t@.take(i as int) =~= t@);
    Some(value)
}

/// Read a decimal number that fits a `usize`.
pub fn parse_usize(s: &[char]) -> (r: Option<usize>)
    ensures
        match r {
            Some(n) => parse_unsigned(s@, 10, usize::MAX as int) == Some(n as int),
            None => parse_unsigned(s@, 10, usize::MAX as int) is None,
        },
{
    match parse_number(s, 10, usize::MAX as u64) {
        Some(n) => Some(n as usize),
        None => None,
    }
}

// ---------------------------------------------------------------------
// Output
// ---------------------------------------------------------------------

/// The character of a digit below 16, in lower case.
pub open spec fn digit_char(d: int) -> char {
    if 0 <= d < 10 {
        (('0' as int + d) as u32) as char
    } else {
        (('a' as int + d - 10) as u32) as char
    }
}

/// `n` in `radix`, without leading zeros.
pub open spec fn digits(n: nat, radix: nat) -> Seq<char>
    decreases n,
{
    if n < radix || radix < 2 {
        seq![digit_char(n as int)]
    } else {
        proof {
            assert(n / radix < n) by (nonlinear_arith)
                requires
                    n >= radix,
                    radix >= 2,
            ;
        }
        digits(n / radix, radix).push(digit_char((n % radix) as int))
    }
}

/// `n` in decimal.
pub open spec fn dec(n: nat) -> Seq<char> {
    digits(n, 10)
}

/// `n` in hexadecimal.
pub open spec fn hex(n: nat) -> Seq<char> {
    digits(n, 16)
}

/// `n` zeros.
pub open spec fn zeros(n: nat) -> Seq<char> {
    Seq::new(n, |i: int| '0')
}

/// `n` in hexadecimal, with zeros in front up to a width of `width`.
pub open spec fn hex_pad(n: nat, width: nat) -> Seq<char> {
    if hex(n).len() < width {
        zeros((width - hex(n).len()) as nat) + hex(n)
    } else {
        hex(n)
    }
}

/// Two hexadecimal digits for each byte.
pub open spec fn hex_bytes(b: Seq<u8>) -> Seq<char>
    decreases b.len(),
{
    if b.len() == 0 {
        seq![]
    } else {
        hex_bytes(b.drop_last()) + hex_pad(b.last() as nat, 2)
    }
}

fn digit_char_of(d: u8) -> (c: char)
    requires
        d < 16,
    ensures
        c == digit_char(d as int),
{
    if d < 10 {
        (48 + d) as char
    } else {
        (87 + d) as char
    }
}

/// Append `n` in `radix`.
fn push_digits(out: &mut String, n: u64, radix: u64)
    requires
        2 <= radix <= 16,
    ensures
        final(out)@ == old(out)@ + digits(n as nat, radix as nat),
    decreases n,
{
    if n >= radix {
        proof {
            assert(n / radix < n) by (nonlinear_arith)
                requires
                    n >= radix,
                    radix >= 2,
            ;
        }
        push_digits(out, n / radix, radix);
    }
    proof {
        assert(n % radix < radix) by (nonlinear_arith)
            requires
                radix >= 2,
        ;
    }
    let d: u8 = (n % radix) as u8;
    let ghost before = out@;
    proof {
        assert((n / radix) as nat == (n as nat) / (radix as nat));
        if n >= radix {
            assert(before == old(out)@ + digits((n as nat) / (radix as nat), radix as nat));
            assert(digits(n as nat, radix as nat) == digits((n as nat) / (radix as nat), radix as nat).push(
                digit_char(d as int),
            ));
        } else {
            assert(n % radix == n) by (nonlinear_arith)
                requires
                    n < radix,
            ;
        }
    }
    out.push(digit_char_of(d));
    assert(out@ =~= old(out)@ + digits(n as nat, radix as nat));
}

/// Append `n` in decimal.
pub fn push_dec(out: &mut String, n: u64)
    ensures
        final(out)@ == old(out)@ + dec(n as nat),
{
    push_digits(out, n, 10);
}

/// Append `n` in hexadecimal.
pub fn push_hex(out: &mut String, n: u64)
    ensures
        final(out)@ == old(out)@ + hex(n as nat),
{
    push_digits(out, n, 16);
}

/// Append `n` in hexadecimal, padded with zeros to `width`.
pub fn push_hex_pad(out: &mut String, n: u64, width: usize)
    ensures
        final(out)@ == old(out)@ + hex_pad(n as nat, width as nat),
{
    let mut h: String = String::new();
    push_hex(&mut h, n);
    assert(h@ =~= hex(n as nat));
    let hc = crate::text::chars(h.as_str());
    let mut k: usize = hc.len();
    while k < width
        invariant
            hc@ == hex(n as nat),
            hc@.len() <= k,
            k <= width || k == hc@.len(),
            out@ == old(out)@ + zeros((k - hc@.len()) as nat),
        decreases width - k,
    {
        out.push('0');
        k = k + 1;
        assert(out@ =~= old(out)@ + zeros((k - hc@.len()) as nat));
    }
    push_chars(out, hc.as_slice());
    assert(out@ =~= old(out)@ + hex_pad(n as nat, width as nat));
}

/// Append two hexadecimal digits for each byte.
pub fn push_hex_bytes(out: &mut String, b: &[u8])
    ensures
        final(out)@ == old(out)@ + hex_bytes(b@),
{
    let mut i: usize = 0;
    assert(out@ =~= old(out)@ + hex_bytes(b@.take(0)));
    while i < b.len()
        invariant
            i <= b@.len(),
            out@ == old(out)@ + hex_bytes(b@.take(i as int)),
        decreases b@.len() - i,
    {
        push_hex_pad(out, b[i] as u64, 2);
        proof {
            assert(b@.take(i + 1).drop_last() =~= b@.take(i as int));
            assert(b@.take(i + 1).last() == b@[i as int]);
            assert(out@ =~= old(out)@ + hex_bytes(b@.take(i + 1)));
        }
        i = i + 1;
    }
    assert(b@.take(i as int) =~= b@);
}

/// What is written in decimal reads back as it was, and holds digits only.
pub proof fn lemma_dec_reads_back(n: nat)
    ensures
        dec(n).len() > 0,
        forall|i: int| 0 <= i < dec(n).len() ==> '0' <= #[trigger] dec(n)[i] <= '9',
        is_numeral(dec(n), 10),
        numeral(dec(n), 10) == n,
        forall|max: int| n <= max ==> #[trigger] parse_unsigned(dec(n), 10, max) == Some(n as int),
    decreases n,
{
    if n < 10 {
        assert(dec(n) =~= seq![digit_char(n as int)]);
        assert(dec(n).drop_last() =~= Seq::<char>::empty());
        reveal_with_fuel(numeral, 2);
    } else {
        let m = n / 10;
        lemma_dec_reads_back(m);
        assert(dec(n) =~= dec(m).push(digit_char((n % 10) as int)));
        assert(dec(n).drop_last() =~= dec(m));
        assert(digit_value(digit_char((n % 10) as int)) == n % 10);
    }
    assert(dec(n)[0] != '+');
}

/// The hexadecimal digits.
pub open spec fn hex_digit(n: int) -> char {
    seq!['0', '1', '2', '3', '4', '5', '6', '7', '8', '9', 'a', 'b', 'c', 'd', 'e', 'f'][n]
}

/// A digit behind a number makes it ten times as large, or sixteen times in
/// hexadecimal, and adds the digit; what would be over the limit is refused.
pub proof fn law_digit_behind_a_number(s: Seq<char>, d: int, n: int, max: int)
    requires
        0 <= n <= max,
    ensures
        parse_unsigned(s, 10, max) == Some(n) && 0 <= d < 10 ==> parse_unsigned(
            s.push(hex_digit(d)),
            10,
            max,
        ) == (if 10 * n + d <= max {
            Some(10 * n + d)
        } else {
            None
        }),
        parse_unsigned(s, 16, max) == Some(n) && 0 <= d < 16 ==> parse_unsigned(
            s.push(hex_digit(d)),
            16,
            max,
        ) == (if 16 * n + d <= max {
            Some(16 * n + d)
        } else {
            None
        }),
        0 <= d < 10 && d <= max ==> parse_unsigned(seq![hex_digit(d)], 10, max) == Some(d),
        0 <= d < 16 && d <= max ==> parse_unsigned(seq![hex_digit(d)], 16, max) == Some(d),
{
    let c = hex_digit(d);
    if 0 <= d < 16 {
        assert(digit_value(c) == d && c != '+');
        lemma_digit_behind(s, c, 10);
        lemma_digit_behind(s, c, 16);
        reveal_with_fuel(numeral, 2);
        assert(seq![c].drop_last() =~= Seq::<char>::empty());
    }
}

proof fn lemma_digit_behind(s: Seq<char>, c: char, radix: int)
    requires
        0 <= digit_value(c),
    ensures
        ({
            let t = if s.len() > 0 && s[0] == '+' {
                s.skip(1)
            } else {
                s
            };
            let u = if s.len() > 0 && s[0] == '+' {
                s.push(c).skip(1)
            } else {
                s.push(c)
            };
            &&& u == t.push(c)
            &&& is_numeral(t, radix) && digit_value(c) < radix ==> is_numeral(t.push(c), radix)
            &&& numeral(t.push(c), radix) == numeral(t, radix) * radix + digit_value(c)
        }),
{
    let t = if s.len() > 0 && s[0] == '+' {
        s.skip(1)
    } else {
        s
    };
    if s.len() > 0 && s[0] == '+' {
        assert(s.push(c).skip(1) =~= t.push(c));
    }
    assert(t.push(c).drop_last() =~= t);
    assert(t.push(c).last() == c);
}

/// Only digits write a number, in hexadecimal the letters up to `f` too; one
/// `+` in front makes no difference.
pub proof fn law_only_digits_write_a_number(s: Seq<char>, i: int, max: int)
    ensures
        parse_unsigned(seq![], 10, max) is None,
        parse_unsigned(seq![], 16, max) is None,
        parse_unsigned(seq!['+'], 10, max) is None,
        0 <= i < s.len() && !('0' <= s[i] <= '9') && (i > 0 || s[i] != '+') ==> parse_unsigned(
            s,
            10,
            max,
        ) is None,
        0 <= i < s.len() && !('0' <= s[i] <= '9') && !('a' <= s[i] <= 'f') && !('A' <= s[i] <= 'F') && (
        i > 0 || s[i] != '+') ==> parse_unsigned(s, 16, max) is None,
        s.len() > 0 && s[0] != '+' ==> parse_unsigned(seq!['+'] + s, 10, max) == parse_unsigned(
            s,
            10,
            max,
        ),
{
    assert(seq!['+'].skip(1) =~= Seq::<char>::empty());
    assert((seq!['+'] + s).skip(1) =~= s);
    if 0 <= i < s.len() && (i > 0 || s[i] != '+') {
        if s[0] == '+' {
            let t = s.skip(1);
            assert(t[i - 1] == s[i]);
        }
    }
}

/// What is written in hexadecimal reads back as it was, and holds digits and
/// small letters only.
pub proof fn law_hex_reads_back(n: nat)
    ensures
        hex(n).len() > 0,
        forall|i: int|
            0 <= i < hex(n).len() ==> ('0' <= #[trigger] hex(n)[i] <= '9' || 'a' <= hex(n)[i] <= 'f'),
        numeral(hex(n), 16) == n,
        forall|max: int| n <= max ==> #[trigger] parse_unsigned(hex(n), 16, max) == Some(n as int),
        n < 16 ==> hex(n) == seq![hex_digit(n as int)],
        n >= 16 ==> hex(n) == hex(n / 16).push(hex_digit((n % 16) as int)),
    decreases n,
{
    assert(digit_char((n % 16) as int) == hex_digit((n % 16) as int));
    if n < 16 {
        assert(hex(n) =~= seq![digit_char(n as int)]);
        assert(hex(n).drop_last() =~= Seq::<char>::empty());
        reveal_with_fuel(numeral, 2);
    } else {
        let m = n / 16;
        law_hex_reads_back(m);
        assert(hex(n) =~= hex(m).push(digit_char((n % 16) as int)));
        assert(hex(n).drop_last() =~= hex(m));
        assert(digit_value(digit_char((n % 16) as int)) == n % 16);
    }
    assert(hex(n)[0] != '+');
}

/// Padding puts zeros in front, up to the width.
pub proof fn law_padding_is_zeros(n: nat, width: nat)
    ensures
        hex_pad(n, width).len() == (if hex(n).len() < width {
            width
        } else {
            hex(n).len()
        }),
        forall|i: int|
            0 <= i < hex_pad(n, width).len() - hex(n).len() ==> #[trigger] hex_pad(n, width)[i] == '0',
        hex_pad(n, width).skip(hex_pad(n, width).len() - hex(n).len()) == hex(n),
        n < 256 ==> hex_pad(n, 2) == seq![hex_digit((n / 16) as int), hex_digit((n % 16) as int)],
{
    assert(hex_pad(n, width).skip(hex_pad(n, width).len() - hex(n).len()) =~= hex(n));
    law_hex_reads_back(n);
    if n < 256 {
        law_hex_reads_back(n / 16);
        assert(hex_pad(n, 2) =~= seq![hex_digit((n / 16) as int), hex_digit((n % 16) as int)]);
    }
}

/// Each byte is written with two digits, the higher one first.
pub proof fn law_bytes_in_hex(b: Seq<u8>)
    ensures
        hex_bytes(b).len() == 2 * b.len(),
        forall|i: int|
            0 <= i < b.len() ==> hex_bytes(b)[2 * i] == hex_digit((#[trigger] b[i] / 16) as int)
                && hex_bytes(b)[2 * i + 1] == hex_digit((b[i] % 16) as int),
    decreases b.len(),
{
    if b.len() > 0 {
        let d = b.drop_last();
        law_bytes_in_hex(d);
        law_padding_is_zeros(b.last() as nat, 2);
        let tail = hex_pad(b.last() as nat, 2);
        assert forall|i: int| 0 <= i < b.len() implies hex_bytes(b)[2 * i] == hex_digit(
            (#[trigger] b[i] / 16) as int,
        ) && hex_bytes(b)[2 * i + 1] == hex_digit((b[i] % 16) as int) by {
            if i < d.len() {
                assert(d[i] == b[i]);
            } else {
                assert(hex_bytes(b)[2 * i] == tail[0]);
                assert(hex_bytes(b)[2 * i + 1] == tail[1]);
            }
        }
    }
}

} // verus!
