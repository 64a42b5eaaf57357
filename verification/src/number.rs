//! Unsigned numbers as text: decimal fields of command outputs and environment values, and the
//! decimal and hexadecimal parts of addresses.
use vstd::prelude::*;

use crate::text::{chars_of, Text};

verus! {

/// The value of a digit in the radixes up to sixteen; `99` for any other character.
pub open spec fn digit_val(c: char) -> nat {
    let u = c as nat;
    if 48 <= u <= 57 {
        (u - 48) as nat
    } else if 97 <= u <= 102 {
        (u - 87) as nat
    } else if 65 <= u <= 70 {
        (u - 55) as nat
    } else {
        99
    }
}

/// The number that the digits of `t` write in the given radix.
pub open spec fn value(t: Text, radix: nat) -> nat
    decreases t.len(),
{
    if t.len() == 0 {
        0
    } else {
        value(t.drop_last(), radix) * radix + digit_val(t.last())
    }
}

/// Whether `t` is one or more digits of the radix.
pub open spec fn is_numeral(t: Text, radix: nat) -> bool {
    t.len() > 0 && forall|i: int| 0 <= i < t.len() ==> digit_val(#[trigger] t[i]) < radix
}

/// The number that `t` writes, if it is a numeral of at most `max`.
pub open spec fn numeral(t: Text, radix: nat, max: nat) -> Option<nat> {
    if is_numeral(t, radix) && value(t, radix) <= max {
        Some(value(t, radix))
    } else {
        None
    }
}

/// The number that `str::parse` reads into an unsigned type with the greatest value `max`: decimal
/// digits, with an optional plus sign before them.
pub open spec fn parse_unsigned(t: Text, max: nat) -> Option<nat> {
    if t.len() > 0 && t[0] == '+' {
        numeral(t.skip(1), 10, max)
    } else {
        numeral(t, 10, max)
    }
}

fn digit_of(c: char) -> (r: u32)
    ensures
        r == digit_val(c),
{
    let u = c as u32;
    if 48 <= u && u <= 57 {
        u - 48
    } else if 97 <= u && u <= 102 {
        u - 87
    } else if 65 <= u && u <= 70 {
        u - 55
    } else {
        99
    }
}

/// Leaving digits off the end does not make a number greater.
proof fn lemma_value_prefix(t: Text, n: int, radix: nat)
    requires
        0 <= n <= t.len(),
        radix >= 1,
    ensures
        value(t.take(n), radix) <= value(t, radix),
    decreases t.len() - n,
{
    if n < t.len() {
        lemma_value_prefix(t, n + 1, radix);
        let u = t.take(n + 1);
        assert(u.drop_last() =~= t.take(n));
        let v = value(t.take(n), radix);
        assert(v * radix >= v) by (nonlinear_arith)
            requires
                radix >= 1,
                v >= 0,
        ;
    } else {
        assert(t.take(n) =~= t);
    }
}

/// Reads the numeral in `chars[from..to]`.
pub fn read_numeral(chars: &Vec<char>, from: usize, to: usize, radix: u32, max: u64) -> (r: Option<
    u64,
>)
    requires
        from <= to <= chars@.len(),
        2 <= radix <= 16,
    ensures
        (match r {
            Some(n) => Some(n as nat),
            None => None,
        }) == numeral(
            chars@.subrange(from as int, to as int),
            radix as nat,
            max as nat,
        ),
{
    let ghost t = chars@.subrange(from as int, to as int);
    if from == to {
        return None;
    }
    let mut v: u64 = 0;
    let mut i: usize = from;
    assert(t.take(0) =~= Seq::<char>::empty());
    while i < to
        invariant
            from <= i <= to <= chars@.len(),
            2 <= radix <= 16,
            t == chars@.subrange(from as int, to as int),
            v == value(t.take(i - from), radix as nat),
            v <= max,
            forall|j: int| 0 <= j < i - from ==> digit_val(#[trigger] t[j]) < radix,
        decreases to - i,
    {
        let d = digit_of(chars[i]);
        assert(t[i - from] == chars@[i as int]);
        if d >= radix {
            return None;
        }
        assert(v * radix + d <= u64::MAX * 16 + 16) by (nonlinear_arith)
            requires
                v <= u64::MAX,
                radix <= 16,
                d < 16,
                v >= 0,
        ;
        assert(0 <= v * radix) by (nonlinear_arith)
            requires
                v >= 0,
                radix >= 0,
        ;
        let w: u128 = (v as u128) * (radix as u128) + (d as u128);
        proof {
            let u = t.take(i - from + 1);
            assert(u.drop_last() =~= t.take(i - from));
            assert(w == value(u, radix as nat));
        }
        if w > max as u128 {
            proof {
                lemma_value_prefix(t, i - from + 1, radix as nat);
            }
            return None;
        }
        v = w as u64;
        i += 1;
    }
    assert(t.take(to - from) =~= t);
    Some(v)
}

/// Reads a decimal number with an optional plus sign, of at most `max`.
pub fn read_unsigned(s: &str, max: u64) -> (r: Option<u64>)
    ensures
        (match r {
            Some(n) => Some(n as nat),
            None => None,
        }) == parse_unsigned(s@, max as nat),
{
    let chars = chars_of(s);
    if chars.len() > 0 && chars[0] == '+' {
        assert(s@.subrange(1, s@.len() as int) =~= s@.skip(1));
        read_numeral(&chars, 1, chars.len(), 10, max)
    } else {
        assert(s@.subrange(0, s@.len() as int) =~= s@);
        read_numeral(&chars, 0, chars.len(), 10, max)
    }
}

/// Reads a `u8` as `str::parse` does.
pub fn read_u8(s: &str) -> (r: Option<u8>)
    ensures
        (match r {
            Some(n) => Some(n as nat),
            None => None,
        }) == parse_unsigned(s@, u8::MAX as nat),
{
    match read_unsigned(s, u8::MAX as u64) {
        Some(n) => Some(n as u8),
        None => None,
    }
}

/// Reads a `u16` as `str::parse` does.
pub fn read_u16(s: &str) -> (r: Option<u16>)
    ensures
        (match r {
            Some(n) => Some(n as nat),
            None => None,
        }) == parse_unsigned(s@, u16::MAX as nat),
{
    match read_unsigned(s, u16::MAX as u64) {
        Some(n) => Some(n as u16),
        None => None,
    }
}

/// Reads a `u32` as `str::parse` does.
pub fn read_u32(s: &str) -> (r: Option<u32>)
    ensures
        (match r {
            Some(n) => Some(n as nat),
            None => None,
        }) == parse_unsigned(s@, u32::MAX as nat),
{
    match read_unsigned(s, u32::MAX as u64) {
        Some(n) => Some(n as u32),
        None => None,
    }
}

/// Reads a `u64` as `str::parse` does.
pub fn read_u64(s: &str) -> (r: Option<u64>)
    ensures
        (match r {
            Some(n) => Some(n as nat),
            None => None,
        }) == parse_unsigned(s@, u64::MAX as nat),
{
    read_unsigned(s, u64::MAX)
}

/// The digit of value `d`, in lower case.
pub open spec fn digit_char(d: nat) -> char {
    if d < 10 {
        (48 + d) as char
    } else {
        (87 + d) as char
    }
}

/// The number written in the radix without leading zeros.
pub open spec fn numeral_text(n: nat, radix: nat) -> Text
    decreases n,
{
    if n < radix || radix < 2 {
        seq![digit_char(n % radix)]
    } else {
        proof {
            assert(n / radix < n) by (nonlinear_arith)
                requires
                    radix >= 2,
                    n >= radix,
            ;
        }
        numeral_text(n / radix, radix).push(digit_char(n % radix))
    }
}

/// The number in decimal.
pub open spec fn decimal(n: nat) -> Text {
    numeral_text(n, 10)
}

fn char_of_digit(d: u8) -> (c: char)
    requires
        d < 16,
    ensures
        c == digit_char(d as nat),
{
    if d < 10 {
        (48 + d) as char
    } else {
        (87 + d) as char
    }
}

/// Writes a number in the radix, at the end of a text.
pub fn push_numeral(out: &mut String, n: u64, radix: u64)
    requires
        2 <= radix <= 16,
    ensures
        final(out)@ == old(out)@ + numeral_text(n as nat, radix as nat),
    decreases n,
{
    if n >= radix {
        proof {
            assert(n / radix < n) by (nonlinear_arith)
                requires
                    radix >= 2,
                    n >= radix,
            ;
        }
        push_numeral(out, n / radix, radix);
    }
    let d = (n % radix) as u8;
    let ghost before = out@;
    out.push(char_of_digit(d));
    proof {
        assert((n as nat) % (radix as nat) == d as nat);
        assert((n as nat) / (radix as nat) == (n / radix) as nat);
        assert(out@ =~= old(out)@ + numeral_text(n as nat, radix as nat));
    }
}

/// A number in decimal.
pub fn decimal_of(n: u64) -> (r: String)
    ensures
        r@ == decimal(n as nat),
{
    let mut r = String::new();
    push_numeral(&mut r, n, 10);
    assert(r@ =~= decimal(n as nat));
    r
}

/// Reading back a written number gives the number.
pub proof fn law_numeral_reads_back(n: nat, radix: nat)
    requires
        2 <= radix <= 16,
    ensures
        is_numeral(numeral_text(n, radix), radix),
        value(numeral_text(n, radix), radix) == n,
    decreases n,
{
    let t = numeral_text(n, radix);
    assert(digit_val(digit_char(n % radix)) == n % radix);
    if n < radix {
        assert(n % radix == n) by (nonlinear_arith)
            requires
                n < radix,
                n >= 0,
        ;
        assert(t.drop_last() =~= Seq::<char>::empty());
        assert(value(t, radix) == value(t.drop_last(), radix) * radix + n);
        assert(value(t.drop_last(), radix) == 0);
        assert(0 * radix == 0) by (nonlinear_arith);
    } else {
        assert(n / radix < n) by (nonlinear_arith)
            requires
                radix >= 2,
                n >= radix,
        ;
        law_numeral_reads_back(n / radix, radix);
        let front = numeral_text(n / radix, radix);
        assert(t.drop_last() =~= front);
        assert(n == (n / radix) * radix + n % radix) by (nonlinear_arith)
            requires
                radix >= 2,
        ;
        assert forall|i: int| 0 <= i < t.len() implies digit_val(#[trigger] t[i]) < radix by {
            if i < t.len() - 1 {
                assert(t[i] == front[i]);
            }
        }
    }
}

} // verus!
