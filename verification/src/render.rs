//! Verified text rendering: decimal and fixed-width hexadecimal forms of the
//! machine's word values, used by the output instruction and by the
//! disassembler.

use vstd::prelude::*;

verus! {

/// Relies on String::push: appends exactly the given character.
pub assume_specification [ String::push ](s: &mut String, c: char)
    ensures
        final(s)@ == old(s)@ + seq![c],
;

/// The character of a single decimal digit.
pub open spec fn digit_char(d: int) -> char {
    ((48 + d) as u8) as char
}

/// The character of a single hexadecimal digit, upper case.
pub open spec fn hex_digit_char(d: int) -> char {
    if d < 10 {
        ((48 + d) as u8) as char
    } else {
        ((55 + d) as u8) as char
    }
}

/// The decimal digits of a natural number, no sign, no padding.
pub open spec fn dec_digits(n: nat) -> Seq<char>
    decreases n,
{
    if n < 10 {
        seq![digit_char(n as int)]
    } else {
        dec_digits(n / 10).push(digit_char((n % 10) as int))
    }
}

/// The decimal rendering of an integer: a minus sign for negatives, then
/// the digits of its magnitude.
pub open spec fn dec_chars(v: int) -> Seq<char> {
    if v < 0 {
        seq!['-'] + dec_digits((-v) as nat)
    } else {
        dec_digits(v as nat)
    }
}

/// Exactly `digits` hexadecimal digits of `n`, upper case, zero padded,
/// most significant first.
pub open spec fn hex_digits_fixed(n: int, digits: nat) -> Seq<char>
    decreases digits,
{
    if digits == 0 {
        Seq::empty()
    } else {
        hex_digits_fixed(n / 16, (digits - 1) as nat).push(hex_digit_char(n % 16))
    }
}

/// Exactly `digits` decimal digits of `n`, zero padded, most significant
/// first.
pub open spec fn dec_digits_fixed(n: int, digits: nat) -> Seq<char>
    decreases digits,
{
    if digits == 0 {
        Seq::empty()
    } else {
        dec_digits_fixed(n / 10, (digits - 1) as nat).push(digit_char(n % 10))
    }
}

/// Append exactly `digits` decimal digits of `u`, zero padded.
pub fn push_dec_fixed(s: &mut String, u: u64, digits: usize)
    ensures
        final(s)@ == old(s)@ + dec_digits_fixed(u as int, digits as nat),
    decreases digits,
{
    if digits == 0 {
        proof {
            assert(final(s)@ =~= old(s)@ + dec_digits_fixed(u as int, 0));
        }
    } else {
        push_dec_fixed(s, u / 10, digits - 1);
        s.push((48 + ((u % 10) as u8)) as char);
        proof {
            assert(final(s)@ =~= old(s)@ + dec_digits_fixed(u as int, digits as nat));
        }
    }
}

/// Append the decimal digits of `u` to `s`.
pub fn push_dec_digits(s: &mut String, u: u64)
    ensures
        final(s)@ == old(s)@ + dec_digits(u as nat),
    decreases u,
{
    if u < 10 {
        s.push((48 + (u as u8)) as char);
    } else {
        push_dec_digits(s, u / 10);
        let ghost mid = s@;
        s.push((48 + ((u % 10) as u8)) as char);
        proof {
            assert(final(s)@ =~= old(s)@ + dec_digits(u as nat));
        }
    }
}

/// Append the decimal rendering of `v` to `s`.
pub fn push_dec_i64(s: &mut String, v: i64)
    ensures
        final(s)@ == old(s)@ + dec_chars(v as int),
{
    if v < 0 {
        s.push('-');
        let u: u64 = ((-(v + 1)) as u64) + 1;
        assert(u as int == -(v as int));
        let ghost mid = s@;
        push_dec_digits(s, u);
        proof {
            assert(final(s)@ =~= old(s)@ + dec_chars(v as int));
        }
    } else {
        push_dec_digits(s, v as u64);
    }
}

/// The decimal rendering of `v` as a fresh string.
pub fn dec_string(v: i64) -> (r: String)
    ensures
        r@ == dec_chars(v as int),
{
    let mut s = String::new();
    push_dec_i64(&mut s, v);
    proof {
        assert(Seq::<char>::empty() + dec_chars(v as int) =~= dec_chars(v as int));
    }
    s
}

/// Append exactly `digits` hexadecimal digits of `u`, zero padded.
pub fn push_hex_fixed(s: &mut String, u: u64, digits: usize)
    ensures
        final(s)@ == old(s)@ + hex_digits_fixed(u as int, digits as nat),
    decreases digits,
{
    if digits == 0 {
        proof {
            assert(final(s)@ =~= old(s)@ + hex_digits_fixed(u as int, 0));
        }
    } else {
        push_hex_fixed(s, u / 16, digits - 1);
        let d = (u % 16) as u8;
        let c = if d < 10 {
            (48 + d) as char
        } else {
            (55 + d) as char
        };
        s.push(c);
        proof {
            assert(final(s)@ =~= old(s)@ + hex_digits_fixed(u as int, digits as nat));
        }
    }
}

/// Append a string slice (its whole character sequence).
pub fn push_str_all(s: &mut String, t: &str)
    ensures
        final(s)@ == old(s)@ + t@,
{
    s.append(t);
}

} // verus!
