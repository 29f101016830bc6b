//! Parsing of the one line of text the read instruction consumes: the line
//! is trimmed of surrounding whitespace and read as an optionally signed
//! decimal integer; anything else, or a value outside the 64-bit range, is
//! rejected.

use vstd::prelude::*;

verus! {

/// The whitespace bytes the trim strips: space, tab, line feed, carriage
/// return.
pub open spec fn is_ws(b: u8) -> bool {
    b == 32 || b == 9 || b == 10 || b == 13
}

pub open spec fn is_digit(b: u8) -> bool {
    48 <= b <= 57
}

pub open spec fn all_digits(s: Seq<u8>) -> bool {
    forall|i: int| 0 <= i < s.len() ==> is_digit(#[trigger] s[i])
}

/// How many whitespace bytes the line starts with.
pub open spec fn leading_ws(s: Seq<u8>) -> nat
    decreases s.len(),
{
    if s.len() == 0 || !is_ws(s[0]) {
        0
    } else {
        1 + leading_ws(s.drop_first())
    }
}

/// How many whitespace bytes the line ends with.
pub open spec fn trailing_ws(s: Seq<u8>) -> nat
    decreases s.len(),
{
    if s.len() == 0 || !is_ws(s.last()) {
        0
    } else {
        1 + trailing_ws(s.drop_last())
    }
}

/// The line with surrounding whitespace removed.
pub open spec fn trimmed(s: Seq<u8>) -> Seq<u8> {
    let lo = leading_ws(s) as int;
    let hi = s.len() - trailing_ws(s);
    if lo < hi {
        s.subrange(lo, hi)
    } else {
        Seq::empty()
    }
}

/// The value of a run of decimal digits, most significant first.
pub open spec fn dec_val_of(s: Seq<u8>) -> int
    decreases s.len(),
{
    if s.len() == 0 {
        0
    } else {
        dec_val_of(s.drop_last()) * 10 + (s.last() - 48)
    }
}

/// The value of a trimmed token: an optional sign followed by at least one
/// digit, and nothing else.
pub open spec fn int_token_val(s: Seq<u8>) -> Option<int> {
    if s.len() == 0 {
        None
    } else if s[0] == 45 || s[0] == 43 {
        let d = s.drop_first();
        if d.len() > 0 && all_digits(d) {
            Some(
                if s[0] == 45 {
                    -dec_val_of(d)
                } else {
                    dec_val_of(d)
                },
            )
        } else {
            None
        }
    } else if all_digits(s) {
        Some(dec_val_of(s))
    } else {
        None
    }
}

/// What the read instruction accepts: the trimmed line as a signed decimal
/// integer, provided the value fits in 64 bits.
pub open spec fn parse_i64_spec(s: Seq<u8>) -> Option<int> {
    match int_token_val(trimmed(s)) {
        None => None,
        Some(v) => {
            if -0x8000_0000_0000_0000 <= v <= 0x7FFF_FFFF_FFFF_FFFF {
                Some(v)
            } else {
                None
            }
        },
    }
}

/// The leading-whitespace count is the first non-whitespace position.
proof fn lemma_leading_ws(s: Seq<u8>, j: int)
    requires
        0 <= j <= s.len(),
        forall|m: int| 0 <= m < j ==> is_ws(#[trigger] s[m]),
        j == s.len() || !is_ws(s[j]),
    ensures
        leading_ws(s) == j,
    decreases s.len(),
{
    if j == 0 {
    } else {
        assert(forall|m: int| 0 <= m < j - 1 ==> s.drop_first()[m] == s[m + 1]);
        lemma_leading_ws(s.drop_first(), j - 1);
    }
}

/// The trailing-whitespace count is measured from the last non-whitespace
/// position.
proof fn lemma_trailing_ws(s: Seq<u8>, t: int)
    requires
        0 <= t <= s.len(),
        forall|m: int| s.len() - t <= m < s.len() ==> is_ws(#[trigger] s[m]),
        t == s.len() || !is_ws(s[s.len() - t - 1]),
    ensures
        trailing_ws(s) == t,
    decreases s.len(),
{
    if t == 0 {
    } else {
        assert(is_ws(s.last()));
        assert(forall|m: int| 0 <= m < s.len() - 1 ==> s.drop_last()[m] == s[m]);
        lemma_trailing_ws(s.drop_last(), t - 1);
    }
}

/// A digit run is non-negative.
proof fn lemma_dec_val_nonneg(s: Seq<u8>)
    requires
        all_digits(s),
    ensures
        dec_val_of(s) >= 0,
    decreases s.len(),
{
    if s.len() > 0 {
        assert(all_digits(s.drop_last())) by {
            assert(forall|m: int| 0 <= m < s.len() - 1 ==> s.drop_last()[m] == s[m]);
        };
        lemma_dec_val_nonneg(s.drop_last());
    }
}

/// Appending digits can only grow the value of a digit run.
proof fn lemma_dec_val_prefix(s: Seq<u8>, i: int)
    requires
        all_digits(s),
        0 <= i <= s.len(),
    ensures
        dec_val_of(s.take(i)) <= dec_val_of(s),
    decreases s.len(),
{
    if i == s.len() {
        assert(s.take(i) =~= s);
    } else {
        assert(all_digits(s.drop_last())) by {
            assert(forall|m: int| 0 <= m < s.len() - 1 ==> s.drop_last()[m] == s[m]);
        };
        lemma_dec_val_nonneg(s.drop_last());
        lemma_dec_val_prefix(s.drop_last(), i);
        assert(s.drop_last().take(i) =~= s.take(i));
    }
}

fn ws_byte(b: u8) -> (r: bool)
    ensures
        r == is_ws(b),
{
    b == 32 || b == 9 || b == 10 || b == 13
}

/// Parse one input line as a signed 64-bit decimal integer.
#[verifier::loop_isolation(false)]
pub fn parse_i64(line: &Vec<u8>) -> (r: Option<i64>)
    ensures
        match r {
            Some(v) => parse_i64_spec(line@) == Some(v as int),
            None => parse_i64_spec(line@) is None,
        },
{
    let ghost s = line@;
    let n = line.len();
    let mut a: usize = 0;
    while a < n && ws_byte(line[a])
        invariant
            a <= n,
            forall|m: int| 0 <= m < a ==> is_ws(#[trigger] s[m]),
        decreases n - a,
    {
        a = a + 1;
    }
    proof {
        lemma_leading_ws(s, a as int);
    }
    let mut b: usize = n;
    while b > a && ws_byte(line[b - 1])
        invariant
            a <= b <= n,
            forall|m: int| b <= m < n ==> is_ws(#[trigger] s[m]),
        decreases b,
    {
        b = b - 1;
    }
    if a == b {
        // Nothing but whitespace: the trimmed token is empty.
        proof {
            if leading_ws(s) < s.len() - trailing_ws(s) {
                assert(is_ws(s[leading_ws(s) as int]));
            }
        }
        return None;
    }
    proof {
        lemma_trailing_ws(s, n - b);
    }
    let ghost t = trimmed(s);
    proof {
        assert(t =~= s.subrange(a as int, b as int));
    }
    let first = line[a];
    let neg = first == 45;
    let start: usize = if first == 45 || first == 43 {
        a + 1
    } else {
        a
    };
    if start == b {
        // A sign with no digits after it.
        return None;
    }
    let ghost d = if first == 45 || first == 43 {
        t.drop_first()
    } else {
        t
    };
    proof {
        assert(d =~= s.subrange(start as int, b as int));
    }
    let mut acc: i128 = 0;
    let mut i: usize = start;
    while i < b
        invariant
            start <= i <= b,
            0 <= acc <= 0x8000_0000_0000_0000,
            acc as int == dec_val_of(d.take(i - start)),
            forall|m: int| 0 <= m < i - start ==> is_digit(#[trigger] d[m]),
        decreases b - i,
    {
        let c = line[i];
        if c < 48 || c > 57 {
            // A non-digit inside the token.
            proof {
                assert(d[i - start] == s[i as int]);
            }
            return None;
        }
        proof {
            assert(d.take(i + 1 - start).drop_last() =~= d.take(i - start));
            assert(d.take(i + 1 - start).last() == d[i - start]);
        }
        acc = acc * 10 + ((c - 48) as i128);
        i = i + 1;
        if acc > 0x8000_0000_0000_0000 {
            // Already past every representable 64-bit magnitude; the full
            // token can only be larger, or contain a non-digit.
            proof {
                if all_digits(d) {
                    lemma_dec_val_prefix(d, i - start);
                }
            }
            return None;
        }
    }
    proof {
        assert(d.take(b - start) =~= d);
    }
    if neg {
        Some((-acc) as i64)
    } else {
        if acc > 0x7FFF_FFFF_FFFF_FFFF {
            return None;
        }
        Some(acc as i64)
    }
}

} // verus!
