//! The word model: a tagged value of exactly one active width (16-, 32- or
//! 64-bit signed), together with its little-endian byte serialization and the
//! two's-complement wraparound used when a wide intermediate result is
//! truncated back to the configured width.

use vstd::prelude::*;
use vstd::arithmetic::div_mod::{
    lemma_div_nonincreasing, lemma_div_pos_is_pos, lemma_fundamental_div_mod,
    lemma_mod_multiples_vanish, lemma_small_mod,
};

verus! {

/// Number of distinct values a `w`-byte slot can hold: 256^w.
pub open spec fn byte_modulus(w: nat) -> int
    decreases w,
{
    if w == 0 {
        1
    } else {
        256 * byte_modulus((w - 1) as nat)
    }
}

/// The concrete values of `byte_modulus` for every width up to eight bytes.
pub proof fn lemma_byte_modulus()
    ensures
        byte_modulus(0) == 1,
        byte_modulus(1) == 0x100,
        byte_modulus(2) == 0x10000,
        byte_modulus(3) == 0x100_0000,
        byte_modulus(4) == 0x1_0000_0000,
        byte_modulus(5) == 0x100_0000_0000,
        byte_modulus(6) == 0x1_0000_0000_0000,
        byte_modulus(7) == 0x100_0000_0000_0000,
        byte_modulus(8) == 0x1_0000_0000_0000_0000,
{
    reveal_with_fuel(byte_modulus, 9);
}

pub proof fn lemma_byte_modulus_step(k: nat)
    ensures
        byte_modulus(k + 1) == 256 * byte_modulus(k),
{
    reveal_with_fuel(byte_modulus, 2);
    assert(byte_modulus(k + 1) == 256 * byte_modulus(((k + 1) - 1) as nat));
}

/// Whether `v` is representable as a `w`-byte two's-complement integer.
pub open spec fn in_width(w: nat, v: int) -> bool {
    -(byte_modulus(w) / 2) <= v < byte_modulus(w) / 2
}

/// Two's-complement wraparound of an arbitrary integer to a `w`-byte width.
pub open spec fn wrap_val(w: nat, v: int) -> int {
    let m = byte_modulus(w);
    let r = v % m;
    if r >= m / 2 {
        r - m
    } else {
        r
    }
}

/// The unsigned `w`-byte representative of `v` (the bit pattern as a number).
pub open spec fn unsigned_val(w: nat, v: int) -> int {
    v % byte_modulus(w)
}

/// Truncating (round-toward-zero) integer division, the semantics of the
/// executable division operator. Only consulted for a non-zero divisor.
pub open spec fn trunc_div(a: int, b: int) -> int {
    if a >= 0 && b > 0 {
        a / b
    } else if a < 0 && b < 0 {
        (-a) / (-b)
    } else if a < 0 {
        -((-a) / b)
    } else {
        -(a / (-b))
    }
}

/// A truncating quotient is no larger in magnitude than its dividend, and
/// the quotient of zero is zero.
pub proof fn lemma_trunc_div(a: int, b: int)
    requires
        b != 0,
    ensures
        a >= 0 ==> 0 <= trunc_div(a, b) <= a || 0 >= trunc_div(a, b) >= -a,
        a < 0 ==> a <= trunc_div(a, b) <= -a,
        a == 0 ==> trunc_div(a, b) == 0,
{
    if a >= 0 && b > 0 {
        lemma_div_nonincreasing(a, b);
        lemma_div_pos_is_pos(a, b);
    } else if a < 0 && b < 0 {
        lemma_div_nonincreasing(-a, -b);
        lemma_div_pos_is_pos(-a, -b);
    } else if a < 0 {
        lemma_div_nonincreasing(-a, b);
        lemma_div_pos_is_pos(-a, b);
    } else {
        lemma_div_nonincreasing(a, -b);
        lemma_div_pos_is_pos(a, -b);
    }
}

/// Little-endian bytes of the unsigned value `u`, `w` bytes long.
pub open spec fn le_bytes(w: nat, u: int) -> Seq<u8>
    decreases w,
{
    if w == 0 {
        Seq::empty()
    } else {
        seq![(u % 256) as u8] + le_bytes((w - 1) as nat, u / 256)
    }
}

/// The unsigned value encoded by a little-endian byte sequence.
pub open spec fn le_val(s: Seq<u8>) -> int
    decreases s.len(),
{
    if s.len() == 0 {
        0
    } else {
        s[0] + 256 * le_val(s.drop_first())
    }
}

/// The signed word value encoded by a `w`-byte little-endian sequence.
pub open spec fn word_of_bytes(w: nat, s: Seq<u8>) -> int {
    wrap_val(w, le_val(s))
}

/// A word of the configured width. Every stack slot, constant and address
/// delta of a loaded program uses one width consistently; arithmetic widens
/// to 64 bits and truncates back on store.
#[derive(Clone, Copy, Debug, PartialEq, Eq, Structural)]
pub enum Data {
    B16(i16),
    B32(i32),
    B64(i64),
}

impl Data {
    /// Width of this word in bytes: 2, 4 or 8.
    pub open spec fn width(self) -> nat {
        match self {
            Data::B16(_) => 2,
            Data::B32(_) => 4,
            Data::B64(_) => 8,
        }
    }

    /// The mathematical (signed) value of this word.
    pub open spec fn value(self) -> int {
        match self {
            Data::B16(x) => x as int,
            Data::B32(x) => x as int,
            Data::B64(x) => x as int,
        }
    }

    /// The little-endian serialization of this word, exactly `width` bytes.
    pub open spec fn spec_bytes(self) -> Seq<u8> {
        le_bytes(self.width(), unsigned_val(self.width(), self.value()))
    }

    pub fn data_size(&self) -> (n: usize)
        ensures
            n == self.width(),
    {
        match self {
            Data::B16(_) => 2,
            Data::B32(_) => 4,
            Data::B64(_) => 8,
        }
    }

    /// Widen the word to a 64-bit working value.
    pub fn i64(&self) -> (r: i64)
        ensures
            r as int == self.value(),
    {
        match self {
            Data::B16(x) => *x as i64,
            Data::B32(x) => *x as i64,
            Data::B64(x) => *x,
        }
    }

    /// The unsigned bit pattern of this word, as a 64-bit value.
    pub fn unsigned_repr(&self) -> (u: u64)
        ensures
            u as int == unsigned_val(self.width(), self.value()),
            u < byte_modulus(self.width()),
    {
        proof {
            lemma_byte_modulus();
        }
        match self {
            Data::B16(x) => {
                proof {
                    lemma_unsigned_val(2, *x as int);
                }
                if *x >= 0 {
                    *x as u64
                } else {
                    (*x as i64 + 0x10000) as u64
                }
            },
            Data::B32(x) => {
                proof {
                    lemma_unsigned_val(4, *x as int);
                }
                if *x >= 0 {
                    *x as u64
                } else {
                    (*x as i64 + 0x1_0000_0000) as u64
                }
            },
            Data::B64(x) => {
                proof {
                    lemma_unsigned_val(8, *x as int);
                }
                if *x >= 0 {
                    *x as u64
                } else {
                    u64::MAX - ((-(*x + 1)) as u64)
                }
            },
        }
    }

    /// Serialize this word to its little-endian byte representation.
    pub fn to_bytes(&self) -> (r: Vec<u8>)
        ensures
            r@ == self.spec_bytes(),
            r@.len() == self.width(),
    {
        let u = self.unsigned_repr();
        let r = le_encode(u, self.data_size());
        proof {
            lemma_le_bytes_len(self.width(), unsigned_val(self.width(), self.value()));
        }
        r
    }

    /// Truncate a wide intermediate result back to the width that `bits`
    /// selects (two's-complement wraparound, not saturation).
    pub fn from_wrapped(bits: &Data, v: i128) -> (r: Data)
        ensures
            r.width() == bits.width(),
            r.value() == wrap_val(bits.width(), v as int),
    {
        proof {
            lemma_byte_modulus();
        }
        match bits {
            Data::B16(_) => {
                let rem = match v.checked_rem_euclid(0x10000) {
                    Some(x) => x,
                    None => 0,
                };
                if rem >= 0x8000 {
                    Data::B16((rem - 0x10000) as i16)
                } else {
                    Data::B16(rem as i16)
                }
            },
            Data::B32(_) => {
                let rem = match v.checked_rem_euclid(0x1_0000_0000) {
                    Some(x) => x,
                    None => 0,
                };
                if rem >= 0x8000_0000 {
                    Data::B32((rem - 0x1_0000_0000) as i32)
                } else {
                    Data::B32(rem as i32)
                }
            },
            Data::B64(_) => {
                let rem = match v.checked_rem_euclid(0x1_0000_0000_0000_0000) {
                    Some(x) => x,
                    None => 0,
                };
                if rem >= 0x8000_0000_0000_0000 {
                    Data::B64((rem - 0x1_0000_0000_0000_0000) as i64)
                } else {
                    Data::B64(rem as i64)
                }
            },
        }
    }
}

/// The unsigned representative of an in-width value, written without `%`.
pub proof fn lemma_unsigned_val(w: nat, v: int)
    requires
        in_width(w, v),
    ensures
        unsigned_val(w, v) == if v >= 0 {
            v
        } else {
            v + byte_modulus(w)
        },
        0 <= unsigned_val(w, v) < byte_modulus(w),
{
    let m = byte_modulus(w);
    lemma_byte_modulus_positive(w);
    if v >= 0 {
        lemma_small_mod(v as nat, m as nat);
    } else {
        lemma_mod_multiples_vanish(1, v, m);
        lemma_small_mod((v + m) as nat, m as nat);
    }
}

pub proof fn lemma_byte_modulus_positive(w: nat)
    ensures
        byte_modulus(w) >= 1,
    decreases w,
{
    if w > 0 {
        lemma_byte_modulus_positive((w - 1) as nat);
    }
}

/// `wrap_val` leaves in-width values unchanged, always produces an in-width
/// value, and is congruent to its argument modulo 256^w.
pub proof fn lemma_wrap_val(w: nat, v: int)
    requires
        w >= 1,
    ensures
        in_width(w, wrap_val(w, v)),
        in_width(w, v) ==> wrap_val(w, v) == v,
        (v - wrap_val(w, v)) % byte_modulus(w) == 0,
    decreases w,
{
    let m = byte_modulus(w);
    let h = byte_modulus((w - 1) as nat);
    lemma_byte_modulus_step((w - 1) as nat);
    lemma_byte_modulus_positive((w - 1) as nat);
    assert(m / 2 == 128 * h) by (nonlinear_arith)
        requires
            m == 256 * h,
            h >= 1,
    ;
    lemma_fundamental_div_mod(v, m);
    if in_width(w, v) {
        lemma_unsigned_val(w, v);
    }
    let r = v % m;
    let q = v / m;
    lemma_small_mod(0, m as nat);
    if r >= m / 2 {
        assert(v - (r - m) == m * (q + 1)) by (nonlinear_arith)
            requires
                v == m * q + r,
        ;
        lemma_mod_multiples_vanish(q + 1, 0, m);
        assert((v - wrap_val(w, v)) == m * (q + 1) + 0);
    } else {
        lemma_mod_multiples_vanish(q, 0, m);
        assert((v - wrap_val(w, v)) == m * q + 0);
    }
}

pub proof fn lemma_le_bytes_len(w: nat, u: int)
    ensures
        le_bytes(w, u).len() == w,
    decreases w,
{
    if w > 0 {
        lemma_le_bytes_len((w - 1) as nat, u / 256);
    }
}

/// Decoding the little-endian bytes of `u` gives back `u`.
pub proof fn lemma_le_round_trip(w: nat, u: int)
    requires
        0 <= u < byte_modulus(w),
    ensures
        le_val(le_bytes(w, u)) == u,
    decreases w,
{
    if w == 0 {
    } else {
        let wl = (w - 1) as nat;
        lemma_byte_modulus_step(wl);
        lemma_byte_modulus_positive(wl);
        assert(0 <= u / 256 < byte_modulus(wl)) by (nonlinear_arith)
            requires
                0 <= u < 256 * byte_modulus(wl),
                byte_modulus(wl) >= 1,
        ;
        lemma_le_round_trip(wl, u / 256);
        let s = le_bytes(w, u);
        assert(s == seq![(u % 256) as u8] + le_bytes(wl, u / 256));
        assert(s.drop_first() =~= le_bytes(wl, u / 256));
        assert(s[0] == (u % 256) as u8);
        lemma_fundamental_div_mod(u, 256);
    }
}

/// Serializing a word and deserializing the bytes yields the identical value,
/// for every representable value of every width.
pub proof fn lemma_word_round_trip(d: Data)
    ensures
        word_of_bytes(d.width(), d.spec_bytes()) == d.value(),
{
    let w = d.width();
    let v = d.value();
    lemma_byte_modulus();
    let u = unsigned_val(w, v);
    lemma_unsigned_val(w, v);
    lemma_le_round_trip(w, u);
    lemma_small_mod(u as nat, byte_modulus(w) as nat);
}

/// Little-endian encoding of `u0` into `w` bytes, lowest byte first.
pub fn le_encode(u0: u64, w: usize) -> (r: Vec<u8>)
    ensures
        r@ == le_bytes(w as nat, u0 as int),
{
    let mut r: Vec<u8> = Vec::new();
    let mut u: u64 = u0;
    let mut i: usize = 0;
    while i < w
        invariant
            i <= w,
            r@.len() == i,
            le_bytes(w as nat, u0 as int) =~= r@ + le_bytes((w - i) as nat, u as int),
        decreases w - i,
    {
        let ghost uo = u as int;
        let ghost ro = r@;
        r.push((u % 256) as u8);
        u = u / 256;
        i = i + 1;
        proof {
            assert(le_bytes((w - i + 1) as nat, uo) == seq![(uo % 256) as u8] + le_bytes(
                (w - i) as nat,
                uo / 256,
            ));
            assert(ro + le_bytes((w - i + 1) as nat, uo) =~= r@ + le_bytes(
                (w - i) as nat,
                u as int,
            ));
        }
    }
    proof {
        assert(r@ + le_bytes(0, u as int) =~= r@);
    }
    r
}

/// Read the word starting at byte offset `off` of `buf`, in the width that
/// `bits` selects.
pub fn word_from_bytes(buf: &Vec<u8>, off: usize, bits: &Data) -> (r: Data)
    requires
        off + bits.width() <= buf@.len(),
    ensures
        r.width() == bits.width(),
        r.value() == word_of_bytes(bits.width(), buf@.subrange(off as int, off + bits.width())),
{
    let w = bits.data_size();
    let n = buf.len();
    let mut u: u64 = 0;
    let mut i: usize = w;
    proof {
        lemma_byte_modulus();
        assert(buf@.subrange(off + w, off + w) =~= Seq::<u8>::empty());
    }
    while i > 0
        invariant
            i <= w,
            off + w <= n,
            n == buf@.len(),
            w == bits.width(),
            u as int == le_val(buf@.subrange(off + i, off + w)),
            u < byte_modulus((w - i) as nat),
            byte_modulus(8) == 0x1_0000_0000_0000_0000,
        decreases i,
    {
        i = i - 1;
        let ghost uo = u as int;
        proof {
            lemma_byte_modulus_step((w - i - 1) as nat);
            lemma_byte_modulus_le((w - i) as nat, 8);
            assert(buf@.subrange(off + i, off + w).drop_first() =~= buf@.subrange(
                off + i + 1,
                off + w,
            ));
        }
        u = u * 256 + buf[off + i] as u64;
        proof {
            let s = buf@.subrange(off + i, off + w);
            assert(s[0] == buf@[off + i]);
            assert(le_val(s) == s[0] + 256 * uo);
        }
    }
    let r = signed_from_repr(u, bits);
    proof {
        assert(buf@.subrange(off as int, off + w) == buf@.subrange(off + 0, off + w));
    }
    r
}

pub proof fn lemma_byte_modulus_le(a: nat, b: nat)
    requires
        a <= b,
    ensures
        byte_modulus(a) <= byte_modulus(b),
    decreases b,
{
    if a < b {
        lemma_byte_modulus_le(a, (b - 1) as nat);
        lemma_byte_modulus_step((b - 1) as nat);
        lemma_byte_modulus_positive((b - 1) as nat);
    }
}

/// Reinterpret an unsigned bit pattern as the signed word of `bits`' width.
fn signed_from_repr(u: u64, bits: &Data) -> (r: Data)
    requires
        u < byte_modulus(bits.width()),
    ensures
        r.width() == bits.width(),
        r.value() == wrap_val(bits.width(), u as int),
{
    proof {
        lemma_byte_modulus();
        lemma_small_mod(u as nat, byte_modulus(bits.width()) as nat);
    }
    match bits {
        Data::B16(_) => {
            if u >= 0x8000 {
                Data::B16((u as i64 - 0x10000) as i16)
            } else {
                Data::B16(u as i16)
            }
        },
        Data::B32(_) => {
            if u >= 0x8000_0000 {
                Data::B32((u as i64 - 0x1_0000_0000) as i32)
            } else {
                Data::B32(u as i32)
            }
        },
        Data::B64(_) => {
            if u >= 0x8000_0000_0000_0000 {
                Data::B64(-((u64::MAX - u) as i64) - 1)
            } else {
                Data::B64(u as i64)
            }
        },
    }
}

} // verus!
