//! A verified UTF-8 decoder for the machine's string literals: the exact
//! byte-level acceptance rules (continuation bytes, shortest form, no
//! surrogates) and the decoded scalar values.

use vstd::prelude::*;

verus! {

/// Relies on char::from_u32: the scalar value with that code point, when
/// one exists (not a surrogate, at most 0x10FFFF), else nothing.
pub assume_specification [ char::from_u32 ](v: u32) -> (r: Option<char>)
    ensures
        ((0xD800 <= v < 0xE000) || v > 0x10FFFF) ==> r is None,
        !((0xD800 <= v < 0xE000) || v > 0x10FFFF) ==> r == Some(v as char),
;

/// A continuation byte: 0b10xxxxxx.
pub open spec fn utf8_cont(b: u8) -> bool {
    0x80 <= b < 0xC0
}

/// How many bytes the well-formed sequence starting with `b0` takes, and
/// whether the head byte can begin one at all.
pub open spec fn utf8_len(b0: u8) -> Option<int> {
    if b0 < 0x80 {
        Some(1int)
    } else if 0xC2 <= b0 <= 0xDF {
        Some(2int)
    } else if 0xE0 <= b0 <= 0xEF {
        Some(3int)
    } else if 0xF0 <= b0 <= 0xF4 {
        Some(4int)
    } else {
        None
    }
}

/// Whether the head of `s` is a well-formed sequence of `k` bytes: enough
/// continuation bytes, shortest form, and no surrogate code points.
pub open spec fn utf8_head_ok(s: Seq<u8>, k: int) -> bool {
    let b0 = s[0];
    &&& s.len() >= k
    &&& forall|i: int| 1 <= i < k ==> utf8_cont(#[trigger] s[i])
    &&& (k == 3 ==> (b0 != 0xE0 || s[1] >= 0xA0) && (b0 != 0xED || s[1] < 0xA0))
    &&& (k == 4 ==> (b0 != 0xF0 || s[1] >= 0x90) && (b0 != 0xF4 || s[1] < 0x90))
}

/// The code point of the well-formed sequence at the head of `s`.
pub open spec fn utf8_head_cp(s: Seq<u8>, k: int) -> int {
    let b0 = s[0];
    if k == 1 {
        b0 as int
    } else if k == 2 {
        (b0 - 0xC0) * 0x40 + (s[1] - 0x80)
    } else if k == 3 {
        (b0 - 0xE0) * 0x1000 + (s[1] - 0x80) * 0x40 + (s[2] - 0x80)
    } else {
        (b0 - 0xF0) * 0x40000 + (s[1] - 0x80) * 0x1000 + (s[2] - 0x80) * 0x40 + (s[3] - 0x80)
    }
}

/// The characters a UTF-8 byte run encodes, or nothing when it is not
/// well formed.
pub open spec fn utf8_decode(s: Seq<u8>) -> Option<Seq<char>>
    decreases s.len(),
{
    if s.len() == 0 {
        Some(Seq::empty())
    } else {
        match utf8_len(s[0]) {
            None => None,
            Some(k) => {
                if !utf8_head_ok(s, k) {
                    None
                } else {
                    match utf8_decode(s.skip(k)) {
                        None => None,
                        Some(rest) => Some(seq![(utf8_head_cp(s, k) as u32) as char] + rest),
                    }
                }
            },
        }
    }
}

/// A well-formed head encodes a Unicode scalar value: in range and not a
/// surrogate.
pub proof fn lemma_utf8_cp_valid(s: Seq<u8>, k: int)
    requires
        s.len() > 0,
        utf8_len(s[0]) == Some(k),
        utf8_head_ok(s, k),
    ensures
        0 <= utf8_head_cp(s, k) <= 0x10FFFF,
        !(0xD800 <= utf8_head_cp(s, k) < 0xE000),
{
}

/// Decode the byte run `buf[start..end]`; `None` when it is not valid
/// UTF-8.
pub fn utf8_string(buf: &Vec<u8>, start: usize, end: usize) -> (r: Option<String>)
    requires
        start <= end <= buf@.len(),
    ensures
        ({
            let sub = buf@.subrange(start as int, end as int);
            match r {
                Some(s) => utf8_decode(sub) == Some(s@),
                None => utf8_decode(sub) is None,
            }
        }),
{
    let ghost sub = buf@.subrange(start as int, end as int);
    let n = buf.len();
    let mut s = String::new();
    let mut i: usize = start;
    proof {
        assert(sub.skip(0) =~= sub);
        match utf8_decode(sub) {
            Some(rest) => {
                assert(s@ + rest =~= rest);
            },
            None => {},
        }
    }
    while i < end
        invariant
            start <= i <= end,
            end <= n,
            n == buf@.len(),
            sub == buf@.subrange(start as int, end as int),
            ({
                match utf8_decode(sub.skip(i - start)) {
                    Some(rest) => utf8_decode(sub) == Some(s@ + rest),
                    None => utf8_decode(sub) is None,
                }
            }),
        decreases end - i,
    {
        let ghost tail = sub.skip(i - start);
        proof {
            assert(tail[0] == buf@[i as int]);
        }
        let b0 = buf[i];
        let k: usize = if b0 < 0x80 {
            1
        } else if 0xC2 <= b0 && b0 <= 0xDF {
            2
        } else if 0xE0 <= b0 && b0 <= 0xEF {
            3
        } else if 0xF0 <= b0 && b0 <= 0xF4 {
            4
        } else {
            return None;
        };
        if end - i < k {
            return None;
        }
        proof {
            assert(forall|m: int| 0 <= m < k ==> tail[m] == buf@[i + m]);
        }
        let mut ok = true;
        let mut j: usize = 1;
        while j < k
            invariant
                1 <= j <= k,
                k <= 4,
                i + k <= end <= n,
                n == buf@.len(),
                ok == (forall|m: int| 1 <= m < j ==> utf8_cont(#[trigger] buf@[i + m])),
            decreases k - j,
        {
            let b = buf[i + j];
            if !(0x80 <= b && b < 0xC0) {
                ok = false;
            }
            j = j + 1;
        }
        if !ok {
            return None;
        }
        if k == 3 {
            let b1 = buf[i + 1];
            if (b0 == 0xE0 && b1 < 0xA0) || (b0 == 0xED && b1 >= 0xA0) {
                return None;
            }
        }
        if k == 4 {
            let b1 = buf[i + 1];
            if (b0 == 0xF0 && b1 < 0x90) || (b0 == 0xF4 && b1 >= 0x90) {
                return None;
            }
        }
        let cp: u32 = if k == 1 {
            b0 as u32
        } else if k == 2 {
            (b0 as u32 - 0xC0) * 0x40 + (buf[i + 1] as u32 - 0x80)
        } else if k == 3 {
            (b0 as u32 - 0xE0) * 0x1000 + (buf[i + 1] as u32 - 0x80) * 0x40 + (buf[i + 2] as u32
                - 0x80)
        } else {
            (b0 as u32 - 0xF0) * 0x40000 + (buf[i + 1] as u32 - 0x80) * 0x1000 + (buf[i + 2] as u32
                - 0x80) * 0x40 + (buf[i + 3] as u32 - 0x80)
        };
        proof {
            assert(utf8_head_ok(tail, k as int));
            assert(cp as int == utf8_head_cp(tail, k as int));
            lemma_utf8_cp_valid(tail, k as int);
        }
        let c = match char::from_u32(cp) {
            Some(c) => c,
            None => {
                proof {
                    assert(false);
                }
                return None;
            },
        };
        let ghost sprev = s@;
        s.push(c);
        i = i + k;
        proof {
            assert(sub.skip((i - k) as int - start).skip(k as int) =~= sub.skip(i - start));
            match utf8_decode(sub.skip(i - start)) {
                Some(rest) => {
                    assert(utf8_decode(tail) == Some(seq![c] + rest));
                    assert(sprev + (seq![c] + rest) =~= s@ + rest);
                },
                None => {},
            }
        }
    }
    proof {
        assert(sub.skip(end - start) =~= Seq::<u8>::empty());
        assert(s@ + Seq::<char>::empty() =~= s@);
    }
    Some(s)
}

} // verus!
