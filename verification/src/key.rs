//! The bit-key algebra.
//!
//! A key is a byte buffer read as a bit string whose length in bits is
//! carried separately by the caller.  Bit `i` is the `(i % 8)`-th most
//! significant bit of byte `i / 8`.  All operations are pure: the receiver
//! is never mutated.

use vstd::prelude::*;
use vstd::arithmetic::div_mod::lemma_fundamental_div_mod;
use vstd::arithmetic::div_mod::lemma_fundamental_div_mod_converse;

verus! {

/// A bit count; keys are at most `u16::MAX` bits long.
pub type Depth = u16;

/// A variable-length key buffer.
pub type Key = Vec<u8>;

/// Number of bytes needed to hold `n` bits.
pub open spec fn byte_len(n: int) -> int {
    (n + 7) / 8
}

/// Bit `p` of a byte, counting the most significant bit as bit 0.
/// For `p >= 8` the mask is zero and the result is `false`.
pub open spec fn u8_bit(x: u8, p: u8) -> bool {
    x & (0x80u8 >> p) != 0
}

/// Bit `i` of a byte string, counting the most significant bit of byte 0
/// as bit 0.
pub open spec fn bit_of(k: Seq<u8>, i: int) -> bool
    recommends
        0 <= i < 8 * k.len(),
{
    u8_bit(k[i / 8], (i % 8) as u8)
}

/// All bits of `k` from bit `n` up to the end of the buffer are zero.
pub open spec fn masked_from(k: Seq<u8>, n: int) -> bool {
    forall|j: int| n <= j < 8 * k.len() ==> !bit_of(k, j)
}

/// Byte count of the key: number of bytes needed for `n` bits.
pub trait DepthTrait {
    /// The bit count as a mathematical integer.
    spec fn depth_view(&self) -> int;

    /// Number of bytes needed to hold this many bits.
    fn to_bytes(&self) -> (r: usize)
        ensures
            r == byte_len(self.depth_view()),
    ;
}

impl DepthTrait for Depth {
    open spec fn depth_view(&self) -> int {
        *self as int
    }

    fn to_bytes(&self) -> (r: usize)
    {
        let size = *self / 8;
        let r: usize = if *self % 8 != 0 {
            (size + 1) as usize
        } else {
            size as usize
        };
        proof {
            lemma_fundamental_div_mod(*self as int, 8);
        }
        r
    }
}

/// A byte with bit `p` (most significant bit is bit 0) set to `v` and every
/// other bit as in `x`.
pub open spec fn u8_set_bit(x: u8, p: u8, v: bool) -> u8 {
    if v {
        x | (0x80u8 >> p)
    } else {
        x & !(0x80u8 >> p)
    }
}

/// Setting one bit of a byte changes that bit and no other.
pub proof fn lemma_u8_set_bit(x: u8, p: u8, q: u8, v: bool)
    requires
        p < 8,
        q < 8,
    ensures
        u8_bit(u8_set_bit(x, p, v), q) == if q == p {
            v
        } else {
            u8_bit(x, q)
        },
{
    assert((((x | (0x80u8 >> p)) & (0x80u8 >> q) != 0) == (if q == p {
        true
    } else {
        x & (0x80u8 >> q) != 0
    })) && (((x & !(0x80u8 >> p)) & (0x80u8 >> q) != 0) == (if q == p {
        false
    } else {
        x & (0x80u8 >> q) != 0
    }))) by (bit_vector)
        requires
            p < 8,
            q < 8,
    ;
}

/// The buffer length after setting bit `i` in a buffer of `len` bytes: the
/// buffer grows when the bit lies beyond it.
pub open spec fn grown_len(len: int, i: int) -> int {
    if i / 8 + 1 > len {
        i / 8 + 1
    } else {
        len
    }
}

/// The byte string that results from setting bit `i` to `v`, growing the
/// buffer (zero-filled) when the bit lies beyond its end.
pub open spec fn set_bit_of(k: Seq<u8>, i: int, v: bool) -> Seq<u8> {
    Seq::new(
        grown_len(k.len() as int, i) as nat,
        |j: int|
            {
                let base: u8 = if j < k.len() {
                    k[j]
                } else {
                    0u8
                };
                if j == i / 8 {
                    u8_set_bit(base, (i % 8) as u8, v)
                } else {
                    base
                }
            },
    )
}

/// A byte made of the low `8 - r` bits of `a` followed by the high `r`
/// bits of `b`; for `r == 0`, `a` itself.
pub open spec fn mix_byte(a: u8, b: u8, r: u8) -> u8 {
    if r == 0 {
        a
    } else {
        (a << r) | (b >> ((8 - r) as u8))
    }
}

/// Bit `p` of a mixed byte comes from `a` or from `b`, `r` bits along.
pub proof fn lemma_mix_byte_bit(a: u8, b: u8, r: u8, p: u8)
    requires
        r < 8,
        p < 8,
    ensures
        u8_bit(mix_byte(a, b, r), p) == if p + r < 8 {
            u8_bit(a, (p + r) as u8)
        } else {
            u8_bit(b, (p + r - 8) as u8)
        },
{
    if r != 0 {
        assert((((a << r) | (b >> ((8 - r) as u8))) & (0x80u8 >> p) != 0) == (if p + r < 8 {
            a & (0x80u8 >> ((p + r) as u8)) != 0
        } else {
            b & (0x80u8 >> ((p + r - 8) as u8)) != 0
        })) by (bit_vector)
            requires
                1 <= r < 8,
                p < 8,
        ;
    }
}

/// Masking a byte with `0xff << (8 - r)` keeps its first `r` bits and
/// clears the rest.
pub proof fn lemma_u8_mask_top(x: u8, r: u8, p: u8)
    requires
        1 <= r < 8,
        p < 8,
    ensures
        u8_bit(x & (0xffu8 << ((8 - r) as u8)), p) == (p < r && u8_bit(x, p)),
{
    assert(((x & (0xffu8 << ((8 - r) as u8))) & (0x80u8 >> p) != 0) == (p < r && x & (0x80u8
        >> p) != 0)) by (bit_vector)
        requires
            1 <= r < 8,
            p < 8,
    ;
}

/// The zero byte has no bits set.
pub proof fn lemma_u8_zero_bit(p: u8)
    ensures
        !u8_bit(0u8, p),
{
    assert(0u8 & (0x80u8 >> p) == 0) by (bit_vector);
}

/// `byte_len(n)` written with the remainder, and its bounds.
pub proof fn lemma_byte_len(n: int)
    requires
        n >= 0,
    ensures
        byte_len(n) == n / 8 + if n % 8 == 0 {
            0int
        } else {
            1int
        },
        n <= 8 * byte_len(n) < n + 8,
{
    lemma_fundamental_div_mod(n, 8);
    if n % 8 == 0 {
        lemma_fundamental_div_mod_converse(n + 7, 8, n / 8, 7);
    } else {
        lemma_fundamental_div_mod_converse(n + 7, 8, n / 8 + 1, n % 8 - 1);
    }
}

/// The suffix bytes of a split fit beside the prefix bytes.
pub proof fn lemma_byte_len_split(m: int, n: int)
    requires
        0 <= m <= n,
    ensures
        byte_len(n - m) + m / 8 <= byte_len(n),
{
    lemma_fundamental_div_mod(m, 8);
    vstd::arithmetic::div_mod::lemma_hoist_over_denominator(n - m + 7, m / 8, 8);
    vstd::arithmetic::div_mod::lemma_div_is_ordered(n - m % 8 + 7, n + 7, 8);
}

/// Byte `j` of the prefix of a split at bit `m`: the byte itself while it
/// lies wholly inside the prefix, the last byte masked.
pub open spec fn prefix_byte(k: Seq<u8>, m: int, j: int) -> u8
    recommends
        0 <= j < byte_len(m),
        byte_len(m) <= k.len(),
{
    if 8 * (j + 1) <= m {
        k[j]
    } else {
        k[j] & (0xffu8 << ((8 - m % 8) as u8))
    }
}

/// The prefix of a split at bit `m`: the first `m` bits, trailing sub-byte
/// bits masked to zero.
pub open spec fn split_prefix_of(k: Seq<u8>, m: int) -> Seq<u8> {
    Seq::new(byte_len(m) as nat, |j: int| prefix_byte(k, m, j))
}

/// Byte `j` of the suffix of a split at bit `m`: each source byte shifted
/// left by `m % 8`, the top of the following byte filling the rest.
pub open spec fn suffix_byte(k: Seq<u8>, m: int, j: int) -> u8
    recommends
        0 <= m,
        0 <= j,
        j + m / 8 < k.len(),
{
    let a = k[j + m / 8];
    let b: u8 = if j + m / 8 + 1 < k.len() {
        k[j + m / 8 + 1]
    } else {
        0u8
    };
    mix_byte(a, b, (m % 8) as u8)
}

/// The suffix of a split at bit `m` of a key `n` bits long: the bits from
/// `m` on, moved to the front.
pub open spec fn split_suffix_of(k: Seq<u8>, m: int, n: int) -> Seq<u8> {
    Seq::new(byte_len(n - m) as nat, |j: int| suffix_byte(k, m, j))
}

/// Bit `i` of the split prefix is bit `i` of the key while `i < m`, and
/// zero from `m` to the end of the prefix buffer.
pub proof fn lemma_split_prefix_bit(k: Seq<u8>, m: int, i: int)
    requires
        0 <= m,
        byte_len(m) <= k.len(),
        0 <= i < 8 * byte_len(m),
    ensures
        bit_of(split_prefix_of(k, m), i) == (i < m && bit_of(k, i)),
{
    let j = i / 8;
    let p = i % 8;
    lemma_fundamental_div_mod(i, 8);
    lemma_fundamental_div_mod(m, 8);
    lemma_byte_len(m);
    if 8 * (j + 1) <= m {
        assert(i < m);
    } else {
        assert(j == m / 8);
        assert(m % 8 != 0);
        lemma_u8_mask_top(k[j], (m % 8) as u8, p as u8);
        assert((p < m % 8) == (i < m));
    }
}

/// Bit `i` of the split suffix is bit `m + i` of the key, and zero where
/// `m + i` runs off the key buffer.
pub proof fn lemma_split_suffix_bit(k: Seq<u8>, m: int, n: int, i: int)
    requires
        0 <= m <= n,
        byte_len(n) <= k.len(),
        0 <= i < 8 * byte_len(n - m),
    ensures
        bit_of(split_suffix_of(k, m, n), i) == (m + i < 8 * k.len() && bit_of(k, m + i)),
{
    let j = i / 8;
    let p = i % 8;
    let m8 = m / 8;
    let r = m % 8;
    lemma_fundamental_div_mod(i, 8);
    lemma_fundamental_div_mod(m, 8);
    lemma_byte_len(n - m);
    lemma_byte_len(n);
    lemma_byte_len_split(m, n);
    assert(j + m8 < k.len());
    let a = k[j + m8];
    let b: u8 = if j + m8 + 1 < k.len() {
        k[j + m8 + 1]
    } else {
        0u8
    };
    lemma_mix_byte_bit(a, b, r as u8, p as u8);
    if p + r < 8 {
        lemma_fundamental_div_mod_converse(m + i, 8, m8 + j, r + p);
        assert(m + i < 8 * k.len());
    } else {
        lemma_fundamental_div_mod_converse(m + i, 8, m8 + j + 1, r + p - 8);
        if j + m8 + 1 < k.len() {
            assert(m + i < 8 * k.len());
        } else {
            lemma_u8_zero_bit((p + r - 8) as u8);
            assert(m + i >= 8 * k.len());
        }
    }
}

/// A bit of a byte OR-ed with the top of a right-shifted byte.
pub proof fn lemma_u8_or_shift_bit(x: u8, y: u8, r: u8, p: u8)
    requires
        1 <= r < 8,
        p < 8,
    ensures
        u8_bit(x | (y >> r), p) == (u8_bit(x, p) || (p >= r && u8_bit(y, (p - r) as u8))),
{
    assert(((x | (y >> r)) & (0x80u8 >> p) != 0) == ((x & (0x80u8 >> p) != 0) || (p >= r && (y
        & (0x80u8 >> ((p - r) as u8)) != 0)))) by (bit_vector)
        requires
            1 <= r < 8,
            p < 8,
    ;
}

/// Byte `j` of the merge of a key of `n1` bits with a second key placed
/// from bit `n1` on: the first key's bytes, then the second key's bytes
/// shifted across the byte boundary.
pub open spec fn merge_byte(k1: Seq<u8>, n1: int, k2: Seq<u8>, j: int) -> u8 {
    let len1 = k1.len() as int;
    let r = (n1 % 8) as u8;
    if j < len1 - 1 {
        k1[j]
    } else if j == len1 - 1 {
        if r != 0 && k2.len() > 0 {
            k1[j] | (k2[0] >> r)
        } else {
            k1[j]
        }
    } else {
        let t = j - len1;
        let a: u8 = if 0 <= t < k2.len() {
            k2[t]
        } else {
            0u8
        };
        let b: u8 = if 0 <= t + 1 < k2.len() {
            k2[t + 1]
        } else {
            0u8
        };
        if r == 0 {
            a
        } else {
            mix_byte(a, b, (8 - r) as u8)
        }
    }
}

/// The merge of a key of `n1` bits with a key of `n2` bits: `n1 + n2`
/// bits, the second key's bits from bit `n1` on.
pub open spec fn merge_of(k1: Seq<u8>, n1: int, k2: Seq<u8>, n2: int) -> Seq<u8> {
    Seq::new(byte_len(n1 + n2) as nat, |j: int| merge_byte(k1, n1, k2, j))
}

/// Bit `i` of a merge: below `n1` it is the first key's bit `i`; from `n1`
/// on it is the second key's bit `i - n1`.  The first key must be masked
/// beyond `n1`, else its trailing bits would bleed into the second key's.
pub proof fn lemma_merge_bit(k1: Seq<u8>, n1: int, k2: Seq<u8>, n2: int, i: int)
    requires
        0 <= n1,
        0 <= n2,
        k1.len() == byte_len(n1),
        k2.len() >= byte_len(n2),
        masked_from(k1, n1),
        0 <= i < n1 + n2,
    ensures
        i < n1 ==> bit_of(merge_of(k1, n1, k2, n2), i) == bit_of(k1, i),
        n1 <= i ==> bit_of(merge_of(k1, n1, k2, n2), i) == bit_of(k2, i - n1),
{
    let len1 = k1.len() as int;
    let r = n1 % 8;
    let j = i / 8;
    let p = i % 8;
    lemma_fundamental_div_mod(i, 8);
    lemma_fundamental_div_mod(n1, 8);
    lemma_byte_len(n1);
    lemma_byte_len(n2);
    lemma_byte_len(n1 + n2);
    assert(j < byte_len(n1 + n2));
    if j < len1 - 1 {
        assert(i < n1);
    } else if j == len1 - 1 {
        if r != 0 && k2.len() > 0 {
            lemma_u8_or_shift_bit(k1[j], k2[0], r as u8, p as u8);
            assert(n1 == 8 * (len1 - 1) + r);
            if p < r {
                assert(i < n1);
                assert(!(p >= r));
            } else {
                assert(i >= n1);
                assert(!bit_of(k1, i));
                lemma_fundamental_div_mod_converse(i - n1, 8, 0, p - r);
            }
        } else {
            if k2.len() == 0 {
                assert(n2 == 0);
                assert(i < n1);
            } else {
                assert(r == 0);
                assert(n1 == 8 * len1);
                assert(i < n1);
            }
        }
    } else {
        let t = j - len1;
        assert(t >= 0);
        let a: u8 = if 0 <= t < k2.len() {
            k2[t]
        } else {
            0u8
        };
        let b: u8 = if 0 <= t + 1 < k2.len() {
            k2[t + 1]
        } else {
            0u8
        };
        if r == 0 {
            assert(n1 == 8 * len1);
            assert(i - n1 == 8 * t + p);
            assert(i - n1 < n2);
            assert(t < k2.len()) by {
                if t >= k2.len() {
                    assert(8 * t >= 8 * k2.len() && 8 * k2.len() >= n2);
                }
            }
            lemma_fundamental_div_mod_converse(i - n1, 8, t, p);
        } else {
            assert(n1 == 8 * (len1 - 1) + r);
            assert(i - n1 == 8 * t + 8 + p - r);
            assert(i - n1 < n2);
            assert(t < k2.len()) by {
                if t >= k2.len() {
                    assert(8 * t >= 8 * k2.len() && 8 * k2.len() >= n2);
                }
            }
            lemma_mix_byte_bit(a, b, (8 - r) as u8, p as u8);
            if p < r {
                lemma_fundamental_div_mod_converse(i - n1, 8, t, 8 + p - r);
            } else {
                lemma_fundamental_div_mod_converse(i - n1, 8, t + 1, p - r);
                if t + 1 >= k2.len() {
                    lemma_u8_zero_bit((p - r) as u8);
                    assert(8 * (t + 1) >= 8 * k2.len() && 8 * k2.len() >= n2);
                    assert(false);
                }
            }
        }
    }
}

/// The byte string that results from appending bit `n` (set to `v`) to a
/// key of `n` bits: the buffer grows to hold `n + 1` bits.
pub open spec fn append_bit_of(k: Seq<u8>, n: int, v: bool) -> Seq<u8> {
    Seq::new(
        byte_len(n + 1) as nat,
        |j: int|
            {
                let base: u8 = if j < k.len() {
                    k[j]
                } else {
                    0u8
                };
                if j == n / 8 {
                    u8_set_bit(base, (n % 8) as u8, v)
                } else {
                    base
                }
            },
    )
}

/// The two keys agree on every bit below `l`.
pub open spec fn bits_agree_to(k1: Seq<u8>, k2: Seq<u8>, l: int) -> bool {
    forall|j: int| 0 <= j < l ==> bit_of(k1, j) == bit_of(k2, j)
}

/// The first position at or after `i` (and below `max`) where the two
/// keys' bits differ; `max` when they agree throughout.
pub open spec fn agree_len(k1: Seq<u8>, k2: Seq<u8>, i: int, max: int) -> int
    decreases max - i,
{
    if i >= max {
        max
    } else if bit_of(k1, i) != bit_of(k2, i) {
        i
    } else {
        agree_len(k1, k2, i + 1, max)
    }
}

/// Where `agree_len` lands: at or after `i`, at most `max`, with agreement
/// below it and (unless it hit `max`) a difference at it.
pub proof fn lemma_agree_len_props(k1: Seq<u8>, k2: Seq<u8>, i: int, max: int)
    requires
        0 <= i <= max,
    ensures
        i <= agree_len(k1, k2, i, max) <= max,
        forall|j: int|
            i <= j < agree_len(k1, k2, i, max) ==> bit_of(k1, j) == bit_of(k2, j),
        agree_len(k1, k2, i, max) < max ==> bit_of(k1, agree_len(k1, k2, i, max)) != bit_of(
            k2,
            agree_len(k1, k2, i, max),
        ),
    decreases max - i,
{
    if i >= max {
    } else if bit_of(k1, i) != bit_of(k2, i) {
    } else {
        lemma_agree_len_props(k1, k2, i + 1, max);
    }
}

/// `agree_len` is the unique bound with those properties.
pub proof fn lemma_agree_len_exact(k1: Seq<u8>, k2: Seq<u8>, i: int, max: int, l: int)
    requires
        0 <= i <= l <= max,
        forall|j: int| i <= j < l ==> bit_of(k1, j) == bit_of(k2, j),
        l < max ==> bit_of(k1, l) != bit_of(k2, l),
    ensures
        agree_len(k1, k2, i, max) == l,
    decreases max - i,
{
    if i == l {
    } else {
        lemma_agree_len_exact(k1, k2, i + 1, max, l);
    }
}

/// The smaller of two integers.
pub open spec fn min_int(a: int, b: int) -> int {
    if a < b {
        a
    } else {
        b
    }
}

/// The number of leading bits the two keys share, capped at both bit
/// lengths: the common-prefix length of the bit strings.
pub open spec fn common_prefix_of(k1: Seq<u8>, n1: int, k2: Seq<u8>, n2: int) -> int {
    let maxb = 8 * min_int(k1.len() as int, k2.len() as int);
    min_int(n1, min_int(n2, agree_len(k1, k2, 0, maxb)))
}

/// Bit `q` of a key after appending bit `n`: the appended value at `n`,
/// the old bit elsewhere, zero in any grown bytes.
pub proof fn lemma_append_bit_bit(k: Seq<u8>, n: int, v: bool, q: int)
    requires
        0 <= n,
        0 <= q < 8 * byte_len(n + 1),
    ensures
        bit_of(append_bit_of(k, n, v), q) == if q == n {
            v
        } else {
            q / 8 < k.len() && bit_of(k, q)
        },
{
    lemma_fundamental_div_mod(q, 8);
    lemma_fundamental_div_mod(n, 8);
    let j = q / 8;
    let p = (q % 8) as u8;
    let base: u8 = if j < k.len() {
        k[j]
    } else {
        0u8
    };
    if j == n / 8 {
        lemma_u8_set_bit(base, (n % 8) as u8, p, v);
    }
    if !(j < k.len()) {
        lemma_u8_zero_bit(p);
    }
}

/// Merging two masked keys gives a masked key: every bit from `n1 + n2`
/// to the end of the merged buffer is zero.
pub proof fn lemma_merge_masked(k1: Seq<u8>, n1: int, k2: Seq<u8>, n2: int)
    requires
        0 <= n1,
        0 <= n2,
        k1.len() == byte_len(n1),
        k2.len() == byte_len(n2),
        masked_from(k1, n1),
        masked_from(k2, n2),
    ensures
        masked_from(merge_of(k1, n1, k2, n2), n1 + n2),
{
    let len1 = k1.len() as int;
    let r = n1 % 8;
    let m = merge_of(k1, n1, k2, n2);
    lemma_byte_len(n1);
    lemma_byte_len(n2);
    lemma_byte_len(n1 + n2);
    assert forall|i: int| n1 + n2 <= i < 8 * m.len() implies !bit_of(m, i) by {
        let j = i / 8;
        let p = i % 8;
        lemma_fundamental_div_mod(i, 8);
        lemma_fundamental_div_mod(n1, 8);
        assert(j < byte_len(n1 + n2));
        if j < len1 - 1 {
            assert(false);
        } else if j == len1 - 1 {
            if r != 0 && k2.len() > 0 {
                lemma_u8_or_shift_bit(k1[j], k2[0], r as u8, p as u8);
                assert(!bit_of(k1, i));
                if p >= r {
                    lemma_fundamental_div_mod_converse(i - n1, 8, 0, p - r);
                    assert(i - n1 >= n2);
                    assert(!bit_of(k2, i - n1));
                }
            } else if k2.len() == 0 {
                assert(n2 == 0);
                assert(!bit_of(k1, i));
            } else {
                assert(false);
            }
        } else {
            let t = j - len1;
            let a: u8 = if 0 <= t < k2.len() {
                k2[t]
            } else {
                0u8
            };
            let b: u8 = if 0 <= t + 1 < k2.len() {
                k2[t + 1]
            } else {
                0u8
            };
            if r == 0 {
                lemma_fundamental_div_mod_converse(i - n1, 8, t, p);
                if t < k2.len() {
                    assert(i - n1 >= n2);
                    assert(!bit_of(k2, i - n1));
                } else {
                    lemma_u8_zero_bit(p as u8);
                }
            } else {
                lemma_mix_byte_bit(a, b, (8 - r) as u8, p as u8);
                if p < r {
                    lemma_fundamental_div_mod_converse(i - n1, 8, t, 8 + p - r);
                    if t < k2.len() {
                        assert(i - n1 >= n2);
                        assert(!bit_of(k2, i - n1));
                    } else {
                        lemma_u8_zero_bit(((p + 8 - r)) as u8);
                    }
                } else {
                    lemma_fundamental_div_mod_converse(i - n1, 8, t + 1, p - r);
                    if t + 1 < k2.len() {
                        assert(i - n1 >= n2);
                        assert(!bit_of(k2, i - n1));
                    } else {
                        lemma_u8_zero_bit((p - r) as u8);
                    }
                }
            }
        }
    }
}

/// Splitting a masked key gives masked parts: the prefix is masked by
/// construction, and the suffix inherits the key's own masking.
pub proof fn lemma_split_masked(k: Seq<u8>, m: int, n: int)
    requires
        0 <= m <= n,
        byte_len(n) <= k.len(),
        masked_from(k, n),
    ensures
        masked_from(split_prefix_of(k, m), m),
        masked_from(split_suffix_of(k, m, n), n - m),
{
    vstd::arithmetic::div_mod::lemma_div_is_ordered(m + 7, n + 7, 8);
    let pre = split_prefix_of(k, m);
    let suf = split_suffix_of(k, m, n);
    assert forall|j: int| m <= j < 8 * pre.len() implies !bit_of(pre, j) by {
        lemma_split_prefix_bit(k, m, j);
    }
    assert forall|j: int| n - m <= j < 8 * suf.len() implies !bit_of(suf, j) by {
        lemma_split_suffix_bit(k, m, n, j);
    }
}

/// Two bytes with equal bits are equal.
pub proof fn lemma_u8_bit_ext(x: u8, y: u8)
    requires
        forall|q: u8| q < 8 ==> u8_bit(x, q) == u8_bit(y, q),
    ensures
        x == y,
{
    assert(u8_bit(x, 0) == u8_bit(y, 0));
    assert(u8_bit(x, 1) == u8_bit(y, 1));
    assert(u8_bit(x, 2) == u8_bit(y, 2));
    assert(u8_bit(x, 3) == u8_bit(y, 3));
    assert(u8_bit(x, 4) == u8_bit(y, 4));
    assert(u8_bit(x, 5) == u8_bit(y, 5));
    assert(u8_bit(x, 6) == u8_bit(y, 6));
    assert(u8_bit(x, 7) == u8_bit(y, 7));
    assert(x == y) by (bit_vector)
        requires
            (x & (0x80u8 >> 0u8) != 0) == (y & (0x80u8 >> 0u8) != 0),
            (x & (0x80u8 >> 1u8) != 0) == (y & (0x80u8 >> 1u8) != 0),
            (x & (0x80u8 >> 2u8) != 0) == (y & (0x80u8 >> 2u8) != 0),
            (x & (0x80u8 >> 3u8) != 0) == (y & (0x80u8 >> 3u8) != 0),
            (x & (0x80u8 >> 4u8) != 0) == (y & (0x80u8 >> 4u8) != 0),
            (x & (0x80u8 >> 5u8) != 0) == (y & (0x80u8 >> 5u8) != 0),
            (x & (0x80u8 >> 6u8) != 0) == (y & (0x80u8 >> 6u8) != 0),
            (x & (0x80u8 >> 7u8) != 0) == (y & (0x80u8 >> 7u8) != 0),
    ;
}

/// A difference under a single-bit mask is a difference of that bit.
pub proof fn lemma_u8_mask_neq(x: u8, y: u8, p: u8)
    requires
        p < 8,
        (x & (0x80u8 >> p)) != (y & (0x80u8 >> p)),
    ensures
        u8_bit(x, p) != u8_bit(y, p),
{
    assert((x & (0x80u8 >> p)) != (y & (0x80u8 >> p)) ==> ((x & (0x80u8 >> p) != 0) != (y & (
    0x80u8 >> p) != 0))) by (bit_vector)
        requires
            p < 8,
    ;
}

/// Bit `q` of a key after setting bit `i`: `v` at `i`, the old bit
/// elsewhere, zero in any grown bytes.
pub proof fn lemma_set_bit_of_bit(k: Seq<u8>, i: int, v: bool, q: int)
    requires
        0 <= i,
        0 <= q < 8 * grown_len(k.len() as int, i),
    ensures
        bit_of(set_bit_of(k, i, v), q) == if q == i {
            v
        } else {
            q / 8 < k.len() && bit_of(k, q)
        },
{
    lemma_fundamental_div_mod(q, 8);
    lemma_fundamental_div_mod(i, 8);
    let j = q / 8;
    let p = (q % 8) as u8;
    let base: u8 = if j < k.len() {
        k[j]
    } else {
        0u8
    };
    if j == i / 8 {
        lemma_u8_set_bit(base, (i % 8) as u8, p, v);
    }
    if !(j < k.len()) {
        lemma_u8_zero_bit(p);
    }
}

/// Bit round-trip: after setting bit `i`, reading bit `i` gives the value
/// written, and every other bit of the buffer is unchanged.
pub proof fn lemma_bit_round_trip(k: Seq<u8>, i: int, v: bool)
    requires
        0 <= i,
    ensures
        bit_of(set_bit_of(k, i, v), i) == v,
        forall|q: int|
            0 <= q < 8 * grown_len(k.len() as int, i) && q != i ==> #[trigger] bit_of(
                set_bit_of(k, i, v),
                q,
            ) == (q / 8 < k.len() && bit_of(k, q)),
{
    lemma_set_bit_of_bit(k, i, v, i);
    assert forall|q: int|
        0 <= q < 8 * grown_len(k.len() as int, i) && q != i implies #[trigger] bit_of(
        set_bit_of(k, i, v),
        q,
    ) == (q / 8 < k.len() && bit_of(k, q)) by {
        lemma_set_bit_of_bit(k, i, v, q);
    }
}

/// Split/merge inverse: splitting a key of `n` bits at bit `m` and merging
/// the two parts back gives the original key on every bit below `n`.
pub proof fn lemma_split_merge_inverse(k: Seq<u8>, m: int, n: int)
    requires
        0 <= m <= n,
        byte_len(n) <= k.len(),
    ensures
        forall|i: int|
            0 <= i < n ==> bit_of(
                merge_of(split_prefix_of(k, m), m, split_suffix_of(k, m, n), n - m),
                i,
            ) == bit_of(k, i),
{
    let pre = split_prefix_of(k, m);
    let suf = split_suffix_of(k, m, n);
    lemma_byte_len(m);
    lemma_byte_len(n);
    lemma_byte_len(n - m);
    vstd::arithmetic::div_mod::lemma_div_is_ordered(m + 7, n + 7, 8);
    assert(masked_from(pre, m)) by {
        assert forall|j: int| m <= j < 8 * pre.len() implies !bit_of(pre, j) by {
            lemma_split_prefix_bit(k, m, j);
        }
    }
    assert forall|i: int|
        0 <= i < n implies bit_of(merge_of(pre, m, suf, n - m), i) == bit_of(k, i) by {
        lemma_merge_bit(pre, m, suf, n - m, i);
        if i < m {
            lemma_split_prefix_bit(k, m, i);
        } else {
            lemma_split_suffix_bit(k, m, n, i - m);
        }
    }
}

/// Common-prefix monotonicity: the common-prefix length never exceeds
/// either bit length, and the two keys agree on every bit below it.
pub proof fn lemma_common_prefix_monotone(k1: Seq<u8>, n1: int, k2: Seq<u8>, n2: int)
    requires
        0 <= n1,
        0 <= n2,
    ensures
        common_prefix_of(k1, n1, k2, n2) <= min_int(n1, n2),
        bits_agree_to(k1, k2, common_prefix_of(k1, n1, k2, n2)),
{
    let maxb = 8 * min_int(k1.len() as int, k2.len() as int);
    lemma_agree_len_props(k1, k2, 0, maxb);
}

/// When the second key starts with the whole first key, the common-prefix
/// length is exactly the first key's bit length.
pub proof fn lemma_common_prefix_full(k1: Seq<u8>, n1: int, k2: Seq<u8>, n2: int)
    requires
        0 <= n1 <= n2,
        n1 <= 8 * k1.len(),
        n2 <= 8 * k2.len(),
        bits_agree_to(k1, k2, n1),
    ensures
        common_prefix_of(k1, n1, k2, n2) == n1,
{
    let maxb = 8 * min_int(k1.len() as int, k2.len() as int);
    lemma_agree_len_props(k1, k2, 0, maxb);
    let d = agree_len(k1, k2, 0, maxb);
    assert(n1 <= maxb);
    if d < n1 {
        assert(bit_of(k1, d) == bit_of(k2, d));
        assert(false);
    }
}

/// Bit-string operations on a key buffer.  The bit length is always the
/// caller's, carried as an explicit argument; the buffer only stores bits.
pub trait KeyTrait {
    /// The bytes of the key.
    spec fn key_view(&self) -> Seq<u8>;

    /// Get a single bit of the key.
    fn get_bit(&self, bit: Depth) -> (r: bool)
        requires
            (bit as int) / 8 < self.key_view().len(),
        ensures
            r == bit_of(self.key_view(), bit as int),
    ;

    /// Return a copy of the key with bit `bit` set to `val`; the copy is
    /// grown (zero-filled) when the bit lies beyond the buffer.
    fn set_bit(&self, bit: Depth, val: bool) -> (r: Key)
        ensures
            r@ == set_bit_of(self.key_view(), bit as int, val),
    ;

    /// The number of bits the buffer can hold.
    fn bit_length(&self) -> (r: Depth)
        requires
            self.key_view().len() <= 8191,
        ensures
            r == 8 * self.key_view().len(),
    ;

    /// Split the key at bit `split_point` into a prefix of that many bits
    /// (trailing sub-byte bits masked to zero) and the suffix holding the
    /// remaining `key_len - split_point` bits.
    fn split(&self, split_point: Depth, key_len: Depth) -> (r: (Key, Key))
        requires
            split_point <= key_len,
            self.key_view().len() >= byte_len(key_len as int),
        ensures
            r.0@ == split_prefix_of(self.key_view(), split_point as int),
            r.1@ == split_suffix_of(self.key_view(), split_point as int, key_len as int),
    ;

    /// Merge this key of `key_len` bits with a second key of `k2_len`
    /// bits, placing the second key's bits from bit `key_len` on.
    fn merge(&self, key_len: Depth, k2: &Key, k2_len: Depth) -> (r: Key)
        requires
            key_len as int + k2_len as int <= Depth::MAX as int,
            self.key_view().len() == byte_len(key_len as int),
            k2@.len() == byte_len(k2_len as int),
        ensures
            r@ == merge_of(self.key_view(), key_len as int, k2@, k2_len as int),
    ;

    /// Append one bit to a key of `key_len` bits, growing the buffer to
    /// hold `key_len + 1` bits.
    fn append_bit(&self, key_len: Depth, val: bool) -> (r: Key)
        requires
            key_len < Depth::MAX,
            self.key_view().len() <= byte_len(key_len as int + 1),
        ensures
            r@ == append_bit_of(self.key_view(), key_len as int, val),
    ;

    /// The number of leading bits this key of `key_bit_len` bits shares
    /// with a second key of `k2_bit_len` bits.
    fn common_prefix_len(&self, key_bit_len: Depth, k2: &Key, k2_bit_len: Depth) -> (r: Depth)
        requires
            key_bit_len as int <= 8 * self.key_view().len(),
            k2_bit_len as int <= 8 * k2@.len(),
            self.key_view().len() <= 8191,
            k2@.len() <= 8191,
        ensures
            r as int == common_prefix_of(
                self.key_view(),
                key_bit_len as int,
                k2@,
                k2_bit_len as int,
            ),
    ;
}

impl KeyTrait for Key {
    open spec fn key_view(&self) -> Seq<u8> {
        self@
    }

    fn get_bit(&self, bit: Depth) -> (r: bool)
    {
        let p: u8 = (bit % 8) as u8;
        (self[(bit / 8) as usize] & (0x80u8 >> p)) != 0
    }

    fn set_bit(&self, bit: Depth, val: bool) -> (r: Key)
    {
        let idx: usize = (bit / 8) as usize;
        let n: usize = if idx + 1 > self.len() {
            idx + 1
        } else {
            self.len()
        };
        let p: u8 = (bit % 8) as u8;
        let mask: u8 = 0x80u8 >> p;
        let mut r: Key = Vec::new();
        let mut j: usize = 0;
        while j < n
            invariant
                j <= n,
                idx == (bit as int) / 8,
                p == (bit as int) % 8,
                mask == 0x80u8 >> p,
                n == grown_len(self@.len() as int, bit as int),
                r@.len() == j,
                forall|t: int|
                    0 <= t < j ==> r@[t] == set_bit_of(self@, bit as int, val)[t],
            decreases n - j,
        {
            let base: u8 = if j < self.len() {
                self[j]
            } else {
                0u8
            };
            let b: u8 = if j == idx {
                if val {
                    base | mask
                } else {
                    base & !mask
                }
            } else {
                base
            };
            r.push(b);
            j += 1;
        }
        proof {
            assert(r@ =~= set_bit_of(self@, bit as int, val));
        }
        r
    }

    fn bit_length(&self) -> (r: Depth)
    {
        (self.len() * 8) as Depth
    }

    fn split(&self, split_point: Depth, key_len: Depth) -> (r: (Key, Key))
    {
        let m = split_point;
        let r8: u8 = (m % 8) as u8;
        let m8: usize = (m / 8) as usize;
        let plen: usize = m.to_bytes();
        let slen: usize = (key_len - m).to_bytes();
        proof {
            lemma_fundamental_div_mod(m as int, 8);
            lemma_byte_len(m as int);
            lemma_byte_len(key_len as int);
            lemma_byte_len(key_len - m);
            lemma_byte_len_split(m as int, key_len as int);
        }
        let mut prefix: Key = Vec::new();
        let mut j: usize = 0;
        while j < plen
            invariant
                j <= plen,
                m <= key_len,
                self@.len() >= byte_len(key_len as int),
                r8 == (m as int) % 8,
                plen == byte_len(m as int),
                plen <= self@.len(),
                prefix@.len() == j,
                forall|t: int|
                    0 <= t < j ==> prefix@[t] == prefix_byte(self@, m as int, t),
            decreases plen - j,
        {
            let b: u8 = if (j + 1) * 8 <= m as usize {
                self[j]
            } else {
                proof {
                    lemma_fundamental_div_mod(m as int, 8);
                    lemma_byte_len(m as int);
                    assert(r8 != 0);
                }
                self[j] & (0xffu8 << (8 - r8))
            };
            prefix.push(b);
            j += 1;
        }
        proof {
            assert(prefix@ =~= split_prefix_of(self@, m as int));
        }
        let mut suffix: Key = Vec::new();
        let mut i: usize = 0;
        while i < slen
            invariant
                i <= slen,
                m <= key_len,
                self@.len() >= byte_len(key_len as int),
                r8 == (m as int) % 8,
                m8 == (m as int) / 8,
                slen == byte_len(key_len - m),
                slen + m8 <= self@.len(),
                suffix@.len() == i,
                forall|t: int|
                    0 <= t < i ==> suffix@[t] == suffix_byte(self@, m as int, t),
            decreases slen - i,
        {
            let a: u8 = self[i + m8];
            let v: u8 = if r8 == 0 {
                a
            } else if i + m8 + 1 < self.len() {
                (a << r8) | (self[i + m8 + 1] >> (8 - r8))
            } else {
                proof {
                    assert((a << r8) | (0u8 >> ((8 - r8) as u8)) == (a << r8)) by (bit_vector);
                }
                a << r8
            };
            suffix.push(v);
            i += 1;
        }
        proof {
            assert(suffix@ =~= split_suffix_of(self@, m as int, key_len as int));
        }
        (prefix, suffix)
    }

    fn merge(&self, key_len: Depth, k2: &Key, k2_len: Depth) -> (r: Key)
    {
        let len1: usize = self.len();
        let r8: u8 = (key_len % 8) as u8;
        let total: Depth = key_len + k2_len;
        let rlen: usize = total.to_bytes();
        proof {
            lemma_fundamental_div_mod(key_len as int, 8);
        }
        let mut out: Key = Vec::new();
        let mut j: usize = 0;
        while j < rlen
            invariant
                j <= rlen,
                len1 == self@.len(),
                r8 == (key_len as int) % 8,
                rlen == byte_len(key_len as int + k2_len as int),
                self@.len() == byte_len(key_len as int),
                k2@.len() == byte_len(k2_len as int),
                out@.len() == j,
                forall|t: int|
                    0 <= t < j ==> out@[t] == merge_byte(self@, key_len as int, k2@, t),
            decreases rlen - j,
        {
            let v: u8 = if j + 1 < len1 {
                self[j]
            } else if j + 1 == len1 {
                if r8 != 0 && k2.len() > 0 {
                    self[j] | (k2[0] >> r8)
                } else {
                    self[j]
                }
            } else {
                let t: usize = j - len1;
                let a: u8 = if t < k2.len() {
                    k2[t]
                } else {
                    0u8
                };
                let b: u8 = if t + 1 < k2.len() {
                    k2[t + 1]
                } else {
                    0u8
                };
                if r8 == 0 {
                    a
                } else {
                    (a << (8 - r8)) | (b >> r8)
                }
            };
            out.push(v);
            j += 1;
        }
        proof {
            assert(out@ =~= merge_of(self@, key_len as int, k2@, k2_len as int));
        }
        out
    }

    fn append_bit(&self, key_len: Depth, val: bool) -> (r: Key)
    {
        let idx: usize = (key_len / 8) as usize;
        let p: u8 = (key_len % 8) as u8;
        let mask: u8 = 0x80u8 >> p;
        let total: Depth = key_len + 1;
        let rlen: usize = total.to_bytes();
        proof {
            lemma_byte_len(key_len as int + 1);
            lemma_fundamental_div_mod(key_len as int, 8);
        }
        let mut out: Key = Vec::new();
        let mut j: usize = 0;
        while j < rlen
            invariant
                j <= rlen,
                idx == (key_len as int) / 8,
                p == (key_len as int) % 8,
                mask == 0x80u8 >> p,
                rlen == byte_len(key_len as int + 1),
                self@.len() <= rlen,
                out@.len() == j,
                forall|t: int|
                    0 <= t < j ==> out@[t] == append_bit_of(self@, key_len as int, val)[t],
            decreases rlen - j,
        {
            let base: u8 = if j < self.len() {
                self[j]
            } else {
                0u8
            };
            let b: u8 = if j == idx {
                if val {
                    base | mask
                } else {
                    base & !mask
                }
            } else {
                base
            };
            out.push(b);
            j += 1;
        }
        proof {
            assert(out@ =~= append_bit_of(self@, key_len as int, val));
        }
        out
    }

    fn common_prefix_len(&self, key_bit_len: Depth, k2: &Key, k2_bit_len: Depth) -> (r: Depth)
    {
        let min_len: usize = if k2.len() < self.len() {
            k2.len()
        } else {
            self.len()
        };
        let ghost maxb: int = 8 * min_int(self@.len() as int, k2@.len() as int);
        let mut i: usize = 0;
        while i < min_len && self[i] == k2[i]
            invariant
                i <= min_len,
                min_len == min_int(self@.len() as int, k2@.len() as int),
                forall|t: int| 0 <= t < i ==> self@[t] == k2@[t],
            decreases min_len - i,
        {
            i += 1;
        }
        proof {
            assert forall|j: int| 0 <= j < 8 * i implies bit_of(self@, j) == bit_of(
                k2@,
                j,
            ) by {
                lemma_fundamental_div_mod(j, 8);
                assert(j / 8 < i) by {
                    if j / 8 >= i {
                        assert(8 * (j / 8) >= 8 * i);
                    }
                }
            }
        }
        let mut bitpos: usize = i * 8;
        if i < min_len {
            let x: u8 = self[i];
            let y: u8 = k2[i];
            let mut p: u8 = 0;
            while p < 8 && (x & (0x80u8 >> p)) == (y & (0x80u8 >> p))
                invariant
                    p <= 8,
                    x == self@[i as int],
                    y == k2@[i as int],
                    forall|q: u8| q < p ==> u8_bit(x, q) == u8_bit(y, q),
                decreases 8 - p,
            {
                proof {
                    assert forall|q: u8| q < p + 1 implies u8_bit(x, q) == u8_bit(y, q) by {
                        if q == p {
                            assert((x & (0x80u8 >> p)) == (y & (0x80u8 >> p)));
                        }
                    }
                }
                p += 1;
            }
            if p == 8 {
                proof {
                    lemma_u8_bit_ext(x, y);
                    assert(false);
                }
            }
            proof {
                lemma_u8_mask_neq(x, y, p);
                let l: int = 8 * i + p;
                lemma_fundamental_div_mod_converse(l, 8, i as int, p as int);
                assert forall|j: int| 0 <= j < l implies bit_of(self@, j) == bit_of(
                    k2@,
                    j,
                ) by {
                    if j >= 8 * i {
                        lemma_fundamental_div_mod_converse(j, 8, i as int, j - 8 * i);
                    }
                }
                assert(l < maxb);
                lemma_agree_len_exact(self@, k2@, 0, maxb, l);
            }
            bitpos = i * 8 + p as usize;
        } else {
            proof {
                assert(8 * i == maxb);
                lemma_agree_len_exact(self@, k2@, 0, maxb, maxb);
            }
        }
        let mut bl: Depth = bitpos as Depth;
        if bl > key_bit_len {
            bl = key_bit_len;
        }
        if bl > k2_bit_len {
            bl = k2_bit_len;
        }
        bl
    }
}

} // verus!


