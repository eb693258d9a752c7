//! Bit-field extraction, insertion, and range-fit checks on 64-bit carrier
//! words. Widths lie in `[0, 64]` and field offsets are measured from the
//! least-significant bit. A value that does not fit its field is reported as
//! a packing failure (`None`) rather than silently truncated.

use vstd::prelude::*;
use vstd::arithmetic::power2::pow2;
use vstd::arithmetic::power2::lemma_pow2_adds;
use vstd::arithmetic::power2::lemma_pow2_strictly_increases;
use vstd::arithmetic::power2::lemma2_to64;
use vstd::arithmetic::power2::lemma2_to64_rest;
use vstd::bits::lemma_u64_shl_is_mul;
use vstd::bits::lemma_u64_pow2_no_overflow;

verus! {

/// Bit `i` of `w` (for `i < 64`).
pub open spec fn nth_bit(w: u64, i: u64) -> bool {
    (w >> i) & 1 == 1
}

/// The mask whose `width` low bits are set (all 64 of them for `width >= 64`).
pub open spec fn low_mask(width: u64) -> u64 {
    if width >= 64 {
        0xffff_ffff_ffff_ffffu64
    } else {
        ((1u64 << width) - 1) as u64
    }
}

/// The `width`-bit field of `word` starting at bit `lsb`, zero-extended.
pub open spec fn field_of(word: u64, width: u64, lsb: u64) -> u64 {
    (word >> lsb) & low_mask(width)
}

/// `word` with the `width`-bit field at `lsb` replaced by `value` and all
/// other bits unchanged (meaningful when `value` fits in `width` bits).
pub open spec fn with_field(word: u64, width: u64, lsb: u64, value: u64) -> u64 {
    (word & !(low_mask(width) << lsb)) | (value << lsb)
}

/// The two's-complement reading of the `width`-bit value `u`.
pub open spec fn sign_extend(u: u64, width: u64) -> int {
    if width == 0 {
        0
    } else if (u as nat) < pow2((width - 1) as nat) {
        u as int
    } else {
        u - pow2(width as nat)
    }
}

/// The `width` low bits of the two's-complement representation of `value`.
pub open spec fn low_bits_of_signed(value: i64, width: u64) -> u64 {
    field_of(value as u64, width, 0)
}

/// `1u64 << k` is `pow2(k)` for shift amounts below the word size.
proof fn lemma_shl1_is_pow2(k: u64)
    requires
        k < 64,
    ensures
        (1u64 << k) as nat == pow2(k as nat),
{
    lemma_u64_pow2_no_overflow(k as nat);
    lemma_u64_shl_is_mul(1u64, k);
}

/// Every 64-bit value lies below `pow2(k)` once `k` reaches 64.
proof fn lemma_pow2_ge_64_covers(n: u64, k: u64)
    requires
        k >= 64,
    ensures
        (n as nat) < pow2(k as nat),
{
    lemma2_to64();
    lemma2_to64_rest();
    if k > 64 {
        lemma_pow2_strictly_increases(64, k as nat);
    }
}

fn shl(word: u64, bits: u64) -> (r: u64)
    requires
        bits <= 64,
    ensures
        r == (if bits == 64 { 0u64 } else { word << bits }),
{
    if bits == 64 {
        0
    } else {
        word << bits
    }
}

fn shr(word: u64, bits: u64) -> (r: u64)
    requires
        bits <= 64,
    ensures
        r == (if bits == 64 { 0u64 } else { word >> bits }),
{
    if bits == 64 {
        0
    } else {
        word >> bits
    }
}

/// True iff `n` is representable as an unsigned `width`-bit value,
/// that is iff `n < 2^width`.
pub fn fitsu(n: u64, width: u64) -> (b: bool)
    ensures
        b <==> (n as nat) < pow2(width as nat),
{
    if width >= 64 {
        proof {
            lemma_pow2_ge_64_covers(n, width);
        }
        true
    } else {
        let r = shr(n, width);
        proof {
            lemma_shl1_is_pow2(width);
            assert((n >> width) == 0 <==> n < (1u64 << width)) by (bit_vector)
                requires
                    width < 64,
            ;
        }
        r == 0
    }
}

/// True iff `n` is representable as a `width`-bit two's-complement value,
/// that is iff `-2^(width-1) <= n <= 2^(width-1) - 1` (for `width >= 1`).
pub fn fitss(n: i64, width: u64) -> (b: bool)
    ensures
        width == 0 ==> (b <==> n == 0),
        width >= 1 ==> (b <==> -(pow2((width - 1) as nat) as int) <= n
            < pow2((width - 1) as nat) as int),
{
    if width >= 64 {
        proof {
            lemma2_to64();
            lemma2_to64_rest();
            if width - 1 > 63 {
                lemma_pow2_strictly_increases(63, (width - 1) as nat);
            }
        }
        true
    } else if width == 0 {
        n == 0
    } else {
        let half = shl(1, width - 1);
        proof {
            lemma_shl1_is_pow2((width - 1) as u64);
            assert(1u64 << ((width - 1) as u64) <= 0x4000_0000_0000_0000u64) by (bit_vector)
                requires
                    1 <= width < 64,
            ;
        }
        let bound = half as i64;
        -bound <= n && n < bound
    }
}

/// Extract the `width`-bit field of `word` starting at bit `lsb`,
/// zero-extended to 64 bits. A width of 0 always yields 0.
#[verifier::rlimit(60)]
pub fn getu(word: u64, width: u64, lsb: u64) -> (r: u64)
    requires
        lsb + width <= 64,
    ensures
        r == field_of(word, width, lsb),
        (r as nat) < pow2(width as nat),
{
    let hi = lsb + width;
    let s1 = 64 - hi;
    let s2 = 64 - width;
    let a = shl(word, s1);
    let r = shr(a, s2);
    proof {
        assert(r == field_of(word, width, lsb) && r <= low_mask(width)) by (bit_vector)
            requires
                lsb + width <= 64,
                s1 == 64 - lsb - width,
                s2 == 64 - width,
                a == (if s1 == 64 { 0u64 } else { word << s1 }),
                r == (if s2 == 64 { 0u64 } else { a >> s2 }),
        ;
        if width < 64 {
            lemma_shl1_is_pow2(width);
            vstd::arithmetic::power2::lemma_pow2_pos(width as nat);
        } else {
            lemma_pow2_ge_64_covers(r, width);
        }
    }
    r
}

/// Extract the `width`-bit field of `word` starting at bit `lsb`,
/// read as a two's-complement (sign-extended) value.
pub fn gets(word: u64, width: u64, lsb: u64) -> (r: i64)
    requires
        lsb + width <= 64,
    ensures
        r == sign_extend(field_of(word, width, lsb), width),
{
    let u = getu(word, width, lsb);
    if width == 0 {
        0
    } else if width >= 64 {
        proof {
            lemma2_to64_rest();
        }
        if u < 0x8000_0000_0000_0000 {
            u as i64
        } else {
            -((0xffff_ffff_ffff_ffffu64 - u) as i64) - 1
        }
    } else {
        let half = shl(1, width - 1);
        let full = shl(1, width);
        proof {
            lemma_shl1_is_pow2((width - 1) as u64);
            lemma_shl1_is_pow2(width);
            lemma_pow2_adds((width - 1) as nat, 1);
            lemma2_to64();
        }
        if u < half {
            u as i64
        } else {
            -((full - u) as i64)
        }
    }
}

/// Return `word` with the `width`-bit field at `lsb` replaced by `value`,
/// leaving every bit outside `[lsb, lsb + width)` unchanged; `None` when
/// `value` does not fit unsigned in `width` bits (a packing failure).
pub fn newu(word: u64, width: u64, lsb: u64, value: u64) -> (r: Option<u64>)
    requires
        lsb + width <= 64,
    ensures
        r is Some <==> (value as nat) < pow2(width as nat),
        r is Some ==> r == Some(with_field(word, width, lsb, value)),
{
    if !fitsu(value, width) {
        return None;
    }
    let hi = lsb + width;
    let s = 64 - lsb;
    let t1 = shr(word, hi);
    let high = shl(t1, hi);
    let t2 = shl(word, s);
    let low = shr(t2, s);
    let shifted = shl(value, lsb);
    proof {
        assert((high | low | shifted) == with_field(word, width, lsb, value)) by (bit_vector)
            requires
                lsb + width <= 64,
                hi == lsb + width,
                s == 64 - lsb,
                t1 == (if hi == 64 { 0u64 } else { word >> hi }),
                high == (if hi == 64 { 0u64 } else { t1 << hi }),
                t2 == (if s == 64 { 0u64 } else { word << s }),
                low == (if s == 64 { 0u64 } else { t2 >> s }),
                shifted == (if lsb == 64 { 0u64 } else { value << lsb }),
        ;
    }
    Some(high | low | shifted)
}

/// Return `word` with the `width`-bit field at `lsb` replaced by the low
/// `width` bits of the two's-complement representation of `value`; `None`
/// when `value` does not fit signed in `width` bits (a packing failure).
pub fn news(word: u64, width: u64, lsb: u64, value: i64) -> (r: Option<u64>)
    requires
        lsb + width <= 64,
    ensures
        width == 0 ==> (r is Some <==> value == 0),
        width >= 1 ==> (r is Some <==> -(pow2((width - 1) as nat) as int) <= value
            < pow2((width - 1) as nat) as int),
        r is Some ==> r == Some(with_field(word, width, lsb, low_bits_of_signed(value, width))),
{
    if !fitss(value, width) {
        return None;
    }
    let bits = #[verifier::truncate] (value as u64);
    let low = getu(bits, width, 0);
    newu(word, width, lsb, low)
}

/// Round trip: writing a value that fits into a field and reading the same
/// field back returns that value, and every bit outside the field keeps its
/// value from the original word.
pub proof fn lemma_field_round_trip(w: u64, k: u64, o: u64, v: u64)
    requires
        o + k <= 64,
        (v as nat) < pow2(k as nat),
    ensures
        field_of(with_field(w, k, o, v), k, o) == v,
        with_field(w, k, o, v) & !(low_mask(k) << o) == w & !(low_mask(k) << o),
        forall|i: u64|
            i < 64 && !(o <= i < o + k) ==> nth_bit(with_field(w, k, o, v), i) == nth_bit(w, i),
{
    if k < 64 {
        lemma_shl1_is_pow2(k);
    }
    assert(field_of(with_field(w, k, o, v), k, o) == v) by (bit_vector)
        requires
            o + k <= 64,
            k < 64 ==> v < (1u64 << k),
    ;
    assert(with_field(w, k, o, v) & !(low_mask(k) << o) == w & !(low_mask(k) << o)) by (bit_vector)
        requires
            o + k <= 64,
            k < 64 ==> v < (1u64 << k),
    ;
    assert forall|i: u64|
        i < 64 && !(o <= i < o + k) implies nth_bit(with_field(w, k, o, v), i) == nth_bit(
        w,
        i,
    ) by {
        assert(nth_bit(with_field(w, k, o, v), i) == nth_bit(w, i)) by (bit_vector)
            requires
                o + k <= 64,
                i < 64,
                !(o <= i < o + k),
                k < 64 ==> v < (1u64 << k),
        ;
    }
}

} // verus!
