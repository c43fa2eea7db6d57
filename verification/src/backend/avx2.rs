//! The logic of the AVX2 backend on plain values.
//!
//! The mask operations work on the sign bits of a 256-bit mask register once
//! they have been gathered into a 32-bit word with a `movemask` instruction: one
//! bit per byte (`_mm256_movemask_epi8`), or one bit per lane for 32- and 64-bit
//! lanes (`_mm256_movemask_ps` / `_mm256_movemask_pd`). The lane algorithms are
//! those the backend runs where AVX2 has no single instruction: leading zeros by
//! halving, saturating arithmetic from wrapped results and sign bits, the order
//! of a two-vector saturating pack, and right shifts by counts past the width.
use vstd::arithmetic::div_mod::lemma_fundamental_div_mod_converse;
use vstd::arithmetic::power2::{lemma2_to64, lemma2_to64_rest, lemma_pow2_adds, lemma_pow2_pos, pow2};
use vstd::bits::{lemma_u64_low_bits_mask_is_mod, lemma_u64_shl_is_mul, lemma_u64_shr_is_div, low_bits_mask};
use vstd::prelude::*;
use vstd::std_specs::bits::{
    axiom_u32_leading_zeros, axiom_u32_trailing_zeros, u32_leading_zeros, u32_trailing_zeros,
    u64_leading_zeros,
};

use crate::backend::scalar::{shift_right_bits, shr_bits, sign_bit_set};
use crate::lane::{
    Lane, LaneBits, WideLane, clamp, count_ones_u64, count_set_bits, from_value, lane_is_set,
    lane_mask, lane_max, lane_min, lane_value, max_value, min_value, value_of,
};

verus! {

/// Number of true lanes. `movemask` has one bit per byte for 8- and 16-bit lanes
/// and one bit per lane for 32- and 64-bit lanes; a 16-bit lane sets two bits.
pub fn count_true<T: Lane>(movemask: u32) -> (r: usize)
    ensures
        T::width() == 16 ==> r == count_set_bits(movemask as u64, 64) / 2,
        T::width() != 16 ==> r == count_set_bits(movemask as u64, 64),
{
    proof {
        T::lemma_lane_shape();
    }
    let c = count_ones_u64(movemask as u64) as usize;
    if T::lane_bytes() == 2 {
        c / 2
    } else {
        c
    }
}

/// Whether every lane is true: every byte's sign bit is set.
pub fn all_true(byte_mask: u32) -> (r: bool)
    ensures
        r == (byte_mask == 0xffff_ffff),
{
    byte_mask == 0xffff_ffff
}

/// Whether every lane is false: no byte's sign bit is set.
pub fn all_false(byte_mask: u32) -> (r: bool)
    ensures
        r == (byte_mask == 0),
{
    byte_mask == 0
}

/// The first true lane: the lowest set byte bit, divided by the lane size.
pub fn find_first_true<T: Lane>(byte_mask: u32) -> (r: Option<usize>)
    ensures
        byte_mask == 0 ==> r is None,
        byte_mask != 0 ==> r == Some((u32_trailing_zeros(byte_mask) as nat / (T::width() / 8)) as usize),
        r matches Some(i) ==> forall|j: u32|
            j < i * (T::width() / 8) ==> (byte_mask >> j) & 1u32 == 0u32,
{
    proof {
        T::lemma_lane_shape();
    }
    if byte_mask == 0 {
        None
    } else {
        let tz = byte_mask.trailing_zeros();
        proof {
            axiom_u32_trailing_zeros(byte_mask);
        }
        let bytes = T::lane_bytes();
        let i = tz as usize / bytes;
        proof {
            assert(i * bytes <= tz) by (nonlinear_arith)
                requires
                    i == tz as usize / bytes,
                    bytes > 0,
            ;
        }
        Some(i)
    }
}

/// The last true lane: the highest set byte bit, divided by the lane size.
pub fn find_last_true<T: Lane>(byte_mask: u32) -> (r: Option<usize>)
    ensures
        byte_mask == 0 ==> r is None,
        byte_mask != 0 ==> r == Some(((31 - u32_leading_zeros(byte_mask)) as nat / (T::width() / 8)) as usize),
        r matches Some(i) ==> forall|j: u32|
            (i + 1) * (T::width() / 8) <= j < 32 ==> (byte_mask >> j) & 1u32 == 0u32,
{
    proof {
        T::lemma_lane_shape();
    }
    if byte_mask == 0 {
        None
    } else {
        let lz = byte_mask.leading_zeros();
        proof {
            axiom_u32_leading_zeros(byte_mask);
        }
        // Highest set bit position in the 32-bit mask
        let highest = 31 - lz as usize;
        // Convert byte index to lane index
        let bytes = T::lane_bytes();
        let i = highest / bytes;
        proof {
            assert(highest < (i + 1) * bytes) by (nonlinear_arith)
                requires
                    i == highest / bytes,
                    bytes > 0,
            ;
        }
        Some(i)
    }
}

/// Bit `2i + 1` of `x` moved to bit `i`, for `i < 16`.
pub open spec fn odd_bits_packed(x: u64) -> u64 {
    let x1 = (x >> 1u64) & 0x5555_5555;
    let x2 = (x1 | (x1 >> 1u64)) & 0x3333_3333;
    let x3 = (x2 | (x2 >> 2u64)) & 0x0F0F_0F0F;
    let x4 = (x3 | (x3 >> 4u64)) & 0x00FF_00FF;
    (x4 | (x4 >> 8u64)) & 0x0000_FFFF
}

proof fn lemma_odd_bits_packed(x: u64, i: u64) by (bit_vector)
    requires
        i < 16,
    ensures
        lane_is_set(odd_bits_packed(x), i) == lane_is_set(x, (2 * i + 1) as u64),
        odd_bits_packed(x) <= 0xffff,
{
}

/// One bit per lane, lane `i` in bit `i`. For 16-bit lanes the per-byte mask
/// holds each lane's bit twice; the upper copy of each is packed together.
pub fn bits_from_mask<T: Lane>(movemask: u32) -> (r: u64)
    ensures
        T::width() != 16 ==> r == movemask as u64,
        T::width() == 16 ==> r <= 0xffff && forall|i: u64|
            i < 16 ==> (lane_is_set(r, i) <==> lane_is_set(movemask as u64, (2 * i + 1) as u64)),
{
    proof {
        T::lemma_lane_shape();
    }
    if T::lane_bytes() == 2 {
        // Extract odd-position bits and pack.
        let byte_mask = movemask as u64;
        let x = (byte_mask >> 1) & 0x55555555;
        let x = (x | (x >> 1)) & 0x33333333;
        let x = (x | (x >> 2)) & 0x0F0F0F0F;
        let x = (x | (x >> 4)) & 0x00FF00FF;
        let r = (x | (x >> 8)) & 0x0000FFFF;
        proof {
            assert forall|i: u64| i < 16 implies (lane_is_set(r, i) <==> lane_is_set(
                movemask as u64,
                (2 * i + 1) as u64,
            )) by {
                lemma_odd_bits_packed(byte_mask, i);
            }
            lemma_odd_bits_packed(byte_mask, 0);
        }
        r
    } else {
        movemask as u64
    }
}


/// Number of significant bits of `x`: zero for zero, otherwise one more than the
/// position of its highest set bit.
pub open spec fn bit_length(x: nat) -> nat
    decreases x,
{
    if x == 0 {
        0
    } else {
        1 + bit_length(x / 2)
    }
}

/// A value split at bit `k` into an upper part `h` and a lower part `l < 2^k`
/// has `k` more significant bits than `h`, or those of `l` when `h` is zero.
pub proof fn lemma_bit_length_split(h: nat, l: nat, k: nat)
    requires
        l < pow2(k),
    ensures
        bit_length(h * pow2(k) + l) == (if h == 0 { bit_length(l) } else { k + bit_length(h) }),
    decreases k,
{
    let x = h * pow2(k) + l;
    if k == 0 {
        lemma2_to64();
        assert(pow2(k) == 1);
        assert(h * pow2(k) == h) by (nonlinear_arith)
            requires
                pow2(k) == 1,
        ;
    } else {
        let p = pow2((k - 1) as nat);
        lemma_pow2_adds((k - 1) as nat, 1);
        lemma2_to64();
        assert(pow2(k) == p * 2);
        lemma_pow2_pos((k - 1) as nat);
        assert(x / 2 == h * p + l / 2 && l / 2 < p) by (nonlinear_arith)
            requires
                x == h * (p * 2) + l,
                l < p * 2,
                p > 0,
        ;
        lemma_bit_length_split(h, l / 2, (k - 1) as nat);
        if h != 0 {
            assert(x != 0) by (nonlinear_arith)
                requires
                    x == h * (p * 2) + l,
                    h != 0,
                    p > 0,
            ;
            assert(bit_length(x) == 1 + bit_length(x / 2));
        } else {
            assert(x == l);
            if l != 0 {
                assert(bit_length(x) == 1 + bit_length(x / 2));
            }
        }
    }
}

/// A value below `2^k` has at most `k` significant bits.
pub proof fn lemma_bit_length_bound(x: nat, k: nat)
    requires
        x < pow2(k),
    ensures
        bit_length(x) <= k,
        x > 0 ==> bit_length(x) > 0,
    decreases k,
{
    lemma2_to64();
    if k > 0 && x > 0 {
        lemma_pow2_adds((k - 1) as nat, 1);
        lemma_bit_length_bound(x / 2, (k - 1) as nat);
    }
}

/// The leading-zero count of a 64-bit word is 64 less its significant bits.
pub proof fn lemma_leading_zeros_bit_length(x: u64)
    ensures
        u64_leading_zeros(x) == 64 - bit_length(x as nat),
    decreases x,
{
    reveal(u64_leading_zeros);
    if x != 0 {
        lemma_leading_zeros_bit_length(x / 2);
    }
}

/// Leading-zero counts of the 4-bit values, indexed by value.
pub const NIBBLE_LEADING_ZEROS: [u8; 16] = [4, 3, 2, 2, 1, 1, 1, 1, 0, 0, 0, 0, 0, 0, 0, 0];

proof fn lemma_nibble_table(x: u64)
    requires
        x < 16,
    ensures
        NIBBLE_LEADING_ZEROS@[x as int] == 4 - bit_length(x as nat),
{
    reveal_with_fuel(bit_length, 5);
    assert(NIBBLE_LEADING_ZEROS@ == seq![4u8, 3, 2, 2, 1, 1, 1, 1, 0, 0, 0, 0, 0, 0, 0, 0]);
}

/// Leading zeros of `x` read as a `w`-bit lane, by the steps the vector backend
/// combines: a table lookup for 4-bit values (its 8-bit lanes look up both
/// nibbles), and for wider lanes the count of the upper half, or, where the
/// upper half is zero, half the width plus the count of the lower half (its
/// 16-bit lanes combine two byte counts, its 64-bit lanes two 32-bit counts;
/// its 32-bit counts themselves come from a float conversion).
pub fn leading_zeros_by_halves(x: u64, w: u64) -> (r: u64)
    requires
        w == 4 || w == 8 || w == 16 || w == 32 || w == 64,
        x < pow2(w as nat),
    ensures
        r == w - bit_length(x as nat),
        r == u64_leading_zeros(x) - (64 - w),
    decreases w,
{
    proof {
        lemma_leading_zeros_bit_length(x);
        lemma_bit_length_bound(x as nat, w as nat);
        lemma2_to64();
        lemma2_to64_rest();
    }
    if w == 4 {
        proof {
            lemma_nibble_table(x);
        }
        NIBBLE_LEADING_ZEROS[x as usize] as u64
    } else {
        let half = w / 2;
        proof {
            lemma_u64_shl_is_mul(1, half);
        }
        let low_mask = (1u64 << half) - 1;
        let hi = x >> half;
        let lo = x & low_mask;
        proof {
            lemma_u64_shr_is_div(x, half);
            assert(low_mask == low_bits_mask(half as nat));
            lemma_u64_low_bits_mask_is_mod(x, half as nat);
            let p = pow2(half as nat);
            lemma_pow2_adds(half as nat, half as nat);
            lemma_pow2_pos(half as nat);
            assert(x == hi * p + lo && hi < p && lo < p) by (nonlinear_arith)
                requires
                    hi == x as nat / p,
                    lo == x as nat % p,
                    x < p * p,
                    p > 0,
            ;
            lemma_bit_length_split(hi as nat, lo as nat, half as nat);
            lemma_bit_length_bound(hi as nat, half as nat);
            lemma_bit_length_bound(lo as nat, half as nat);
        }
        let upper = leading_zeros_by_halves(hi, half);
        if upper < half {
            upper
        } else {
            half + leading_zeros_by_halves(lo, half)
        }
    }
}

/// The sign tricks of the 32-bit saturating add and subtract: the wrapped sum
/// overflowed exactly where both operands differ in sign from it, the wrapped
/// difference where the operands differ in sign and the difference differs from
/// `a`; either then saturates towards the sign of `a`.
proof fn lemma_signed_saturation_32(a: i32, b: i32, sum: i32, diff: i32, r_add: i32, r_sub: i32)
    by (bit_vector)
    requires
        sum == (if a + b > 0x7fff_ffff { a + b - 0x1_0000_0000 } else if a + b < -0x8000_0000 { a + b + 0x1_0000_0000 } else { a + b }),
        diff == (if a - b > 0x7fff_ffff { a - b - 0x1_0000_0000 } else if a - b < -0x8000_0000 { a - b + 0x1_0000_0000 } else { a - b }),
        r_add == ((((a ^ sum) & (b ^ sum)) >> 31) & (0x7fff_ffffi32 ^ (a >> 31))) | (!(((a ^ sum) & (b ^ sum)) >> 31) & sum),
        r_sub == ((((a ^ b) & (a ^ diff)) >> 31) & (0x7fff_ffffi32 ^ (a >> 31))) | (!(((a ^ b) & (a ^ diff)) >> 31) & diff),
    ensures
        r_add == (if a + b > 0x7fff_ffff { 0x7fff_ffff } else if a + b < -0x8000_0000 { -0x8000_0000 } else { a + b }),
        r_sub == (if a - b > 0x7fff_ffff { 0x7fff_ffff } else if a - b < -0x8000_0000 { -0x8000_0000 } else { a - b }),
{
}

/// Saturating `a + b` on a 32-bit signed lane from the wrapped sum and sign bits,
/// as the 256-bit backend does where no saturating instruction exists.
pub fn saturated_add_i32_by_signs(a: i32, b: i32) -> (r: i32)
    ensures
        r == clamp(a + b, i32::MIN as int, i32::MAX as int),
{
    let sum = a.wrapping_add(b);
    let diff = a.wrapping_sub(b);
    let overflow = ((a ^ sum) & (b ^ sum)) >> 31;
    let saturated = i32::MAX ^ (a >> 31);
    let r = (overflow & saturated) | (!overflow & sum);
    proof {
        let r_sub = ((((a ^ b) & (a ^ diff)) >> 31) & (0x7fff_ffffi32 ^ (a >> 31))) | (!(((a ^ b) & (a
            ^ diff)) >> 31) & diff);
        lemma_signed_saturation_32(a, b, sum, diff, r, r_sub);
    }
    r
}

/// Saturating `a - b` on a 32-bit signed lane from the wrapped difference and
/// sign bits.
pub fn saturated_sub_i32_by_signs(a: i32, b: i32) -> (r: i32)
    ensures
        r == clamp(a - b, i32::MIN as int, i32::MAX as int),
{
    let sum = a.wrapping_add(b);
    let diff = a.wrapping_sub(b);
    let underflow = ((a ^ b) & (a ^ diff)) >> 31;
    let saturated = i32::MAX ^ (a >> 31);
    let r = (underflow & saturated) | (!underflow & diff);
    proof {
        let r_add = ((((a ^ sum) & (b ^ sum)) >> 31) & (0x7fff_ffffi32 ^ (a >> 31))) | (!(((a ^ sum) & (b
            ^ sum)) >> 31) & sum);
        lemma_signed_saturation_32(a, b, sum, diff, r_add, r);
    }
    r
}

/// The sign tricks of the saturating add and subtract on 64-bit signed lanes.
proof fn lemma_signed_saturation_64(a: i64, b: i64, sum: i64, diff: i64, r_add: i64, r_sub: i64)
    by (bit_vector)
    requires
        sum == (if a + b > 0x7fff_ffff_ffff_ffff { a + b - 0x1_0000_0000_0000_0000 } else if a + b < -0x8000_0000_0000_0000 { a + b + 0x1_0000_0000_0000_0000 } else { a + b }),
        diff == (if a - b > 0x7fff_ffff_ffff_ffff { a - b - 0x1_0000_0000_0000_0000 } else if a - b < -0x8000_0000_0000_0000 { a - b + 0x1_0000_0000_0000_0000 } else { a - b }),
        r_add == ((((a ^ sum) & (b ^ sum)) >> 63) & (0x7fff_ffff_ffff_ffffi64 ^ (a >> 63))) | (!(((a ^ sum) & (b ^ sum)) >> 63) & sum),
        r_sub == ((((a ^ b) & (a ^ diff)) >> 63) & (0x7fff_ffff_ffff_ffffi64 ^ (a >> 63))) | (!(((a ^ b) & (a ^ diff)) >> 63) & diff),
    ensures
        r_add == (if a + b > 0x7fff_ffff_ffff_ffff { 0x7fff_ffff_ffff_ffff } else if a + b < -0x8000_0000_0000_0000 { -0x8000_0000_0000_0000 } else { a + b }),
        r_sub == (if a - b > 0x7fff_ffff_ffff_ffff { 0x7fff_ffff_ffff_ffff } else if a - b < -0x8000_0000_0000_0000 { -0x8000_0000_0000_0000 } else { a - b }),
{
}

/// Saturating `a + b` on a 64-bit signed lane from the wrapped sum and sign bits.
pub fn saturated_add_i64_by_signs(a: i64, b: i64) -> (r: i64)
    ensures
        r == clamp(a + b, i64::MIN as int, i64::MAX as int),
{
    let sum = a.wrapping_add(b);
    let diff = a.wrapping_sub(b);
    let overflow = ((a ^ sum) & (b ^ sum)) >> 63;
    let saturated = i64::MAX ^ (a >> 63);
    let r = (overflow & saturated) | (!overflow & sum);
    proof {
        let r_sub = ((((a ^ b) & (a ^ diff)) >> 63) & (0x7fff_ffff_ffff_ffffi64 ^ (a >> 63))) | (!(((a
            ^ b) & (a ^ diff)) >> 63) & diff);
        lemma_signed_saturation_64(a, b, sum, diff, r, r_sub);
    }
    r
}

/// Saturating `a - b` on a 64-bit signed lane from the wrapped difference and
/// sign bits.
pub fn saturated_sub_i64_by_signs(a: i64, b: i64) -> (r: i64)
    ensures
        r == clamp(a - b, i64::MIN as int, i64::MAX as int),
{
    let sum = a.wrapping_add(b);
    let diff = a.wrapping_sub(b);
    let underflow = ((a ^ b) & (a ^ diff)) >> 63;
    let saturated = i64::MAX ^ (a >> 63);
    let r = (underflow & saturated) | (!underflow & diff);
    proof {
        let r_add = ((((a ^ sum) & (b ^ sum)) >> 63) & (0x7fff_ffff_ffff_ffffi64 ^ (a >> 63))) | (!(((a
            ^ sum) & (b ^ sum)) >> 63) & sum);
        lemma_signed_saturation_64(a, b, sum, diff, r_add, r);
    }
    r
}

/// The complement of an unsigned word is its distance to the maximum, and
/// flipping the top bit turns unsigned order into signed order.
proof fn lemma_unsigned_tricks(a32: u32, a: u64, x: u64, y: u64)
    by (bit_vector)
    ensures
        !a32 == 0xffff_ffffu32 - a32,
        !a == 0xffff_ffff_ffff_ffffu64 - a,
        ((x ^ 0x8000_0000_0000_0000u64) as i64 > (y ^ 0x8000_0000_0000_0000u64) as i64) == (x > y),
{
}

/// Saturating `a + b` on a 32-bit unsigned lane: `a` plus the smaller of `b`
/// and the complement of `a`, the most that can be added without wrapping.
pub fn saturated_add_u32_by_complement(a: u32, b: u32) -> (r: u32)
    ensures
        r == clamp(a + b, 0, u32::MAX as int),
{
    let not_a = !a;
    proof {
        lemma_unsigned_tricks(a, 0, 0, 0);
    }
    let clamped = if b < not_a { b } else { not_a };
    a + clamped
}

/// Saturating `a - b` on a 32-bit unsigned lane: `a` less the smaller of `a` and `b`.
pub fn saturated_sub_u32_by_min(a: u32, b: u32) -> (r: u32)
    ensures
        r == clamp(a - b, 0, u32::MAX as int),
{
    let smaller = if a < b { a } else { b };
    a - smaller
}

/// Whether `x > y` as unsigned words, decided by a signed comparison of the
/// words with their top bits flipped (the 256-bit backend has no unsigned
/// 64-bit comparison).
fn greater_by_flipped_sign(x: u64, y: u64) -> (r: bool)
    ensures
        r == (x > y),
{
    proof {
        lemma_unsigned_tricks(0, 0, x, y);
    }
    ((x ^ 0x8000_0000_0000_0000u64) as i64) > ((y ^ 0x8000_0000_0000_0000u64) as i64)
}

/// Saturating `a + b` on a 64-bit unsigned lane: `b` clamped to the complement of
/// `a`, with the unsigned comparison made through flipped sign bits.
pub fn saturated_add_u64_by_complement(a: u64, b: u64) -> (r: u64)
    ensures
        r == clamp(a + b, 0, u64::MAX as int),
{
    let not_a = !a;
    proof {
        lemma_unsigned_tricks(0, a, 0, 0);
    }
    let clamped = if greater_by_flipped_sign(b, not_a) { not_a } else { b };
    a + clamped
}

/// Saturating `a - b` on a 64-bit unsigned lane: `a` less the smaller of `a` and
/// `b`, with the unsigned comparison made through flipped sign bits.
pub fn saturated_sub_u64_by_min(a: u64, b: u64) -> (r: u64)
    ensures
        r == clamp(a - b, 0, u64::MAX as int),
{
    let smaller = if greater_by_flipped_sign(b, a) { a } else { b };
    a - smaller
}

/// One lane of a 256-bit saturating pack. A signed lane is saturated to the
/// narrow signed range (`packs`). An unsigned lane is first limited to the
/// largest positive signed value of its width, so that the signed-input pack
/// sees it as non-negative, and then saturated to the narrow unsigned range
/// (`packus`).
fn pack_lane<W: WideLane>(x: W) -> (r: W::Narrow)
    requires
        W::width() == 16 || W::width() == 32,
    ensures
        lane_value(r) == clamp(lane_value(x), lane_min::<W::Narrow>(), lane_max::<W::Narrow>()),
{
    proof {
        W::lemma_lane_shape();
        W::lemma_narrow_twin();
        W::lemma_bits_fit(x);
        W::Narrow::lemma_lane_shape();
    }
    let lo = min_value::<W::Narrow>();
    let hi = max_value::<W::Narrow>();
    if W::signed() {
        let v = value_of(x);
        let c = if v < lo { lo } else if v > hi { hi } else { v };
        from_value(c)
    } else {
        let w = W::lane_bytes() as u64 * 8;
        proof {
            lemma2_to64();
            lemma_u64_shl_is_mul(1, (w - 1) as u64);
        }
        let positive_max = (1u64 << (w - 1)) - 1;
        let b = x.to_bits();
        let limited = if b < positive_max { b } else { positive_max };
        let v = limited as i128;
        let c = if v < lo { lo } else if v > hi { hi } else { v };
        from_value(c)
    }
}

/// Where a lane of the demoted pair lands after the 256-bit pack: each 128-bit
/// half of the packed register holds the lanes of the same half of `lo`, then
/// those of `hi`; `h` is half the lane count of one source.
pub open spec fn pack_source(j: int, h: int) -> (bool, int) {
    let q = j / h;
    let k = j % h;
    if q == 0 {
        (false, k)
    } else if q == 1 {
        (true, k)
    } else if q == 2 {
        (false, h + k)
    } else {
        (true, h + k)
    }
}

/// The 64-bit quarter order `0, 2, 1, 3` of the cross-lane permute that follows
/// the pack, as a map from result lane to packed lane.
pub open spec fn quarter_swap(j: int, h: int) -> int {
    let q = j / h;
    let k = j % h;
    (if q == 1 { 2 } else if q == 2 { 1 } else { q }) * h + k
}

/// Packing and then swapping the middle quarters sends result lane `i` to lane
/// `i` of `lo`, or lane `i - 2h` of `hi`.
proof fn lemma_pack_then_swap(i: int, h: int)
    requires
        h > 0,
        0 <= i < 4 * h,
    ensures
        pack_source(quarter_swap(i, h), h) == (if i < 2 * h { (false, i) } else { (true, i - 2 * h) }),
{
    let q = i / h;
    let k = i % h;
    vstd::arithmetic::div_mod::lemma_fundamental_div_mod(i, h);
    assert(0 <= q < 4) by (nonlinear_arith)
        requires
            i == h * q + k,
            0 <= k < h,
            0 <= i < 4 * h,
    ;
    let q2 = if q == 1 { 2 } else if q == 2 { 1 } else { q };
    lemma_fundamental_div_mod_converse(q2 * h + k, h, q2, k);
    assert(quarter_swap(i, h) == q2 * h + k);
    assert(i == h * q + k);
    if q == 0 {
        assert(i == k) by (nonlinear_arith)
            requires
                i == h * q + k,
                q == 0,
        ;
    } else if q == 1 {
        assert(i == h + k && q2 * h == 2 * h) by (nonlinear_arith)
            requires
                i == h * q + k,
                q == 1,
                q2 == 2,
        ;
    } else if q == 2 {
        assert(i == 2 * h + k && q2 * h == h) by (nonlinear_arith)
            requires
                i == h * q + k,
                q == 2,
                q2 == 1,
        ;
    } else {
        assert(i == 3 * h + k && q2 * h == 3 * h) by (nonlinear_arith)
            requires
                i == h * q + k,
                q == 3,
                q2 == 3,
        ;
    }
}

/// Saturating demotion of two vectors of wide lanes into one of narrow lanes,
/// all of `lo` first and then all of `hi`. For 16- and 32-bit lanes it packs
/// both vectors, which interleaves their 128-bit halves, and restores the order
/// by swapping the middle 64-bit quarters; 64-bit lanes are demoted one by one.
pub fn ordered_demote_2_to<W: WideLane>(lo: &[W], hi: &[W]) -> (r: Vec<W::Narrow>)
    requires
        lo.len() == hi.len(),
        lo.len() * W::width() == 256,
    ensures
        r.len() == 2 * lo.len(),
        forall|i: int|
            0 <= i < lo.len() ==> lane_value(#[trigger] r@[i]) == clamp(
                lane_value(lo@[i]),
                lane_min::<W::Narrow>(),
                lane_max::<W::Narrow>(),
            ),
        forall|i: int|
            0 <= i < hi.len() ==> lane_value(#[trigger] r@[lo.len() + i]) == clamp(
                lane_value(hi@[i]),
                lane_min::<W::Narrow>(),
                lane_max::<W::Narrow>(),
            ),
{
    proof {
        W::lemma_lane_shape();
        W::lemma_narrow_twin();
        W::Narrow::lemma_lane_shape();
    }
    let n = lo.len();
    let mut out: Vec<W::Narrow> = Vec::new();
    if W::lane_bytes() == 8 {
        let lo_hi = min_value::<W::Narrow>();
        let hi_hi = max_value::<W::Narrow>();
        for i in 0..2 * n
            invariant
                n == lo.len(),
                n == hi.len(),
                n == 4,
                lo_hi == lane_min::<W::Narrow>(),
                hi_hi == lane_max::<W::Narrow>(),
                out.len() == i,
                forall|j: int|
                    0 <= j < i ==> lane_value(#[trigger] out@[j]) == clamp(
                        lane_value(if j < n { lo@[j] } else { hi@[j - n] }),
                        lane_min::<W::Narrow>(),
                        lane_max::<W::Narrow>(),
                    ),
        {
            let x = if i < n { lo[i] } else { hi[i - n] };
            let v = value_of(x);
            let c = if v < lo_hi { lo_hi } else if v > hi_hi { hi_hi } else { v };
            proof {
                W::lemma_narrow_twin();
                W::Narrow::lemma_lane_shape();
            }
            out.push(from_value(c));
        }
        return out;
    }
    let h = n / 2;
    let mut packed: Vec<W::Narrow> = Vec::new();
    for j in 0..2 * n
        invariant
            n == lo.len(),
            n == hi.len(),
            n == 8 || n == 16,
            W::width() == 16 || W::width() == 32,
            h == n / 2,
            packed.len() == j,
            forall|t: int|
                0 <= t < j ==> lane_value(#[trigger] packed@[t]) == clamp(
                    lane_value(
                        if pack_source(t, h as int).0 {
                            hi@[pack_source(t, h as int).1]
                        } else {
                            lo@[pack_source(t, h as int).1]
                        },
                    ),
                    lane_min::<W::Narrow>(),
                    lane_max::<W::Narrow>(),
                ),
    {
        let q = j / h;
        let k = j % h;
        let x = if q == 0 {
            lo[k]
        } else if q == 1 {
            hi[k]
        } else if q == 2 {
            lo[h + k]
        } else {
            hi[h + k]
        };
        packed.push(pack_lane(x));
    }
    for j in 0..2 * n
        invariant
            n == lo.len(),
            n == hi.len(),
            n == 8 || n == 16,
            h == n / 2,
            packed.len() == 2 * n,
            out.len() == j,
            forall|t: int| 0 <= t < j ==> #[trigger] out@[t] == packed@[quarter_swap(t, h as int)],
    {
        let q = j / h;
        let k = j % h;
        let src = if q == 1 {
            2 * h + k
        } else if q == 2 {
            h + k
        } else {
            q * h + k
        };
        out.push(packed[src]);
    }
    proof {
        assert forall|i: int| 0 <= i < lo.len() implies lane_value(#[trigger] out@[i]) == clamp(
            lane_value(lo@[i]),
            lane_min::<W::Narrow>(),
            lane_max::<W::Narrow>(),
        ) by {
            lemma_pack_then_swap(i, h as int);
            assert(out@[i] == packed@[quarter_swap(i, h as int)]);
        }
        assert forall|i: int| 0 <= i < hi.len() implies lane_value(#[trigger] out@[lo.len() + i])
            == clamp(lane_value(hi@[i]), lane_min::<W::Narrow>(), lane_max::<W::Narrow>()) by {
            lemma_pack_then_swap(n + i, h as int);
            assert(out@[n + i] == packed@[quarter_swap(n + i, h as int)]);
        }
    }
    out
}


/// One lane of the 256-bit variable right shift, whose counts are not reduced
/// modulo the lane width: a count of at least the width shifts every bit out,
/// leaving zero, or copies of the sign bit for a negative signed lane. The
/// count is read as an unsigned number. Signed 64-bit lanes are shifted with
/// Rust's `>>`, which panics on a count of 64 or more, so those counts are
/// excluded there.
pub fn shr_lane<T: Lane>(v: T, count: T) -> (r: T)
    requires
        T::is_signed() && T::width() == 64 ==> count.bits() < 64,
    ensures
        count.bits() >= T::width() ==> r.bits() == (if T::is_signed() && sign_bit_set(v) {
            (T::modulus() - 1) as u64
        } else {
            0u64
        }),
        count.bits() < T::width() ==> r.bits() == shr_bits::<T>(v.bits(), count.bits() as int),
{
    proof {
        T::lemma_lane_shape();
    }
    let c = count.to_bits();
    let w = T::lane_bytes() as u64 * 8;
    if c >= w {
        let ones = lane_mask::<T>();
        if T::signed() && v.to_bits() > ones / 2 {
            T::from_bits(ones)
        } else {
            T::from_bits(0)
        }
    } else {
        T::from_bits(shift_right_bits::<T>(v, c))
    }
}

} // verus!
