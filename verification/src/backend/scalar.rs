//! Scalar (non-SIMD) backend.
//!
//! Operates on single elements at a time. This serves as the reference
//! implementation and fallback when no SIMD features are available: each vector
//! holds exactly one lane.
use vstd::prelude::*;
use vstd::arithmetic::div_mod::lemma_add_mod_noop;
use vstd::arithmetic::power2::{lemma2_to64, lemma2_to64_rest, lemma_pow2_adds, lemma_pow2_pos, pow2};
use vstd::bits::lemma_u64_shr_is_div;
use vstd::std_specs::bits::{
    axiom_u64_leading_zeros, axiom_u64_trailing_zeros, u64_leading_zeros, u64_trailing_zeros,
};

use crate::lane::{
    Lane, LaneBits, NarrowLane, WideLane, count_ones_u64, count_set_bits, lane_is_set, bits_of_value, clamp, from_value, lane_mask, lane_max, lane_min, lane_value,
    lemma_mod_mod64, lemma_mod_wrap64, lemma_value_range, max_value, min_value, truncate_bits, value_of, value_of_bits,
};

verus! {

/// The scalar (single-element) SIMD target.
#[derive(Clone, Copy, Debug)]
pub struct Scalar;

/// A single-element vector.
#[derive(Copy, Debug, PartialEq)]
pub struct Vec1<T: Lane>(pub T);

/// A single-element mask. Stored as the unsigned lane type:
/// `0` = false, `!0` (all bits set) = true.
#[derive(Copy, Debug, PartialEq)]
pub struct Mask1<T: Lane>(pub T::Unsigned);

impl<T: Lane> Clone for Vec1<T> {
    fn clone(&self) -> (r: Self)
        ensures
            r == *self,
    {
        *self
    }
}

impl<T: Lane> Clone for Mask1<T> {
    fn clone(&self) -> (r: Self)
        ensures
            r == *self,
    {
        *self
    }
}

impl<T: Lane> Mask1<T> {
    /// Whether the mask's lane is true: any bit of its pattern is set.
    pub open spec fn is_true(self) -> bool {
        self.0.bits() != 0
    }

    /// Create a mask from a boolean.
    pub fn from_bool(b: bool) -> (r: Self)
        ensures
            r.0.bits() == (if b { T::modulus() - 1 } else { 0 }),
            r.is_true() == b,
    {
        proof {
            T::lemma_unsigned_twin();
            T::lemma_lane_shape();
        }
        if b {
            Self(T::Unsigned::from_bits(lane_mask::<T::Unsigned>()))
        } else {
            Self(T::Unsigned::from_bits(0))
        }
    }

    /// Convert to bool.
    pub fn to_bool(self) -> (r: bool)
        ensures
            r == self.is_true(),
    {
        self.0.to_bits() != 0
    }
}

/// Whether the top (sign) bit of the lane's pattern is set.
pub open spec fn sign_bit_set<T: LaneBits>(x: T) -> bool {
    2 * (x.bits() as int) >= T::modulus()
}

/// Test whether the sign bit (MSB) of a lane's raw bits is set.
fn is_negative_bits<T: Lane>(v: Vec1<T>) -> (r: bool)
    ensures
        r == sign_bit_set(v.0),
{
    proof {
        T::lemma_lane_shape();
    }
    let m = lane_mask::<T>();
    v.0.to_bits() > m / 2
}

/// `b` shifted left by `s`, truncated to the lane width.
pub open spec fn shl_bits<T: LaneBits>(b: u64, s: int) -> u64 {
    (b << (s as u64)) & ((T::modulus() - 1) as u64)
}

/// `b` shifted right by `s`: zeros are shifted in for an unsigned lane, copies of the
/// sign bit for a signed lane.
pub open spec fn shr_bits<T: LaneBits>(b: u64, s: int) -> u64 {
    let ones = (T::modulus() - 1) as u64;
    if T::is_signed() && 2 * (b as int) >= T::modulus() {
        (b >> (s as u64)) | (ones ^ (ones >> (s as u64)))
    } else {
        b >> (s as u64)
    }
}

/// `b` rotated right by `s` within the lane width (`0 <= s < width`).
pub open spec fn rotr_bits<T: LaneBits>(b: u64, s: int) -> u64 {
    if s == 0 {
        b
    } else {
        ((b >> (s as u64)) | (b << ((T::width() - s) as u64))) & ((T::modulus() - 1) as u64)
    }
}

proof fn lemma_or_and_xor_fit(x: u64, y: u64) by (bit_vector)
    requires
        x <= 0xff && y <= 0xff || x <= 0xffff && y <= 0xffff || x <= 0xffff_ffff && y <= 0xffff_ffff,
    ensures
        x <= 0xff && y <= 0xff ==> (x | y) <= 0xff && (x ^ y) <= 0xff,
        x <= 0xffff && y <= 0xffff ==> (x | y) <= 0xffff && (x ^ y) <= 0xffff,
        x <= 0xffff_ffff && y <= 0xffff_ffff ==> (x | y) <= 0xffff_ffff && (x ^ y) <= 0xffff_ffff,
{
}

proof fn lemma_and_fit(x: u64, m: u64) by (bit_vector)
    ensures
        x & m <= m,
        x & m <= x,
{
}

/// The bitwise combinations of two lanes' patterns fit the lane width.
proof fn lemma_bitwise_fit<T: LaneBits>(a: T, b: T)
    ensures
        ((a.bits() & b.bits()) as int) < T::modulus(),
        ((a.bits() | b.bits()) as int) < T::modulus(),
        ((a.bits() ^ b.bits()) as int) < T::modulus(),
        ((!a.bits() & ((T::modulus() - 1) as u64)) as int) < T::modulus(),
{
    T::lemma_lane_shape();
    T::lemma_bits_fit(a);
    T::lemma_bits_fit(b);
    lemma_and_fit(a.bits(), b.bits());
    lemma_and_fit(!a.bits(), (T::modulus() - 1) as u64);
    if T::width() < 64 {
        lemma_or_and_xor_fit(a.bits(), b.bits());
    }
}

proof fn lemma_shift_fit<T: LaneBits>(v: T, s: u64)
    requires
        s < T::width(),
    ensures
        (((v.bits() << s) & ((T::modulus() - 1) as u64)) as int) < T::modulus(),
{
    T::lemma_lane_shape();
    lemma_and_fit(v.bits() << s, (T::modulus() - 1) as u64);
}

/// The shift amount `x` reduced modulo the lane width.
fn shift_amount<T: LaneBits>(x: u64) -> (r: u64)
    ensures
        r == x as int % T::width() as int,
        r < T::width(),
{
    proof {
        T::lemma_lane_shape();
    }
    x % (T::lane_bytes() as u64 * 8)
}

proof fn lemma_shr_fit(b: u64, s: u64, ones: u64) by (bit_vector)
    requires
        b <= ones,
        ones == 0xff || ones == 0xffff || ones == 0xffff_ffff || ones == 0xffff_ffff_ffff_ffff,
    ensures
        (b >> s) <= ones,
        ((b >> s) | (ones ^ (ones >> s))) <= ones,
{
}

/// Shift right of a lane's pattern by `s < width`: logical or arithmetic by the
/// lane's signedness.
pub(crate) fn shift_right_bits<T: LaneBits>(v: T, s: u64) -> (r: u64)
    requires
        s < T::width(),
    ensures
        r == shr_bits::<T>(v.bits(), s as int),
        (r as int) < T::modulus(),
{
    proof {
        T::lemma_lane_shape();
        T::lemma_bits_fit(v);
        lemma_shr_fit(v.bits(), s, (T::modulus() - 1) as u64);
    }
    let b = v.to_bits();
    let ones = lane_mask::<T>();
    if T::signed() && b > ones / 2 {
        (b >> s) | (ones ^ (ones >> s))
    } else {
        b >> s
    }
}

/// Rotation right of a lane's pattern by `s < width`.
fn rotate_right_bits<T: LaneBits>(v: T, s: u64) -> (r: u64)
    requires
        s < T::width(),
    ensures
        r == rotr_bits::<T>(v.bits(), s as int),
        (r as int) < T::modulus(),
{
    proof {
        T::lemma_lane_shape();
        T::lemma_bits_fit(v);
    }
    let b = v.to_bits();
    if s == 0 {
        b
    } else {
        let w = T::lane_bytes() as u64 * 8;
        proof {
            lemma_and_fit((b >> s) | (b << (w - s)), (T::modulus() - 1) as u64);
        }
        ((b >> s) | (b << (w - s))) & lane_mask::<T>()
    }
}

impl Scalar {
    // -----------------------------------------------------------------------
    // Core
    // -----------------------------------------------------------------------

    /// The vector whose lane is zero.
    pub fn zero<T: Lane>(self) -> (r: Vec1<T>)
        ensures
            r.0.bits() == 0,
    {
        proof {
            T::lemma_lane_shape();
        }
        Vec1(T::from_bits(0))
    }

    /// The vector whose lane is `value`.
    pub fn splat<T: Lane>(self, value: T) -> (r: Vec1<T>)
        ensures
            r.0 == value,
    {
        Vec1(value)
    }

    /// A vector with unspecified contents; the scalar backend gives zero.
    pub fn undefined<T: Lane>(self) -> (r: Vec1<T>)
        ensures
            r.0.bits() == 0,
    {
        self.zero()
    }

    /// Reinterprets the lane's bits as a lane of another type of the same width.
    pub fn bitcast<T: Lane, U: Lane>(self, v: Vec1<T>) -> (r: Vec1<U>)
        requires
            T::width() == U::width(),
        ensures
            r.0.bits() == v.0.bits(),
    {
        proof {
            T::lemma_bits_fit(v.0);
            T::lemma_lane_shape();
            U::lemma_lane_shape();
        }
        Vec1(U::from_bits(v.0.to_bits()))
    }

    /// The lane at `index`, which must be 0.
    pub fn extract_lane<T: Lane>(self, v: Vec1<T>, index: usize) -> (r: T)
        requires
            index == 0,
        ensures
            r == v.0,
    {
        v.0
    }

    /// The vector with lane `index`, which must be 0, replaced by `value`.
    pub fn insert_lane<T: Lane>(self, v: Vec1<T>, index: usize, value: T) -> (r: Vec1<T>)
        requires
            index == 0,
        ensures
            r.0 == value,
    {
        Vec1(value)
    }

    /// Lane `i` holds `base + i`; the single lane holds `base`.
    pub fn iota<T: Lane>(self, base: T) -> (r: Vec1<T>)
        ensures
            r.0 == base,
    {
        Vec1(base)
    }

    // -----------------------------------------------------------------------
    // Memory: the single lane is read from or written to the start of a slice
    // -----------------------------------------------------------------------

    /// Loads the lane from `mem[0]`.
    pub fn load<T: Lane>(self, mem: &[T]) -> (r: Vec1<T>)
        requires
            mem@.len() >= 1,
        ensures
            r.0 == mem@[0],
    {
        Vec1(mem[0])
    }

    /// Loads the lane from `mem[0]`, which need not be aligned.
    pub fn load_u<T: Lane>(self, mem: &[T]) -> (r: Vec1<T>)
        requires
            mem@.len() >= 1,
        ensures
            r.0 == mem@[0],
    {
        Vec1(mem[0])
    }

    /// Loads a 128-bit block and repeats it: the single lane from `mem[0]`.
    pub fn load_dup128<T: Lane>(self, mem: &[T]) -> (r: Vec1<T>)
        requires
            mem@.len() >= 1,
        ensures
            r.0 == mem@[0],
    {
        Vec1(mem[0])
    }

    /// Stores the lane to `mem[0]`.
    pub fn store<T: Lane>(self, v: Vec1<T>, mem: &mut [T])
        requires
            old(mem)@.len() >= 1,
        ensures
            final(mem)@ == old(mem)@.update(0, v.0),
    {
        mem[0] = v.0;
    }

    /// Stores the lane to `mem[0]`, which need not be aligned.
    pub fn store_u<T: Lane>(self, v: Vec1<T>, mem: &mut [T])
        requires
            old(mem)@.len() >= 1,
        ensures
            final(mem)@ == old(mem)@.update(0, v.0),
    {
        mem[0] = v.0;
    }

    /// Non-temporal store; the scalar backend has none, so a plain store.
    pub fn stream<T: Lane>(self, v: Vec1<T>, mem: &mut [T])
        requires
            old(mem)@.len() >= 1,
        ensures
            final(mem)@ == old(mem)@.update(0, v.0),
    {
        mem[0] = v.0;
    }

    /// Loads `mem[0]` where the mask is true; zero (with nothing read) where false.
    pub fn masked_load<T: Lane>(self, mask: Mask1<T>, mem: &[T]) -> (r: Vec1<T>)
        requires
            mask.is_true() ==> mem@.len() >= 1,
        ensures
            mask.is_true() ==> r.0 == mem@[0],
            !mask.is_true() ==> r.0.bits() == 0,
    {
        if mask.to_bool() {
            Vec1(mem[0])
        } else {
            self.zero()
        }
    }

    /// Stores the lane to `mem[0]` where the mask is true; leaves `mem` unchanged
    /// where false.
    pub fn blended_store<T: Lane>(self, v: Vec1<T>, mask: Mask1<T>, mem: &mut [T])
        requires
            mask.is_true() ==> old(mem)@.len() >= 1,
        ensures
            mask.is_true() ==> final(mem)@ == old(mem)@.update(0, v.0),
            !mask.is_true() ==> final(mem)@ == old(mem)@,
    {
        if mask.to_bool() {
            mem[0] = v.0;
        }
    }

    /// Loads the lane from `base[idx]`.
    pub fn gather_index<T: Lane>(self, base: &[T], idx: Vec1<i32>) -> (r: Vec1<T>)
        requires
            0 <= idx.0 < base@.len(),
        ensures
            r.0 == base@[idx.0 as int],
    {
        Vec1(base[idx.0 as usize])
    }

    /// Stores the lane to `base[idx]`.
    pub fn scatter_index<T: Lane>(self, v: Vec1<T>, base: &mut [T], idx: Vec1<i32>)
        requires
            0 <= idx.0 < old(base)@.len(),
        ensures
            final(base)@ == old(base)@.update(idx.0 as int, v.0),
    {
        base[idx.0 as usize] = v.0;
    }

    /// Loads two interleaved vectors: lane 0 of each from `mem[0]` and `mem[1]`.
    pub fn load_interleaved_2<T: Lane>(self, mem: &[T]) -> (r: (Vec1<T>, Vec1<T>))
        requires
            mem@.len() >= 2,
        ensures
            r.0.0 == mem@[0],
            r.1.0 == mem@[1],
    {
        (Vec1(mem[0]), Vec1(mem[1]))
    }

    /// Loads three interleaved vectors from `mem[0..3]`.
    pub fn load_interleaved_3<T: Lane>(self, mem: &[T]) -> (r: (Vec1<T>, Vec1<T>, Vec1<T>))
        requires
            mem@.len() >= 3,
        ensures
            r.0.0 == mem@[0],
            r.1.0 == mem@[1],
            r.2.0 == mem@[2],
    {
        (Vec1(mem[0]), Vec1(mem[1]), Vec1(mem[2]))
    }

    /// Loads four interleaved vectors from `mem[0..4]`.
    pub fn load_interleaved_4<T: Lane>(self, mem: &[T]) -> (r: (Vec1<T>, Vec1<T>, Vec1<T>, Vec1<T>))
        requires
            mem@.len() >= 4,
        ensures
            r.0.0 == mem@[0],
            r.1.0 == mem@[1],
            r.2.0 == mem@[2],
            r.3.0 == mem@[3],
    {
        (Vec1(mem[0]), Vec1(mem[1]), Vec1(mem[2]), Vec1(mem[3]))
    }

    /// Stores two vectors interleaved to `mem[0..2]`.
    pub fn store_interleaved_2<T: Lane>(self, v0: Vec1<T>, v1: Vec1<T>, mem: &mut [T])
        requires
            old(mem)@.len() >= 2,
        ensures
            final(mem)@ == old(mem)@.update(0, v0.0).update(1, v1.0),
    {
        mem[0] = v0.0;
        mem[1] = v1.0;
    }

    /// Stores three vectors interleaved to `mem[0..3]`.
    pub fn store_interleaved_3<T: Lane>(self, v0: Vec1<T>, v1: Vec1<T>, v2: Vec1<T>, mem: &mut [T])
        requires
            old(mem)@.len() >= 3,
        ensures
            final(mem)@ == old(mem)@.update(0, v0.0).update(1, v1.0).update(2, v2.0),
    {
        mem[0] = v0.0;
        mem[1] = v1.0;
        mem[2] = v2.0;
    }

    /// Stores four vectors interleaved to `mem[0..4]`.
    pub fn store_interleaved_4<T: Lane>(
        self,
        v0: Vec1<T>,
        v1: Vec1<T>,
        v2: Vec1<T>,
        v3: Vec1<T>,
        mem: &mut [T],
    )
        requires
            old(mem)@.len() >= 4,
        ensures
            final(mem)@ == old(mem)@.update(0, v0.0).update(1, v1.0).update(2, v2.0).update(3, v3.0),
    {
        mem[0] = v0.0;
        mem[1] = v1.0;
        mem[2] = v2.0;
        mem[3] = v3.0;
    }

    /// Loads consecutive lanes into the positions where the mask is true: with one
    /// lane, `mem[0]` where true and zero where false.
    pub fn load_expand<T: Lane>(self, mask: Mask1<T>, mem: &[T]) -> (r: Vec1<T>)
        requires
            mask.is_true() ==> mem@.len() >= 1,
        ensures
            mask.is_true() ==> r.0 == mem@[0],
            !mask.is_true() ==> r.0.bits() == 0,
    {
        if mask.to_bool() {
            Vec1(mem[0])
        } else {
            self.zero()
        }
    }

    /// Stores the lanes selected by the mask to the front of `mem`; returns how many.
    pub fn compress_store<T: Lane>(self, v: Vec1<T>, mask: Mask1<T>, mem: &mut [T]) -> (r: usize)
        requires
            mask.is_true() ==> old(mem)@.len() >= 1,
        ensures
            mask.is_true() ==> r == 1 && final(mem)@ == old(mem)@.update(0, v.0),
            !mask.is_true() ==> r == 0 && final(mem)@ == old(mem)@,
    {
        if mask.to_bool() {
            mem[0] = v.0;
            1
        } else {
            0
        }
    }

    /// `compress_store` that leaves the other elements of `mem` untouched.
    pub fn compress_blended_store<T: Lane>(self, v: Vec1<T>, mask: Mask1<T>, mem: &mut [T]) -> (r:
        usize)
        requires
            mask.is_true() ==> old(mem)@.len() >= 1,
        ensures
            mask.is_true() ==> r == 1 && final(mem)@ == old(mem)@.update(0, v.0),
            !mask.is_true() ==> r == 0 && final(mem)@ == old(mem)@,
    {
        if mask.to_bool() {
            mem[0] = v.0;
            1
        } else {
            0
        }
    }

    /// `compress_store` with the mask given as bits, lane `i` in bit `i` of `bits`.
    pub fn compress_bits_store<T: Lane>(self, v: Vec1<T>, bits: u8, mem: &mut [T]) -> (r: usize)
        requires
            bits & 1 != 0 ==> old(mem)@.len() >= 1,
        ensures
            bits & 1 != 0 ==> r == 1 && final(mem)@ == old(mem)@.update(0, v.0),
            bits & 1 == 0 ==> r == 0 && final(mem)@ == old(mem)@,
    {
        if bits & 1 != 0 {
            mem[0] = v.0;
            1
        } else {
            0
        }
    }

    // -----------------------------------------------------------------------
    // Arithmetic
    // -----------------------------------------------------------------------

    /// Wrapping addition.
    pub fn add<T: Lane>(self, a: Vec1<T>, b: Vec1<T>) -> (r: Vec1<T>)
        ensures
            r.0.bits() == (a.0.bits() + b.0.bits()) % T::modulus(),
    {
        let s = a.0.to_bits().wrapping_add(b.0.to_bits());
        proof {
            lemma_mod_wrap64::<T>(a.0.bits() + b.0.bits(), -1);
            T::lemma_lane_shape();
        }
        Vec1(T::from_bits(truncate_bits::<T>(s)))
    }

    /// Wrapping subtraction.
    pub fn sub<T: Lane>(self, a: Vec1<T>, b: Vec1<T>) -> (r: Vec1<T>)
        ensures
            r.0.bits() == (a.0.bits() - b.0.bits()) % T::modulus(),
    {
        let s = a.0.to_bits().wrapping_sub(b.0.to_bits());
        proof {
            lemma_mod_wrap64::<T>(a.0.bits() - b.0.bits(), 1);
            T::lemma_lane_shape();
        }
        Vec1(T::from_bits(truncate_bits::<T>(s)))
    }

    /// Wrapping multiplication.
    pub fn mul<T: Lane>(self, a: Vec1<T>, b: Vec1<T>) -> (r: Vec1<T>)
        ensures
            r.0.bits() == (a.0.bits() * b.0.bits()) % T::modulus(),
    {
        let s = a.0.to_bits().wrapping_mul(b.0.to_bits());
        proof {
            lemma_mod_mod64::<T>(a.0.bits() * b.0.bits());
            T::lemma_lane_shape();
        }
        Vec1(T::from_bits(truncate_bits::<T>(s)))
    }

    /// Saturating addition: the sum clamped to the lane's range.
    pub fn saturated_add<T: Lane>(self, a: Vec1<T>, b: Vec1<T>) -> (r: Vec1<T>)
        ensures
            lane_value(r.0) == clamp(lane_value(a.0) + lane_value(b.0), lane_min::<T>(), lane_max::<T>()),
    {
        proof {
            T::lemma_lane_shape();
        }
        let v = value_of(a.0) + value_of(b.0);
        let lo = min_value::<T>();
        let hi = max_value::<T>();
        let c = if v < lo { lo } else if v > hi { hi } else { v };
        Vec1(from_value(c))
    }

    /// Saturating subtraction: the difference clamped to the lane's range.
    pub fn saturated_sub<T: Lane>(self, a: Vec1<T>, b: Vec1<T>) -> (r: Vec1<T>)
        ensures
            lane_value(r.0) == clamp(lane_value(a.0) - lane_value(b.0), lane_min::<T>(), lane_max::<T>()),
    {
        proof {
            T::lemma_lane_shape();
        }
        let v = value_of(a.0) - value_of(b.0);
        let lo = min_value::<T>();
        let hi = max_value::<T>();
        let c = if v < lo { lo } else if v > hi { hi } else { v };
        Vec1(from_value(c))
    }

    /// Absolute value; the most negative signed value wraps to itself.
    pub fn abs<T: Lane>(self, v: Vec1<T>) -> (r: Vec1<T>)
        ensures
            r.0.bits() == (if lane_value(v.0) < 0 { -lane_value(v.0) } else { lane_value(v.0) }),
    {
        proof {
            T::lemma_lane_shape();
        }
        let x = value_of(v.0);
        let a = if x < 0 { -x } else { x };
        Vec1(T::from_bits(a as u64))
    }

    /// Wrapping negation.
    pub fn neg<T: Lane>(self, v: Vec1<T>) -> (r: Vec1<T>)
        ensures
            r.0.bits() == (-v.0.bits()) % T::modulus(),
    {
        let s = 0u64.wrapping_sub(v.0.to_bits());
        proof {
            lemma_mod_wrap64::<T>(-v.0.bits(), 1);
            T::lemma_lane_shape();
        }
        Vec1(T::from_bits(truncate_bits::<T>(s)))
    }

    /// The smaller lane.
    pub fn min<T: Lane>(self, a: Vec1<T>, b: Vec1<T>) -> (r: Vec1<T>)
        ensures
            r == (if lane_value(a.0) < lane_value(b.0) { a } else { b }),
    {
        if value_of(a.0) < value_of(b.0) {
            a
        } else {
            b
        }
    }

    /// The larger lane.
    pub fn max<T: Lane>(self, a: Vec1<T>, b: Vec1<T>) -> (r: Vec1<T>)
        ensures
            r == (if lane_value(a.0) > lane_value(b.0) { a } else { b }),
    {
        if value_of(a.0) > value_of(b.0) {
            a
        } else {
            b
        }
    }

    /// `v` clamped to `[lo, hi]`: `min(max(v, lo), hi)`.
    pub fn clamp<T: Lane>(self, v: Vec1<T>, lo: Vec1<T>, hi: Vec1<T>) -> (r: Vec1<T>)
        ensures
            r == ({
                let m = if lane_value(v.0) > lane_value(lo.0) { v } else { lo };
                if lane_value(m.0) < lane_value(hi.0) { m } else { hi }
            }),
    {
        self.min(self.max(v, lo), hi)
    }

    /// The upper half of the double-width product: `floor(a * b / 2^width)`.
    pub fn mul_high<T: Lane>(self, a: Vec1<T>, b: Vec1<T>) -> (r: Vec1<T>)
        ensures
            lane_value(r.0) == (lane_value(a.0) * lane_value(b.0)) / T::modulus(),
    {
        proof {
            T::lemma_lane_shape();
        }
        let m = lane_mask::<T>() as u128 + 1;
        if T::signed() {
            let x = value_of(a.0);
            let y = value_of(b.0);
            assert(-0x8000_0000_0000_0000 <= x <= 0x7fff_ffff_ffff_ffff);
            assert(-0x8000_0000_0000_0000 <= y <= 0x7fff_ffff_ffff_ffff);
            assert(x * y <= 0x4000_0000_0000_0000_0000_0000_0000_0000) by (nonlinear_arith)
                requires
                    -0x8000_0000_0000_0000 <= x <= 0x7fff_ffff_ffff_ffff,
                    -0x8000_0000_0000_0000 <= y <= 0x7fff_ffff_ffff_ffff,
            ;
            assert(x * y >= -0x4000_0000_0000_0000_0000_0000_0000_0000) by (nonlinear_arith)
                requires
                    -0x8000_0000_0000_0000 <= x <= 0x7fff_ffff_ffff_ffff,
                    -0x8000_0000_0000_0000 <= y <= 0x7fff_ffff_ffff_ffff,
            ;
            let p = x * y;
            let q: i128 = if p >= 0 {
                (p as u128 / m) as i128
            } else {
                -((((-p) as u128 + m - 1) / m) as i128)
            };
            proof {
                lemma_floor_div(p as int, m as int);
                lemma_product_high_fits::<T>(x as int, y as int);
            }
            Vec1(from_value(q))
        } else {
            let x = a.0.to_bits() as u128;
            let y = b.0.to_bits() as u128;
            assert(x * y <= 0xffff_ffff_ffff_ffff * 0xffff_ffff_ffff_ffff) by (nonlinear_arith)
                requires
                    x <= 0xffff_ffff_ffff_ffff,
                    y <= 0xffff_ffff_ffff_ffff,
            ;
            let q = (x * y) / m;
            proof {
                lemma_value_range(a.0);
                lemma_value_range(b.0);
                lemma_product_high_fits::<T>(x as int, y as int);
            }
            Vec1(from_value(q as i128))
        }
    }

    /// Rounded average of two unsigned lanes: `(a + b + 1) / 2`.
    pub fn average_round<T: Lane>(self, a: Vec1<T>, b: Vec1<T>) -> (r: Vec1<T>)
        requires
            !T::is_signed(),
        ensures
            r.0.bits() == (a.0.bits() + b.0.bits() + 1) / 2,
    {
        proof {
            T::lemma_lane_shape();
            T::lemma_bits_fit(a.0);
            T::lemma_bits_fit(b.0);
        }
        let s = (a.0.to_bits() as u128 + b.0.to_bits() as u128 + 1) / 2;
        Vec1(T::from_bits(s as u64))
    }

    /// Absolute difference: `|a - b|` for unsigned lanes; for signed lanes the
    /// absolute value of the wrapped difference.
    pub fn abs_diff<T: Lane>(self, a: Vec1<T>, b: Vec1<T>) -> (r: Vec1<T>)
        ensures
            !T::is_signed() ==> r.0.bits() == (if a.0.bits() < b.0.bits() {
                b.0.bits() - a.0.bits()
            } else {
                a.0.bits() - b.0.bits()
            }),
            T::is_signed() ==> ({
                let d = value_of_bits::<T>((a.0.bits() - b.0.bits()) % T::modulus());
                r.0.bits() == if d < 0 { -d } else { d }
            }),
    {
        if T::signed() {
            self.abs(self.sub(a, b))
        } else {
            let x = a.0.to_bits();
            let y = b.0.to_bits();
            let d = if x < y { y - x } else { x - y };
            proof {
                T::lemma_bits_fit(a.0);
                T::lemma_bits_fit(b.0);
            }
            Vec1(T::from_bits(d))
        }
    }

    /// Saturating negation: `saturated_sub(zero, v)`.
    pub fn saturated_neg<T: Lane>(self, v: Vec1<T>) -> (r: Vec1<T>)
        ensures
            lane_value(r.0) == clamp(-lane_value(v.0), lane_min::<T>(), lane_max::<T>()),
    {
        let z = self.zero::<T>();
        proof {
            T::lemma_lane_shape();
        }
        self.saturated_sub(z, v)
    }

    /// Saturating absolute value: `max(v, saturated_neg(v))`.
    pub fn saturated_abs<T: Lane>(self, v: Vec1<T>) -> (r: Vec1<T>)
        ensures
            lane_value(r.0) == clamp(
                if lane_value(v.0) < 0 { -lane_value(v.0) } else { lane_value(v.0) },
                lane_min::<T>(),
                lane_max::<T>(),
            ),
    {
        proof {
            T::lemma_lane_shape();
            lemma_value_range(v.0);
        }
        self.max(v, self.saturated_neg(v))
    }

    /// `min(a, b)` where the mask is true, else `no`.
    pub fn masked_min_or<T: Lane>(self, no: Vec1<T>, mask: Mask1<T>, a: Vec1<T>, b: Vec1<T>) -> (r:
        Vec1<T>)
        ensures
            r == (if mask.is_true() { if lane_value(a.0) < lane_value(b.0) { a } else { b } } else { no }),
    {
        self.if_then_else(mask, self.min(a, b), no)
    }

    /// `max(a, b)` where the mask is true, else `no`.
    pub fn masked_max_or<T: Lane>(self, no: Vec1<T>, mask: Mask1<T>, a: Vec1<T>, b: Vec1<T>) -> (r:
        Vec1<T>)
        ensures
            r == (if mask.is_true() { if lane_value(a.0) > lane_value(b.0) { a } else { b } } else { no }),
    {
        self.if_then_else(mask, self.max(a, b), no)
    }

    /// `a + b` where the mask is true, else `no`.
    pub fn masked_add_or<T: Lane>(self, no: Vec1<T>, mask: Mask1<T>, a: Vec1<T>, b: Vec1<T>) -> (r:
        Vec1<T>)
        ensures
            mask.is_true() ==> r.0.bits() == (a.0.bits() + b.0.bits()) % T::modulus(),
            !mask.is_true() ==> r == no,
    {
        self.if_then_else(mask, self.add(a, b), no)
    }

    /// `a - b` where the mask is true, else `no`.
    pub fn masked_sub_or<T: Lane>(self, no: Vec1<T>, mask: Mask1<T>, a: Vec1<T>, b: Vec1<T>) -> (r:
        Vec1<T>)
        ensures
            mask.is_true() ==> r.0.bits() == (a.0.bits() - b.0.bits()) % T::modulus(),
            !mask.is_true() ==> r == no,
    {
        self.if_then_else(mask, self.sub(a, b), no)
    }

    /// `a * b` where the mask is true, else `no`.
    pub fn masked_mul_or<T: Lane>(self, no: Vec1<T>, mask: Mask1<T>, a: Vec1<T>, b: Vec1<T>) -> (r:
        Vec1<T>)
        ensures
            mask.is_true() ==> r.0.bits() == (a.0.bits() * b.0.bits()) % T::modulus(),
            !mask.is_true() ==> r == no,
    {
        self.if_then_else(mask, self.mul(a, b), no)
    }

    // -----------------------------------------------------------------------
    // Bitwise
    // -----------------------------------------------------------------------

    /// Bitwise AND.
    pub fn and<T: Lane>(self, a: Vec1<T>, b: Vec1<T>) -> (r: Vec1<T>)
        ensures
            r.0.bits() == a.0.bits() & b.0.bits(),
    {
        proof {
            lemma_bitwise_fit::<T>(a.0, b.0);
        }
        Vec1(T::from_bits(a.0.to_bits() & b.0.to_bits()))
    }

    /// Bitwise OR.
    pub fn or<T: Lane>(self, a: Vec1<T>, b: Vec1<T>) -> (r: Vec1<T>)
        ensures
            r.0.bits() == a.0.bits() | b.0.bits(),
    {
        proof {
            lemma_bitwise_fit::<T>(a.0, b.0);
        }
        Vec1(T::from_bits(a.0.to_bits() | b.0.to_bits()))
    }

    /// Bitwise XOR.
    pub fn xor<T: Lane>(self, a: Vec1<T>, b: Vec1<T>) -> (r: Vec1<T>)
        ensures
            r.0.bits() == a.0.bits() ^ b.0.bits(),
    {
        proof {
            lemma_bitwise_fit::<T>(a.0, b.0);
        }
        Vec1(T::from_bits(a.0.to_bits() ^ b.0.to_bits()))
    }

    /// Bitwise NOT.
    pub fn not<T: Lane>(self, v: Vec1<T>) -> (r: Vec1<T>)
        ensures
            r.0.bits() == !v.0.bits() & ((T::modulus() - 1) as u64),
    {
        proof {
            lemma_bitwise_fit::<T>(v.0, v.0);
        }
        Vec1(T::from_bits(!v.0.to_bits() & lane_mask::<T>()))
    }

    /// `!a & b`.
    pub fn and_not<T: Lane>(self, a: Vec1<T>, b: Vec1<T>) -> (r: Vec1<T>)
        ensures
            r.0.bits() == (!a.0.bits() & ((T::modulus() - 1) as u64)) & b.0.bits(),
    {
        self.and(self.not(a), b)
    }

    /// Shift left by the constant `BITS` (modulo the lane width), shifting in zeros.
    pub fn shift_left<T: Lane, const BITS: u32>(self, v: Vec1<T>) -> (r: Vec1<T>)
        ensures
            r.0.bits() == shl_bits::<T>(v.0.bits(), BITS as int % T::width() as int),
    {
        self.shift_left_same(v, BITS)
    }

    /// Shift right by the constant `BITS` (modulo the lane width): logical for
    /// unsigned lanes, arithmetic for signed lanes.
    pub fn shift_right<T: Lane, const BITS: u32>(self, v: Vec1<T>) -> (r: Vec1<T>)
        ensures
            r.0.bits() == shr_bits::<T>(v.0.bits(), BITS as int % T::width() as int),
    {
        self.shift_right_same(v, BITS)
    }

    /// Shift left by `bits` (modulo the lane width), shifting in zeros.
    pub fn shift_left_same<T: Lane>(self, v: Vec1<T>, bits: u32) -> (r: Vec1<T>)
        ensures
            r.0.bits() == shl_bits::<T>(v.0.bits(), bits as int % T::width() as int),
    {
        proof {
            T::lemma_lane_shape();
        }
        let s = shift_amount::<T>(bits as u64);
        proof {
            lemma_shift_fit::<T>(v.0, s);
        }
        Vec1(T::from_bits((v.0.to_bits() << s) & lane_mask::<T>()))
    }

    /// Shift right by `bits` (modulo the lane width): logical for unsigned lanes,
    /// arithmetic for signed lanes.
    pub fn shift_right_same<T: Lane>(self, v: Vec1<T>, bits: u32) -> (r: Vec1<T>)
        ensures
            r.0.bits() == shr_bits::<T>(v.0.bits(), bits as int % T::width() as int),
    {
        let s = shift_amount::<T>(bits as u64);
        Vec1(T::from_bits(shift_right_bits::<T>(v.0, s)))
    }

    /// Per-lane shift left of `v` by the amount in `bits` (modulo the lane width).
    pub fn shl<T: Lane>(self, v: Vec1<T>, bits: Vec1<T>) -> (r: Vec1<T>)
        ensures
            r.0.bits() == shl_bits::<T>(v.0.bits(), bits.0.bits() as int % T::width() as int),
    {
        proof {
            T::lemma_lane_shape();
        }
        let s = shift_amount::<T>(bits.0.to_bits());
        proof {
            lemma_shift_fit::<T>(v.0, s);
        }
        Vec1(T::from_bits((v.0.to_bits() << s) & lane_mask::<T>()))
    }

    /// Per-lane shift right of `v` by the amount in `bits` (modulo the lane width):
    /// logical for unsigned lanes, arithmetic for signed lanes.
    pub fn shr<T: Lane>(self, v: Vec1<T>, bits: Vec1<T>) -> (r: Vec1<T>)
        ensures
            r.0.bits() == shr_bits::<T>(v.0.bits(), bits.0.bits() as int % T::width() as int),
    {
        let s = shift_amount::<T>(bits.0.to_bits());
        Vec1(T::from_bits(shift_right_bits::<T>(v.0, s)))
    }

    /// Rotate right by the constant `BITS` (modulo the lane width).
    pub fn rotate_right<T: Lane, const BITS: u32>(self, v: Vec1<T>) -> (r: Vec1<T>)
        ensures
            r.0.bits() == rotr_bits::<T>(v.0.bits(), BITS as int % T::width() as int),
    {
        let s = shift_amount::<T>(BITS as u64);
        Vec1(T::from_bits(rotate_right_bits::<T>(v.0, s)))
    }

    /// Rotate left by the constant `BITS` (modulo the lane width).
    pub fn rotate_left<T: Lane, const BITS: u32>(self, v: Vec1<T>) -> (r: Vec1<T>)
        ensures
            r.0.bits() == rotr_bits::<T>(v.0.bits(), (T::width() - BITS as int % T::width() as int) % T::width() as int),
    {
        proof {
            T::lemma_lane_shape();
        }
        let s = shift_amount::<T>(BITS as u64);
        let w = T::lane_bytes() as u64 * 8;
        Vec1(T::from_bits(rotate_right_bits::<T>(v.0, (w - s) % w)))
    }

    /// Per-lane rotate right of `a` by the amount in `b` (modulo the lane width).
    pub fn ror<T: Lane>(self, a: Vec1<T>, b: Vec1<T>) -> (r: Vec1<T>)
        ensures
            r.0.bits() == rotr_bits::<T>(a.0.bits(), b.0.bits() as int % T::width() as int),
    {
        let s = shift_amount::<T>(b.0.to_bits());
        Vec1(T::from_bits(rotate_right_bits::<T>(a.0, s)))
    }

    /// Per-lane rotate left of `a` by the amount in `b` (modulo the lane width).
    pub fn rol<T: Lane>(self, a: Vec1<T>, b: Vec1<T>) -> (r: Vec1<T>)
        ensures
            r.0.bits() == rotr_bits::<T>(a.0.bits(), (T::width() - b.0.bits() as int % T::width() as int) % T::width() as int),
    {
        proof {
            T::lemma_lane_shape();
        }
        let s = shift_amount::<T>(b.0.to_bits());
        let w = T::lane_bytes() as u64 * 8;
        Vec1(T::from_bits(rotate_right_bits::<T>(a.0, (w - s) % w)))
    }

    /// All ones where the lane's sign (top) bit is set, else zero.
    pub fn broadcast_sign_bit<T: Lane>(self, v: Vec1<T>) -> (r: Vec1<T>)
        ensures
            r.0.bits() == (if sign_bit_set(v.0) { T::modulus() - 1 } else { 0 }),
    {
        proof {
            T::lemma_lane_shape();
        }
        if is_negative_bits(v) {
            Vec1(T::from_bits(lane_mask::<T>()))
        } else {
            Vec1(T::from_bits(0))
        }
    }

    /// Shift left by the constant `BYTES` whole bytes; zero once `BYTES` reaches the
    /// lane size.
    pub fn shift_left_bytes<T: Lane, const BYTES: usize>(self, v: Vec1<T>) -> (r: Vec1<T>)
        ensures
            BYTES * 8 >= T::width() ==> r.0.bits() == 0,
            BYTES * 8 < T::width() ==> r.0.bits() == shl_bits::<T>(v.0.bits(), BYTES * 8),
    {
        proof {
            T::lemma_lane_shape();
        }
        if BYTES >= T::lane_bytes() {
            return self.zero();
        }
        let s = BYTES as u64 * 8;
        proof {
            lemma_shift_fit::<T>(v.0, s);
        }
        Vec1(T::from_bits((v.0.to_bits() << s) & lane_mask::<T>()))
    }

    /// Logical shift right by the constant `BYTES` whole bytes; zero once `BYTES`
    /// reaches the lane size.
    pub fn shift_right_bytes<T: Lane, const BYTES: usize>(self, v: Vec1<T>) -> (r: Vec1<T>)
        ensures
            BYTES * 8 >= T::width() ==> r.0.bits() == 0,
            BYTES * 8 < T::width() ==> r.0.bits() == v.0.bits() >> ((BYTES * 8) as u64),
    {
        proof {
            T::lemma_lane_shape();
            T::lemma_bits_fit(v.0);
        }
        if BYTES >= T::lane_bytes() {
            return self.zero();
        }
        let s = BYTES as u64 * 8;
        proof {
            lemma_shr_fit(v.0.bits(), s, (T::modulus() - 1) as u64);
        }
        Vec1(T::from_bits(v.0.to_bits() >> s))
    }

    /// Number of set bits in the lane.
    pub fn population_count<T: Lane>(self, v: Vec1<T>) -> (r: Vec1<T>)
        ensures
            r.0.bits() == count_set_bits(v.0.bits(), 64),
    {
        let c = count_ones_u64(v.0.to_bits());
        proof {
            T::lemma_lane_shape();
            lemma_count_set_bits_bound(v.0.bits(), 64);
        }
        Vec1(T::from_bits(c as u64))
    }

    /// Number of zero bits above the highest set bit, within the lane width.
    pub fn leading_zero_count<T: Lane>(self, v: Vec1<T>) -> (r: Vec1<T>)
        ensures
            r.0.bits() == u64_leading_zeros(v.0.bits()) - (64 - T::width()),
    {
        let b = v.0.to_bits();
        let lz = b.leading_zeros();
        proof {
            T::lemma_lane_shape();
            T::lemma_bits_fit(v.0);
            axiom_u64_leading_zeros(b);
            if lz < 64 {
                lemma_high_bit_fits(b, (63 - lz) as u64, (T::modulus() - 1) as u64);
            }
        }
        Vec1(T::from_bits(lz as u64 - (64 - T::lane_bytes() as u64 * 8)))
    }

    /// Number of zero bits below the lowest set bit; the lane width for zero.
    pub fn trailing_zero_count<T: Lane>(self, v: Vec1<T>) -> (r: Vec1<T>)
        ensures
            r.0.bits() == (if v.0.bits() == 0 { T::width() as int } else { u64_trailing_zeros(v.0.bits()) as int }),
    {
        proof {
            T::lemma_lane_shape();
        }
        let b = v.0.to_bits();
        if b == 0 {
            return Vec1(T::from_bits(T::lane_bytes() as u64 * 8));
        }
        let tz = b.trailing_zeros();
        proof {
            axiom_u64_trailing_zeros(b);
        }
        Vec1(T::from_bits(tz as u64))
    }

    /// The lane's bits in reverse order: bit `i` of the result is bit
    /// `width - 1 - i` of `v`.
    pub fn reverse_bits<T: Lane>(self, v: Vec1<T>) -> (r: Vec1<T>)
        ensures
            forall|i: u64|
                i < T::width() ==> (lane_is_set(r.0.bits(), i) <==> lane_is_set(
                    v.0.bits(),
                    (T::width() - 1 - i) as u64,
                )),
    {
        proof {
            T::lemma_lane_shape();
            T::lemma_bits_fit(v.0);
        }
        let b = v.0.to_bits();
        let w = T::lane_bytes() as u64 * 8;
        let mut out: u64 = 0;
        proof {
            assert forall|k: u64| k < 64 implies !#[trigger] lane_is_set(0u64, k) by {
                lemma_zero_bits(k, w);
            }
            lemma_zero_bits(0, w);
        }
        for i in 0..w
            invariant
                w == T::width(),
                w == 8 || w == 16 || w == 32 || w == 64,
                b == v.0.bits(),
                w == 64 || out < (1u64 << w),
                forall|k: u64|
                    k < 64 ==> (lane_is_set(out, k) <==> (w - i <= k < w && lane_is_set(
                        b,
                        (w - 1 - k) as u64,
                    ))),
        {
            let t = w - 1 - i;
            if (b >> i) & 1 == 1 {
                proof {
                    if w < 64 {
                        lemma_set_bit_below(out, t, w);
                    }
                    assert forall|k: u64| k < 64 implies (#[trigger] lane_is_set(out | (1u64 << t), k) <==> (
                    w - (i + 1) <= k < w && lane_is_set(b, (w - 1 - k) as u64))) by {
                        lemma_set_bit(out, t, k);
                        if k == t {
                            assert((w - 1 - k) as u64 == i);
                        }
                    }
                }
                out = out | (1u64 << t);
            } else {
                proof {
                    assert forall|k: u64| k < 64 implies (lane_is_set(out, k) <==> (w - (i + 1) <= k
                        < w && lane_is_set(b, (w - 1 - k) as u64))) by {
                        if k == t {
                            assert((w - 1 - k) as u64 == i);
                        }
                    }
                }
            }
        }
        proof {
            lemma_width_shifts();
        }
        Vec1(T::from_bits(out))
    }

    /// The lane's bytes in reverse order: byte `i` of the result is byte
    /// `bytes - 1 - i` of `v`.
    pub fn reverse_lane_bytes<T: Lane>(self, v: Vec1<T>) -> (r: Vec1<T>)
        ensures
            forall|i: u64|
                i < T::width() / 8 ==> lane_byte(r.0.bits(), i) == lane_byte(
                    v.0.bits(),
                    (T::width() / 8 - 1 - i) as u64,
                ),
    {
        proof {
            T::lemma_lane_shape();
            T::lemma_bits_fit(v.0);
        }
        let b = v.0.to_bits();
        let n = T::lane_bytes() as u64;
        if n <= 1 {
            return v;
        }
        let mut out: u64 = 0;
        proof {
            assert forall|k: u64| k < 8 implies #[trigger] lane_byte(0u64, k) == 0 by {
                lemma_zero_bits(k, (8 * n) as u64);
            }
            lemma_zero_bits(0, (8 * n) as u64);
        }
        for i in 0..n
            invariant
                n * 8 == T::width(),
                n == 2 || n == 4 || n == 8,
                b == v.0.bits(),
                n == 8 || out < (1u64 << (8 * n)),
                forall|k: u64|
                    k < 8 ==> lane_byte(out, k) == (if n - i <= k < n {
                        lane_byte(b, (n - 1 - k) as u64)
                    } else {
                        0
                    }),
        {
            let t = n - 1 - i;
            let y = (b >> (8 * i)) & 0xff;
            proof {
                lemma_and_fit(b >> (8 * i), 0xff);
                if n < 8 {
                    lemma_set_byte_below(out, y, t, n);
                }
                assert forall|k: u64| k < 8 implies #[trigger] lane_byte(out | (y << (8 * t)), k) == (if n - (i
                    + 1) <= k < n {
                    lane_byte(b, (n - 1 - k) as u64)
                } else {
                    0
                }) by {
                    lemma_set_byte(out, y, t, k);
                    if k == t {
                        assert((n - 1 - k) as u64 == i);
                    }
                }
            }
            out = out | (y << (8 * t));
        }
        proof {
            lemma_width_shifts();
            assert(8 * 2u64 == 16u64 && 8 * 4u64 == 32u64);
        }
        Vec1(T::from_bits(out))
    }

    // -----------------------------------------------------------------------
    // Conversions
    // -----------------------------------------------------------------------

    /// Widens the lane to the type of twice the width, keeping its value.
    pub fn promote_to<N: NarrowLane>(self, v: Vec1<N>) -> (r: Vec1<N::Wide>)
        ensures
            lane_value(r.0) == lane_value(v.0),
    {
        proof {
            lemma_wide_range::<N>();
        }
        Vec1(from_value(value_of(v.0)))
    }

    /// Narrows the lane to the type of half the width, saturating to its range.
    pub fn demote_to<W: WideLane>(self, v: Vec1<W>) -> (r: Vec1<W::Narrow>)
        ensures
            lane_value(r.0) == clamp(lane_value(v.0), lane_min::<W::Narrow>(), lane_max::<W::Narrow>()),
    {
        let x = value_of(v.0);
        let lo = min_value::<W::Narrow>();
        let hi = max_value::<W::Narrow>();
        proof {
            W::Narrow::lemma_lane_shape();
        }
        let c = if x < lo { lo } else if x > hi { hi } else { x };
        Vec1(from_value(c))
    }

    /// Narrows the lane to the type of half the width, keeping its low bits.
    pub fn truncate_to<W: WideLane>(self, v: Vec1<W>) -> (r: Vec1<W::Narrow>)
        ensures
            r.0.bits() == v.0.bits() as int % <W::Narrow as LaneBits>::modulus(),
    {
        proof {
            W::Narrow::lemma_lane_shape();
        }
        Vec1(W::Narrow::from_bits(truncate_bits::<W::Narrow>(v.0.to_bits())))
    }

    /// Demotes `lo`; the single lane has no room for `hi`.
    pub fn ordered_demote_2_to<W: WideLane>(self, lo: Vec1<W>, hi: Vec1<W>) -> (r: Vec1<W::Narrow>)
        ensures
            lane_value(r.0) == clamp(lane_value(lo.0), lane_min::<W::Narrow>(), lane_max::<W::Narrow>()),
    {
        self.demote_to(lo)
    }

    /// Demotes `a`; the single lane has no room for `b`.
    pub fn reorder_demote_2_to<W: WideLane>(self, a: Vec1<W>, b: Vec1<W>) -> (r: Vec1<W::Narrow>)
        ensures
            lane_value(r.0) == clamp(lane_value(a.0), lane_min::<W::Narrow>(), lane_max::<W::Narrow>()),
    {
        self.demote_to(a)
    }

    /// Demotion of a value known to be in range: the same as `demote_to`.
    pub fn demote_in_range_to<W: WideLane>(self, v: Vec1<W>) -> (r: Vec1<W::Narrow>)
        ensures
            lane_value(r.0) == clamp(lane_value(v.0), lane_min::<W::Narrow>(), lane_max::<W::Narrow>()),
    {
        self.demote_to(v)
    }

    /// Truncates `lo`; the single lane has no room for `hi`.
    pub fn ordered_truncate_2_to<W: WideLane>(self, lo: Vec1<W>, hi: Vec1<W>) -> (r: Vec1<W::Narrow>)
        ensures
            r.0.bits() == lo.0.bits() as int % <W::Narrow as LaneBits>::modulus(),
    {
        self.truncate_to(lo)
    }

    /// Promotes the lower half: the whole single-lane vector.
    pub fn promote_lower_to<N: NarrowLane>(self, v: Vec1<N>) -> (r: Vec1<N::Wide>)
        ensures
            lane_value(r.0) == lane_value(v.0),
    {
        self.promote_to(v)
    }

    /// Promotes the upper half: there is none, so the result is zero.
    pub fn promote_upper_to<N: NarrowLane>(self, v: Vec1<N>) -> (r: Vec1<N::Wide>)
        ensures
            r.0.bits() == 0,
    {
        self.zero()
    }

    /// The full-width product of the even lanes (lane 0).
    pub fn mul_even<T: NarrowLane>(self, a: Vec1<T>, b: Vec1<T>) -> (r: Vec1<T::Wide>)
        ensures
            lane_value(r.0) == lane_value(a.0) * lane_value(b.0),
    {
        let x = value_of(a.0);
        let y = value_of(b.0);
        proof {
            lemma_wide_product::<T>(x as int, y as int);
            T::Wide::lemma_lane_shape();
        }
        Vec1(from_value(x * y))
    }

    /// The full-width product of the odd lanes: there are none, so zero.
    pub fn mul_odd<T: NarrowLane>(self, a: Vec1<T>, b: Vec1<T>) -> (r: Vec1<T::Wide>)
        ensures
            r.0.bits() == 0,
    {
        self.zero()
    }

    /// Sums of adjacent pairs, widened: the single lane, widened.
    pub fn sums_of_2<T: NarrowLane>(self, v: Vec1<T>) -> (r: Vec1<T::Wide>)
        ensures
            lane_value(r.0) == lane_value(v.0),
    {
        self.promote_to(v)
    }

    /// Sums of groups of four, widened twice: the single lane, widened twice.
    pub fn sums_of_4<T: NarrowLane>(self, v: Vec1<T>) -> (r: Vec1<<T::Wide as NarrowLane>::Wide>) where
        T::Wide: NarrowLane,

        ensures
            lane_value(r.0) == lane_value(v.0),
    {
        let mid = self.sums_of_2(v);
        self.sums_of_2(mid)
    }

    /// `|a - b|` of the single byte, widened to 64 bits.
    pub fn sums_of_8_abs_diff(self, a: Vec1<u8>, b: Vec1<u8>) -> (r: Vec1<u64>)
        ensures
            r.0 == (if a.0 < b.0 { b.0 - a.0 } else { a.0 - b.0 }),
    {
        Vec1(if a.0 < b.0 { (b.0 - a.0) as u64 } else { (a.0 - b.0) as u64 })
    }

    /// The product of the single `i16` lanes, widened to `i32`.
    pub fn widen_mul_pairwise_add_i16(self, a: Vec1<i16>, b: Vec1<i16>) -> (r: Vec1<i32>)
        ensures
            r.0 == a.0 * b.0,
    {
        assert(-0x4000_0000 <= a.0 * b.0 <= 0x4000_0000) by (nonlinear_arith)
            requires
                -0x8000 <= a.0 <= 0x7fff,
                -0x8000 <= b.0 <= 0x7fff,
        ;
        Vec1((a.0 as i32) * (b.0 as i32))
    }

    /// The product of an unsigned and a signed byte, widened to `i16` (it always fits).
    pub fn sat_widen_mul_pairwise_add(self, a: Vec1<u8>, b: Vec1<i8>) -> (r: Vec1<i16>)
        ensures
            r.0 == a.0 * b.0,
    {
        assert(-0x8000 <= a.0 * b.0 <= 0x7fff) by (nonlinear_arith)
            requires
                0 <= a.0 <= 0xff,
                -0x80 <= b.0 <= 0x7f,
        ;
        Vec1((a.0 as i16) * (b.0 as i16))
    }

    /// `(a * b + 2^14) >> 15`, the rounded Q15 fixed-point product, kept to 16 bits.
    pub fn mul_fixed_point_15(self, a: Vec1<i16>, b: Vec1<i16>) -> (r: Vec1<i16>)
        ensures
            r.0 as int == ({
                let q = (a.0 * b.0 + 0x4000) / 0x8000;
                if q > 0x7fff { q - 0x1_0000 } else { q }
            }),
    {
        assert(-0x4000_0000 <= a.0 * b.0 <= 0x4000_0000) by (nonlinear_arith)
            requires
                -0x8000 <= a.0 <= 0x7fff,
                -0x8000 <= b.0 <= 0x7fff,
        ;
        let p = (a.0 as i32) * (b.0 as i32) + 16384;
        let q = p >> 15;
        proof {
            lemma_i32_shr15(p);
        }
        Vec1(wrap_i16(q))
    }

    /// `sum + a * b` with the product widened to `i32`.
    pub fn reorder_widen_mul_accumulate(self, a: Vec1<i16>, b: Vec1<i16>, sum: Vec1<i32>) -> (r: Vec1<i32>)
        requires
            i32::MIN <= sum.0 + a.0 * b.0 <= i32::MAX,
        ensures
            r.0 == sum.0 + a.0 * b.0,
    {
        assert(-0x4000_0000 <= a.0 * b.0 <= 0x4000_0000) by (nonlinear_arith)
            requires
                -0x8000 <= a.0 <= 0x7fff,
                -0x8000 <= b.0 <= 0x7fff,
        ;
        Vec1(sum.0 + (a.0 as i32) * (b.0 as i32))
    }

    // -----------------------------------------------------------------------
    // Comparisons
    // -----------------------------------------------------------------------

    /// Lane-wise `a == b`.
    pub fn eq<T: Lane>(self, a: Vec1<T>, b: Vec1<T>) -> (r: Mask1<T>)
        ensures
            r.is_true() == (a.0.bits() == b.0.bits()),
    {
        Mask1::from_bool(a.0.to_bits() == b.0.to_bits())
    }

    /// Lane-wise `a != b`.
    pub fn ne<T: Lane>(self, a: Vec1<T>, b: Vec1<T>) -> (r: Mask1<T>)
        ensures
            r.is_true() == (a.0.bits() != b.0.bits()),
    {
        Mask1::from_bool(a.0.to_bits() != b.0.to_bits())
    }

    /// Lane-wise `a < b`.
    pub fn lt<T: Lane>(self, a: Vec1<T>, b: Vec1<T>) -> (r: Mask1<T>)
        ensures
            r.is_true() == (lane_value(a.0) < lane_value(b.0)),
    {
        Mask1::from_bool(value_of(a.0) < value_of(b.0))
    }

    /// Lane-wise `a <= b`.
    pub fn le<T: Lane>(self, a: Vec1<T>, b: Vec1<T>) -> (r: Mask1<T>)
        ensures
            r.is_true() == (lane_value(a.0) <= lane_value(b.0)),
    {
        Mask1::from_bool(value_of(a.0) <= value_of(b.0))
    }

    /// Lane-wise `a > b`.
    pub fn gt<T: Lane>(self, a: Vec1<T>, b: Vec1<T>) -> (r: Mask1<T>)
        ensures
            r.is_true() == (lane_value(a.0) > lane_value(b.0)),
    {
        Mask1::from_bool(value_of(a.0) > value_of(b.0))
    }

    /// Lane-wise `a >= b`.
    pub fn ge<T: Lane>(self, a: Vec1<T>, b: Vec1<T>) -> (r: Mask1<T>)
        ensures
            r.is_true() == (lane_value(a.0) >= lane_value(b.0)),
    {
        Mask1::from_bool(value_of(a.0) >= value_of(b.0))
    }

    /// True where `v` and `bit` share a set bit.
    pub fn test_bit<T: Lane>(self, v: Vec1<T>, bit: Vec1<T>) -> (r: Mask1<T>)
        ensures
            r.is_true() == (v.0.bits() & bit.0.bits() != 0),
    {
        Mask1::from_bool(v.0.to_bits() & bit.0.to_bits() != 0)
    }

    // -----------------------------------------------------------------------
    // Masks
    // -----------------------------------------------------------------------

    /// True where the lane is non-zero.
    pub fn mask_from_vec<T: Lane>(self, v: Vec1<T>) -> (r: Mask1<T>)
        ensures
            r.is_true() == (v.0.bits() != 0),
    {
        Mask1::from_bool(v.0.to_bits() != 0)
    }

    /// The mask's bit pattern as a lane: all ones where true, zero where false.
    pub fn vec_from_mask<T: Lane>(self, m: Mask1<T>) -> (r: Vec1<T>)
        ensures
            r.0.bits() == m.0.bits(),
    {
        proof {
            T::lemma_unsigned_twin();
            T::Unsigned::lemma_bits_fit(m.0);
        }
        Vec1(T::from_bits(m.0.to_bits()))
    }

    /// The first `n` lanes true: the single lane is true when `n >= 1`.
    pub fn first_n<T: Lane>(self, n: usize) -> (r: Mask1<T>)
        ensures
            r.is_true() == (n >= 1),
    {
        Mask1::from_bool(n >= 1)
    }

    /// Number of true lanes.
    pub fn count_true<T: Lane>(self, m: Mask1<T>) -> (r: usize)
        ensures
            r == (if m.is_true() { 1usize } else { 0usize }),
    {
        if m.to_bool() {
            1
        } else {
            0
        }
    }

    /// Whether every lane is true.
    pub fn all_true<T: Lane>(self, m: Mask1<T>) -> (r: bool)
        ensures
            r == m.is_true(),
    {
        m.to_bool()
    }

    /// Whether every lane is false.
    pub fn all_false<T: Lane>(self, m: Mask1<T>) -> (r: bool)
        ensures
            r == !m.is_true(),
    {
        !m.to_bool()
    }

    /// The index of the first true lane, if any.
    pub fn find_first_true<T: Lane>(self, m: Mask1<T>) -> (r: Option<usize>)
        ensures
            r == (if m.is_true() { Some(0usize) } else { None }),
    {
        if m.to_bool() {
            Some(0)
        } else {
            None
        }
    }

    /// The index of the last true lane, if any.
    pub fn find_last_true<T: Lane>(self, m: Mask1<T>) -> (r: Option<usize>)
        ensures
            r == (if m.is_true() { Some(0usize) } else { None }),
    {
        if m.to_bool() {
            Some(0)
        } else {
            None
        }
    }

    /// `yes` where the mask is true, else `no`.
    pub fn if_then_else<T: Lane>(self, mask: Mask1<T>, yes: Vec1<T>, no: Vec1<T>) -> (r: Vec1<T>)
        ensures
            r == (if mask.is_true() { yes } else { no }),
    {
        if mask.to_bool() {
            yes
        } else {
            no
        }
    }

    /// `yes` where the mask is true, else zero.
    pub fn if_then_else_zero<T: Lane>(self, mask: Mask1<T>, yes: Vec1<T>) -> (r: Vec1<T>)
        ensures
            mask.is_true() ==> r == yes,
            !mask.is_true() ==> r.0.bits() == 0,
    {
        if mask.to_bool() {
            yes
        } else {
            self.zero()
        }
    }

    /// Zero where the mask is true, else `no`.
    pub fn if_then_zero_else<T: Lane>(self, mask: Mask1<T>, no: Vec1<T>) -> (r: Vec1<T>)
        ensures
            mask.is_true() ==> r.0.bits() == 0,
            !mask.is_true() ==> r == no,
    {
        if mask.to_bool() {
            self.zero()
        } else {
            no
        }
    }

    /// True where both masks are true.
    pub fn and_mask<T: Lane>(self, a: Mask1<T>, b: Mask1<T>) -> (r: Mask1<T>)
        ensures
            r.is_true() == (a.is_true() && b.is_true()),
    {
        Mask1::from_bool(a.to_bool() && b.to_bool())
    }

    /// True where either mask is true.
    pub fn or_mask<T: Lane>(self, a: Mask1<T>, b: Mask1<T>) -> (r: Mask1<T>)
        ensures
            r.is_true() == (a.is_true() || b.is_true()),
    {
        Mask1::from_bool(a.to_bool() || b.to_bool())
    }

    /// True where the mask is false.
    pub fn not_mask<T: Lane>(self, m: Mask1<T>) -> (r: Mask1<T>)
        ensures
            r.is_true() == !m.is_true(),
    {
        Mask1::from_bool(!m.to_bool())
    }

    /// True where exactly one of the masks is true.
    pub fn xor_mask<T: Lane>(self, a: Mask1<T>, b: Mask1<T>) -> (r: Mask1<T>)
        ensures
            r.is_true() == (a.is_true() != b.is_true()),
    {
        Mask1::from_bool(a.to_bool() ^ b.to_bool())
    }

    /// One bit per lane, lane `i` in bit `i`.
    pub fn bits_from_mask<T: Lane>(self, m: Mask1<T>) -> (r: u64)
        ensures
            r == (if m.is_true() { 1u64 } else { 0u64 }),
    {
        if m.to_bool() {
            1
        } else {
            0
        }
    }

    /// True only where neither mask is true.
    pub fn exclusive_neither<T: Lane>(self, a: Mask1<T>, b: Mask1<T>) -> (r: Mask1<T>)
        ensures
            r.is_true() == (!a.is_true() && !b.is_true()),
    {
        // NOR: true only where neither a nor b is set.
        Mask1::from_bool(!a.to_bool() && !b.to_bool())
    }

    /// Each lane takes the value of the lane below it; the single lane becomes false.
    pub fn slide_mask_1_up<T: Lane>(self, mask: Mask1<T>) -> (r: Mask1<T>)
        ensures
            !r.is_true(),
    {
        Mask1::from_bool(false)
    }

    /// Each lane takes the value of the lane above it; the single lane becomes false.
    pub fn slide_mask_1_down<T: Lane>(self, mask: Mask1<T>) -> (r: Mask1<T>)
        ensures
            !r.is_true(),
    {
        Mask1::from_bool(false)
    }

    /// `yes` where the lane's sign bit is set, else `no`.
    pub fn if_negative_then_else<T: Lane>(self, v: Vec1<T>, yes: Vec1<T>, no: Vec1<T>) -> (r: Vec1<
        T,
    >)
        ensures
            r == (if sign_bit_set(v.0) { yes } else { no }),
    {
        if is_negative_bits(v) {
            yes
        } else {
            no
        }
    }

    /// `yes` where the lane's sign bit is set, else zero.
    pub fn if_negative_then_else_zero<T: Lane>(self, v: Vec1<T>, yes: Vec1<T>) -> (r: Vec1<T>)
        ensures
            sign_bit_set(v.0) ==> r == yes,
            !sign_bit_set(v.0) ==> r.0.bits() == 0,
    {
        if is_negative_bits(v) {
            yes
        } else {
            self.zero()
        }
    }

    /// Zero where the lane's sign bit is set, else `no`.
    pub fn if_negative_then_zero_else<T: Lane>(self, v: Vec1<T>, no: Vec1<T>) -> (r: Vec1<T>)
        ensures
            sign_bit_set(v.0) ==> r.0.bits() == 0,
            !sign_bit_set(v.0) ==> r == no,
    {
        if is_negative_bits(v) {
            self.zero()
        } else {
            no
        }
    }

    // -----------------------------------------------------------------------
    // Shuffles: with a single lane, most are identities or give zero
    // -----------------------------------------------------------------------

    /// Lanes in reverse order: the single lane.
    pub fn reverse<T: Lane>(self, v: Vec1<T>) -> (r: Vec1<T>)
        ensures
            r == v,
    {
        v
    }

    /// Lane `IDX`, which must be 0, in every lane.
    pub fn broadcast_lane<T: Lane, const IDX: usize>(self, v: Vec1<T>) -> (r: Vec1<T>)
        requires
            IDX == 0,
        ensures
            r == v,
    {
        v
    }

    /// Interleaves the lower halves: lane 0 comes from `a`.
    pub fn interleave_lower<T: Lane>(self, a: Vec1<T>, b: Vec1<T>) -> (r: Vec1<T>)
        ensures
            r == a,
    {
        a
    }

    /// Interleaves the upper halves: lane 0 comes from `b`.
    pub fn interleave_upper<T: Lane>(self, a: Vec1<T>, b: Vec1<T>) -> (r: Vec1<T>)
        ensures
            r == b,
    {
        b
    }

    /// Lane `idx` of `table`: the single lane.
    pub fn table_lookup_lanes<T: Lane, I: Lane>(self, v: Vec1<T>, idx: Vec1<I>) -> (r: Vec1<T>)
        ensures
            r == v,
    {
        v
    }

    /// Lanes moved up by `n`; zero once `n > 0`.
    pub fn slide_up_lanes<T: Lane>(self, v: Vec1<T>, n: usize) -> (r: Vec1<T>)
        ensures
            n > 0 ==> r.0.bits() == 0,
            n == 0 ==> r == v,
    {
        if n > 0 {
            self.zero()
        } else {
            v
        }
    }

    /// Lanes moved down by `n`; zero once `n > 0`.
    pub fn slide_down_lanes<T: Lane>(self, v: Vec1<T>, n: usize) -> (r: Vec1<T>)
        ensures
            n > 0 ==> r.0.bits() == 0,
            n == 0 ==> r == v,
    {
        if n > 0 {
            self.zero()
        } else {
            v
        }
    }

    /// The lanes selected by the mask, packed to the front; the rest zero.
    pub fn compress<T: Lane>(self, v: Vec1<T>, mask: Mask1<T>) -> (r: Vec1<T>)
        ensures
            mask.is_true() ==> r == v,
            !mask.is_true() ==> r.0.bits() == 0,
    {
        if mask.to_bool() {
            v
        } else {
            self.zero()
        }
    }

    /// The lanes not selected by the mask, packed to the front; the rest zero.
    pub fn compress_not<T: Lane>(self, v: Vec1<T>, mask: Mask1<T>) -> (r: Vec1<T>)
        ensures
            !mask.is_true() ==> r == v,
            mask.is_true() ==> r.0.bits() == 0,
    {
        self.compress(v, self.not_mask(mask))
    }

    /// The first lanes of `v` placed at the positions selected by the mask; the
    /// rest zero.
    pub fn expand<T: Lane>(self, v: Vec1<T>, mask: Mask1<T>) -> (r: Vec1<T>)
        ensures
            mask.is_true() ==> r == v,
            !mask.is_true() ==> r.0.bits() == 0,
    {
        if mask.to_bool() {
            v
        } else {
            self.zero()
        }
    }

    /// `compress` with the mask given as bits, lane `i` in bit `i` of `bits`.
    pub fn compress_bits<T: Lane>(self, v: Vec1<T>, bits: u8) -> (r: Vec1<T>)
        ensures
            bits & 1 != 0 ==> r == v,
            bits & 1 == 0 ==> r.0.bits() == 0,
    {
        if bits & 1 != 0 {
            v
        } else {
            self.zero()
        }
    }

    /// Even lanes duplicated into the odd lanes: the single (even) lane.
    pub fn dup_even<T: Lane>(self, v: Vec1<T>) -> (r: Vec1<T>)
        ensures
            r == v,
    {
        v
    }

    /// Odd lanes duplicated into the even lanes: there are none, so zero.
    pub fn dup_odd<T: Lane>(self, v: Vec1<T>) -> (r: Vec1<T>)
        ensures
            r.0.bits() == 0,
    {
        self.zero()
    }

    /// Upper half of `hi` and upper half of `lo`: both empty, so zero.
    pub fn concat_upper_upper<T: Lane>(self, hi: Vec1<T>, lo: Vec1<T>) -> (r: Vec1<T>)
        ensures
            r.0.bits() == 0,
    {
        self.zero()
    }

    /// Lower half of `hi` and lower half of `lo`: the single lane of `lo`.
    pub fn concat_lower_lower<T: Lane>(self, hi: Vec1<T>, lo: Vec1<T>) -> (r: Vec1<T>)
        ensures
            r == lo,
    {
        lo
    }

    /// Lanes moved up by one: lane 0 becomes zero.
    pub fn slide_1_up<T: Lane>(self, v: Vec1<T>) -> (r: Vec1<T>)
        ensures
            r.0.bits() == 0,
    {
        self.zero()
    }

    /// Lanes moved down by one: lane 0 takes the missing lane 1, zero.
    pub fn slide_1_down<T: Lane>(self, v: Vec1<T>) -> (r: Vec1<T>)
        ensures
            r.0.bits() == 0,
    {
        self.zero()
    }

    /// The lower half: the whole single-lane vector.
    pub fn lower_half<T: Lane>(self, v: Vec1<T>) -> (r: Vec1<T>)
        ensures
            r == v,
    {
        v
    }

    /// The upper half: empty, so zero.
    pub fn upper_half<T: Lane>(self, v: Vec1<T>) -> (r: Vec1<T>)
        ensures
            r.0.bits() == 0,
    {
        self.zero()
    }

    /// `lo` and `hi` joined: only `lo` fits.
    pub fn combine<T: Lane>(self, lo: Vec1<T>, hi: Vec1<T>) -> (r: Vec1<T>)
        ensures
            r == lo,
    {
        lo
    }

    /// Lane `0` from `a` if the index in `idx` is 0, else from `b`.
    pub fn two_tables_lookup_lanes<T: Lane, I: Lane>(self, a: Vec1<T>, b: Vec1<T>, idx: Vec1<I>) -> (r: Vec1<T>)
        ensures
            r == (if idx.0.bits() == 0 { a } else { b }),
    {
        if idx.0.to_bits() == 0 {
            a
        } else {
            b
        }
    }

    /// Lane `idx` of `v`, or zero where the index is out of range (negative or past
    /// the single lane).
    pub fn table_lookup_lanes_or0<T: Lane, I: Lane>(self, v: Vec1<T>, idx: Vec1<I>) -> (r: Vec1<T>)
        ensures
            lane_value(idx.0) == 0 ==> r == v,
            lane_value(idx.0) != 0 ==> r.0.bits() == 0,
    {
        if value_of(idx.0) == 0 {
            v
        } else {
            self.zero()
        }
    }

    /// Zips the lower halves: lane 0 comes from `a`.
    pub fn zip_lower<T: Lane>(self, a: Vec1<T>, b: Vec1<T>) -> (r: Vec1<T>)
        ensures
            r == a,
    {
        a
    }

    /// Zips the upper halves: lane 0 comes from `b`.
    pub fn zip_upper<T: Lane>(self, a: Vec1<T>, b: Vec1<T>) -> (r: Vec1<T>)
        ensures
            r == b,
    {
        b
    }

    /// Byte table lookup: the single lane of `table`.
    pub fn table_lookup_bytes<T: Lane>(self, table: Vec1<T>, idx: Vec1<T>) -> (r: Vec1<T>)
        ensures
            r == table,
    {
        table
    }

    /// Reverses lanes within pairs: the single lane.
    pub fn reverse2<T: Lane>(self, v: Vec1<T>) -> (r: Vec1<T>)
        ensures
            r == v,
    {
        v
    }

    /// Reverses lanes within groups of four: the single lane.
    pub fn reverse4<T: Lane>(self, v: Vec1<T>) -> (r: Vec1<T>)
        ensures
            r == v,
    {
        v
    }

    /// Reverses lanes within groups of eight: the single lane.
    pub fn reverse8<T: Lane>(self, v: Vec1<T>) -> (r: Vec1<T>)
        ensures
            r == v,
    {
        v
    }

    /// Upper half of `hi` then lower half of `lo`: the single lane of `hi`.
    pub fn concat_upper_lower<T: Lane>(self, hi: Vec1<T>, lo: Vec1<T>) -> (r: Vec1<T>)
        ensures
            r == hi,
    {
        hi
    }

    /// Lower half of `hi` then upper half of `lo`: the single lane of `hi`.
    pub fn concat_lower_upper<T: Lane>(self, hi: Vec1<T>, lo: Vec1<T>) -> (r: Vec1<T>)
        ensures
            r == hi,
    {
        hi
    }

    /// The even lanes of `a` and `b`: lane 0 of `a`.
    pub fn concat_even<T: Lane>(self, a: Vec1<T>, b: Vec1<T>) -> (r: Vec1<T>)
        ensures
            r == a,
    {
        a
    }

    /// The odd lanes of `a` and `b`: there are none, so `b`.
    pub fn concat_odd<T: Lane>(self, a: Vec1<T>, b: Vec1<T>) -> (r: Vec1<T>)
        ensures
            r == b,
    {
        b
    }

    /// Odd lanes from `odd`, even lanes from `even`: lane 0 is even.
    pub fn odd_even<T: Lane>(self, odd: Vec1<T>, even: Vec1<T>) -> (r: Vec1<T>)
        ensures
            r == even,
    {
        even
    }

    /// Odd blocks from `odd`, even blocks from `even`: block 0 is even.
    pub fn odd_even_blocks<T: Lane>(self, odd: Vec1<T>, even: Vec1<T>) -> (r: Vec1<T>)
        ensures
            r == even,
    {
        even
    }

    /// Blocks in reverse order: the single block.
    pub fn reverse_blocks<T: Lane>(self, v: Vec1<T>) -> (r: Vec1<T>)
        ensures
            r == v,
    {
        v
    }

    /// Interleaves the whole lower halves: lane 0 comes from `a`.
    pub fn interleave_whole_lower<T: Lane>(self, a: Vec1<T>, b: Vec1<T>) -> (r: Vec1<T>)
        ensures
            r == a,
    {
        a
    }

    /// Interleaves the whole upper halves: lane 0 comes from `b`.
    pub fn interleave_whole_upper<T: Lane>(self, a: Vec1<T>, b: Vec1<T>) -> (r: Vec1<T>)
        ensures
            r == b,
    {
        b
    }

    /// Even lanes of `a` with even lanes of `b`: lane 0 of `a`.
    pub fn interleave_even<T: Lane>(self, a: Vec1<T>, b: Vec1<T>) -> (r: Vec1<T>)
        ensures
            r == a,
    {
        a
    }

    /// Odd lanes of `a` with odd lanes of `b`: lane 0 taken from `b`.
    pub fn interleave_odd<T: Lane>(self, a: Vec1<T>, b: Vec1<T>) -> (r: Vec1<T>)
        ensures
            r == b,
    {
        b
    }

    /// Compresses whole blocks whose mask is false: the single block.
    pub fn compress_blocks_not(self, v: Vec1<u64>, mask: Mask1<u64>) -> (r: Vec1<u64>)
        ensures
            r == v,
    {
        v
    }

    /// Block `IDX`, which must be 0, in every block.
    pub fn broadcast_block<T: Lane, const IDX: usize>(self, v: Vec1<T>) -> (r: Vec1<T>)
        requires
            IDX == 0,
        ensures
            r == v,
    {
        v
    }

    /// `v` with block `IDX` replaced by `blk`: the single block is `blk`.
    pub fn insert_block<T: Lane, const IDX: usize>(self, v: Vec1<T>, blk: Vec1<T>) -> (r: Vec1<T>)
        ensures
            r == blk,
    {
        blk
    }

    /// Block `IDX` of `v`: the single block.
    pub fn extract_block<T: Lane, const IDX: usize>(self, v: Vec1<T>) -> (r: Vec1<T>)
        ensures
            r == v,
    {
        v
    }

    // -----------------------------------------------------------------------
    // Reductions
    // -----------------------------------------------------------------------

    /// Sum of all lanes: the single lane.
    pub fn sum_of_lanes<T: Lane>(self, v: Vec1<T>) -> (r: T)
        ensures
            r == v.0,
    {
        v.0
    }

    /// Minimum of all lanes: the single lane.
    pub fn min_of_lanes<T: Lane>(self, v: Vec1<T>) -> (r: T)
        ensures
            r == v.0,
    {
        v.0
    }

    /// Maximum of all lanes: the single lane.
    pub fn max_of_lanes<T: Lane>(self, v: Vec1<T>) -> (r: T)
        ensures
            r == v.0,
    {
        v.0
    }
}

/// Floor division of a negative `p` by a positive `m`, computed on magnitudes.
proof fn lemma_floor_div(p: int, m: int)
    requires
        m > 0,
    ensures
        p < 0 ==> -((-p + m - 1) / m) == p / m,
{
    if p < 0 {
        assert(-((-p + m - 1) / m) == p / m) by (nonlinear_arith)
            requires
                m > 0,
                p < 0,
        ;
    }
}

/// The high half of a product of two lane values is a lane value.
proof fn lemma_product_high_fits<T: LaneBits>(x: int, y: int)
    requires
        lane_min::<T>() <= x <= lane_max::<T>(),
        lane_min::<T>() <= y <= lane_max::<T>(),
    ensures
        lane_min::<T>() <= (x * y) / T::modulus() <= lane_max::<T>(),
{
    T::lemma_lane_shape();
    let m = T::modulus();
    if T::is_signed() {
        let h = m / 2;
        assert(m == 2 * h);
        assert(-h <= (x * y) / m <= h - 1) by (nonlinear_arith)
            requires
                m == 2 * h,
                h >= 128,
                -h <= x <= h - 1,
                -h <= y <= h - 1,
        ;
    } else {
        assert(0 <= (x * y) / m <= m - 1) by (nonlinear_arith)
            requires
                m >= 256,
                0 <= x <= m - 1,
                0 <= y <= m - 1,
        ;
    }
}

/// The wide twin's range contains the narrow type's range.
proof fn lemma_wide_range<N: NarrowLane>()
    ensures
        lane_min::<N::Wide>() <= lane_min::<N>(),
        lane_max::<N>() <= lane_max::<N::Wide>(),
{
    N::lemma_lane_shape();
    N::lemma_wide_twin();
}

/// A product of two values of a narrow type is a value of its wide twin.
proof fn lemma_wide_product<N: NarrowLane>(x: int, y: int)
    requires
        lane_min::<N>() <= x <= lane_max::<N>(),
        lane_min::<N>() <= y <= lane_max::<N>(),
    ensures
        lane_min::<N::Wide>() <= x * y <= lane_max::<N::Wide>(),
{
    N::lemma_lane_shape();
    N::lemma_wide_twin();
    let m = N::modulus();
    if N::is_signed() {
        let h = m / 2;
        assert(m == 2 * h);
        assert(-(2 * h * h) <= x * y <= 2 * h * h - 1) by (nonlinear_arith)
            requires
                h >= 128,
                -h <= x <= h - 1,
                -h <= y <= h - 1,
        ;
        assert(m * m == 4 * h * h) by (nonlinear_arith)
            requires
                m == 2 * h,
        ;
    } else {
        assert(0 <= x * y <= m * m - 1) by (nonlinear_arith)
            requires
                m >= 256,
                0 <= x <= m - 1,
                0 <= y <= m - 1,
        ;
    }
}

proof fn lemma_i32_shr15(p: i32) by (bit_vector)
    ensures
        (p >> 15i32) as int == p as int / 0x8000,
{
}

/// The low 16 bits of `q` read as an `i16`, for `q` in `[-2^15, 2^15]`.
fn wrap_i16(q: i32) -> (r: i16)
    requires
        -0x8000 <= q <= 0x8000,
    ensures
        r as int == (if q > 0x7fff { q - 0x1_0000 } else { q as int }),
{
    if q > 0x7fff {
        -0x8000
    } else {
        q as i16
    }
}

proof fn lemma_count_set_bits_bound(x: u64, n: nat)
    ensures
        count_set_bits(x, n) <= n,
    decreases n,
{
    if n > 0 {
        lemma_count_set_bits_bound(x, (n - 1) as nat);
    }
}

proof fn lemma_high_bit_fits(b: u64, j: u64, ones: u64) by (bit_vector)
    requires
        b <= ones,
        ones == 0xff || ones == 0xffff || ones == 0xffff_ffff || ones == 0xffff_ffff_ffff_ffff,
        j < 64,
        (b >> j) & 1u64 != 0u64,
    ensures
        ones == 0xff ==> j < 8,
        ones == 0xffff ==> j < 16,
        ones == 0xffff_ffff ==> j < 32,
{
}

// ---------------------------------------------------------------------------
// Laws of the scalar backend
// ---------------------------------------------------------------------------

/// A mask built by `from_bool(b)` converts back to `b` with `to_bool`.
pub proof fn lemma_mask_bool_roundtrip<T: Lane>(m: Mask1<T>, b: bool)
    requires
        m.0.bits() == (if b { T::modulus() - 1 } else { 0 }),
    ensures
        m.is_true() == b,
{
    T::lemma_lane_shape();
}

/// Wrapping subtraction undoes wrapping addition: `sub(add(a, b), b) == a`.
pub proof fn lemma_add_sub_inverse<T: Lane>(a: T, b: T)
    ensures
        ((a.bits() + b.bits()) % T::modulus() - b.bits()) % T::modulus() == a.bits(),
{
    T::lemma_lane_shape();
    T::lemma_bits_fit(a);
    T::lemma_bits_fit(b);
    let m = T::modulus();
    let x = a.bits() as int;
    let y = b.bits() as int;
    assert(((x + y) % m - y) % m == x) by (nonlinear_arith)
        requires
            m > 0,
            0 <= x < m,
            0 <= y < m,
    ;
}

/// Wrapping negation is its own inverse: `neg(neg(a)) == a`.
pub proof fn lemma_neg_twice<T: Lane>(a: T)
    ensures
        (-((-a.bits()) % T::modulus())) % T::modulus() == a.bits(),
{
    T::lemma_lane_shape();
    T::lemma_bits_fit(a);
    let m = T::modulus();
    let x = a.bits() as int;
    assert((-((-x) % m)) % m == x) by (nonlinear_arith)
        requires
            m > 0,
            0 <= x < m,
    ;
}

/// A lane's bit pattern is its value modulo `2^width`.
pub proof fn lemma_bits_are_value_mod<T: LaneBits>(x: T)
    ensures
        x.bits() == lane_value(x) % T::modulus(),
{
    T::lemma_lane_shape();
    T::lemma_bits_fit(x);
    let m = T::modulus();
    let v = lane_value(x);
    assert(v == x.bits() || v == x.bits() - m);
    assert(x.bits() == v % m) by (nonlinear_arith)
        requires
            m > 0,
            0 <= x.bits() < m,
            v == x.bits() || v == x.bits() - m,
    ;
}

/// Where the exact sum is in range, saturating addition agrees with wrapping
/// addition: `saturated_add(a, b) == add(a, b)`.
pub proof fn lemma_saturated_add_agrees_in_range<T: Lane>(a: T, b: T, r: T)
    requires
        lane_min::<T>() <= lane_value(a) + lane_value(b) <= lane_max::<T>(),
        lane_value(r) == clamp(lane_value(a) + lane_value(b), lane_min::<T>(), lane_max::<T>()),
    ensures
        r.bits() == (a.bits() + b.bits()) % T::modulus(),
{
    T::lemma_lane_shape();
    lemma_bits_are_value_mod(a);
    lemma_bits_are_value_mod(b);
    lemma_bits_are_value_mod(r);
    let m = T::modulus();
    let va = lane_value(a);
    let vb = lane_value(b);
    lemma_add_mod_noop(va, vb, m);
}

/// Demoting a promoted lane gives back its value: `demote_to(promote_to(v))` has the
/// value of `v`.
pub proof fn lemma_demote_promote<N: NarrowLane>(v: N)
    ensures
        clamp(lane_value(v), lane_min::<N>(), lane_max::<N>()) == lane_value(v),
{
    lemma_value_range(v);
}

/// Loading from memory just stored to gives the stored lane back:
/// `load(store(v, mem)) == v`.
pub proof fn lemma_load_after_store<T>(mem: Seq<T>, v: T)
    requires
        mem.len() >= 1,
    ensures
        mem.update(0, v)[0] == v,
{
}

/// Gathering from the index just scattered to gives the scattered lane back.
pub proof fn lemma_gather_after_scatter<T>(base: Seq<T>, v: T, i: int)
    requires
        0 <= i < base.len(),
    ensures
        base.update(i, v)[i] == v,
{
}

/// An interleaved load of what an interleaved store wrote gives back the
/// stored vectors, for two, three and four vectors.
pub proof fn lemma_load_interleaved_after_store<T>(mem: Seq<T>, v0: T, v1: T, v2: T, v3: T)
    requires
        mem.len() >= 4,
    ensures
        ({
            let m = mem.update(0, v0).update(1, v1);
            m[0] == v0 && m[1] == v1
        }),
        ({
            let m = mem.update(0, v0).update(1, v1).update(2, v2);
            m[0] == v0 && m[1] == v1 && m[2] == v2
        }),
        ({
            let m = mem.update(0, v0).update(1, v1).update(2, v2).update(3, v3);
            m[0] == v0 && m[1] == v1 && m[2] == v2 && m[3] == v3
        }),
{
}

/// Xor with the same lane twice gives back the first operand:
/// `xor(xor(a, b), b) == a`.
pub proof fn lemma_xor_twice(a: u64, b: u64)
    by (bit_vector)
    ensures
        (a ^ b) ^ b == a,
{
}

/// Negating twice within the lane width gives back the lane: `not(not(v)) == v`.
pub proof fn lemma_not_twice<T: LaneBits>(v: T)
    ensures
        !(!v.bits() & ((T::modulus() - 1) as u64)) & ((T::modulus() - 1) as u64) == v.bits(),
{
    T::lemma_lane_shape();
    T::lemma_bits_fit(v);
    lemma_not_twice_bits(v.bits(), (T::modulus() - 1) as u64);
}

proof fn lemma_not_twice_bits(x: u64, m: u64)
    by (bit_vector)
    requires
        m == 0xff || m == 0xffff || m == 0xffff_ffff || m == 0xffff_ffff_ffff_ffff,
        x <= m,
    ensures
        !(!x & m) & m == x,
{
}

/// The sign fill of an arithmetic shift sits above the shifted bits, so or-ing
/// it in adds it.
proof fn lemma_sign_fill(x: u64, s: u64, ones: u64)
    by (bit_vector)
    requires
        ones == 0xff || ones == 0xffff || ones == 0xffff_ffff || ones == 0xffff_ffff_ffff_ffff,
        s < 64,
        x <= ones >> s,
    ensures
        ones >> s <= ones,
        x | (ones ^ (ones >> s)) == x + (ones - (ones >> s)),
{
}

/// Shifting right by `s` divides the lane's value by `2^s`, rounding down: a
/// signed lane is filled with copies of its sign bit, so a negative value stays
/// negative and a non-negative one shifts as an unsigned one does.
pub proof fn lemma_shift_right_divides<T: LaneBits>(b: u64, s: int)
    requires
        (b as int) < T::modulus(),
        0 <= s < T::width(),
    ensures
        value_of_bits::<T>(shr_bits::<T>(b, s) as int) == value_of_bits::<T>(b as int) / (pow2(
            s as nat,
        ) as int),
{
    T::lemma_lane_shape();
    lemma2_to64();
    lemma2_to64_rest();
    let w = T::width();
    let m = T::modulus();
    let d = pow2(s as nat) as int;
    let e = pow2((w - s) as nat) as int;
    lemma_pow2_adds((w - s) as nat, s as nat);
    assert(((w - s) + s) as nat == w);
    assert(pow2(w) == m);
    lemma_pow2_pos(s as nat);
    lemma_pow2_pos((w - s) as nat);
    assert(e * d == m);
    let ones = (m - 1) as u64;
    assert(ones as int == m - 1);
    let su = s as u64;
    lemma_u64_shr_is_div(b, su);
    lemma_u64_shr_is_div(ones, su);
    let q = b as int / d;
    vstd::arithmetic::div_mod::lemma_fundamental_div_mod(b as int, d);
    assert(ones as int == (e - 1) * d + (d - 1)) by (nonlinear_arith)
        requires
            ones as int == m - 1,
            e * d == m,
    ;
    vstd::arithmetic::div_mod::lemma_fundamental_div_mod_converse(ones as int, d, e - 1, d - 1);
    vstd::arithmetic::div_mod::lemma_div_is_ordered(b as int, ones as int, d);
    assert(b >> su == q);
    assert(ones >> su == e - 1);
    let r = shr_bits::<T>(b, s);
    if T::is_signed() && 2 * (b as int) >= m {
        lemma_sign_fill(b >> su, su, ones);
        assert(r as int == q + m - e);
        let bm = b as int % d;
        assert(b as int == d * q + bm);
        if d == 1 {
            assert(q == b) by (nonlinear_arith)
                requires
                    b as int == d * q + bm,
                    0 <= bm < d,
                    d == 1,
            ;
            assert(e == m);
        } else {
            assert(2 * (r as int) >= m) by (nonlinear_arith)
                requires
                    2 * (b as int) >= e * d,
                    b as int == d * q + bm,
                    0 <= bm < d,
                    d >= 2,
                    e >= 1,
                    m == e * d,
                    r as int == q + m - e,
            ;
        }
        assert(r as int - m == q - e);
        assert(b as int - m == (q - e) * d + bm) by (nonlinear_arith)
            requires
                b as int == d * q + bm,
                m == e * d,
        ;
        vstd::arithmetic::div_mod::lemma_fundamental_div_mod_converse(b as int - m, d, q - e, bm);
    } else {
        assert(r == b >> su);
        assert(q <= b) by (nonlinear_arith)
            requires
                b as int == d * q + b as int % d,
                0 <= b as int % d,
                d >= 1,
                q >= 0,
        ;
    }
}

proof fn lemma_rotr_inverse_bits(b: u64, s: u64, w: u64) by (bit_vector)
    requires
        w == 8 || w == 16 || w == 32 || w == 64,
        0 < s < w,
        w == 64 || b < (1u64 << w),
    ensures
        ((((b >> s) | (b << ((w - s) as u64))) & (if w == 64 { 0xffff_ffff_ffff_ffffu64 } else { ((1u64 << w) - 1) as u64 })) >> ((w - s) as u64)
            | ((((b >> s) | (b << ((w - s) as u64))) & (if w == 64 { 0xffff_ffff_ffff_ffffu64 } else { ((1u64 << w) - 1) as u64 })) << s))
            & (if w == 64 { 0xffff_ffff_ffff_ffffu64 } else { ((1u64 << w) - 1) as u64 }) == b,
{
}

/// Rotating left by `s` undoes rotating right by `s`:
/// `rotate_left::<S>(rotate_right::<S>(v)) == v`.
pub proof fn lemma_rotate_inverse<T: LaneBits>(x: T, s: int)
    requires
        0 <= s < T::width(),
    ensures
        rotr_bits::<T>(rotr_bits::<T>(x.bits(), s), (T::width() - s) % T::width() as int) == x.bits(),
{
    T::lemma_lane_shape();
    T::lemma_bits_fit(x);
    if s != 0 {
        let w = T::width() as u64;
        assert((T::width() - s) % T::width() as int == T::width() - s);
        lemma_width_shifts();
        lemma_rotr_inverse_bits(x.bits(), s as u64, w);
        assert(T::width() - (T::width() - s) == s);
    }
}

/// Byte `i` (bits `8i .. 8i + 8`) of `x`.
pub open spec fn lane_byte(x: u64, i: u64) -> u64 {
    (x >> (8 * i)) & 0xff
}

proof fn lemma_zero_bits(k: u64, w: u64) by (bit_vector)
    ensures
        !lane_is_set(0u64, k),
        lane_byte(0u64, k) == 0,
        w < 64 ==> 0u64 < (1u64 << w),
{
}

proof fn lemma_set_bit(x: u64, t: u64, k: u64) by (bit_vector)
    requires
        t < 64,
        k < 64,
    ensures
        lane_is_set(x | (1u64 << t), k) <==> (lane_is_set(x, k) || k == t),
{
}

proof fn lemma_set_bit_below(x: u64, t: u64, w: u64) by (bit_vector)
    requires
        t < w,
        w < 64,
        x < (1u64 << w),
    ensures
        x | (1u64 << t) < (1u64 << w),
{
}

proof fn lemma_set_byte(x: u64, y: u64, t: u64, k: u64) by (bit_vector)
    requires
        y <= 0xff,
        t < 8,
        k < 8,
        lane_byte(x, t) == 0,
    ensures
        lane_byte(x | (y << (8 * t)), k) == (if k == t { y } else { lane_byte(x, k) }),
{
}

proof fn lemma_set_byte_below(x: u64, y: u64, t: u64, n: u64) by (bit_vector)
    requires
        y <= 0xff,
        t < n,
        n < 8,
        x < (1u64 << (8 * n)),
    ensures
        x | (y << (8 * t)) < (1u64 << (8 * n)),
{
}

pub(crate) proof fn lemma_width_shifts() by (bit_vector)
    ensures
        (1u64 << 8u64) == 0x100u64,
        (1u64 << 16u64) == 0x1_0000u64,
        (1u64 << 32u64) == 0x1_0000_0000u64,
{
}

} // verus!
