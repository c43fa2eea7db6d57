//! Lane types: the fixed-width integers that a vector lane holds, seen through
//! their bit patterns.
use vstd::prelude::*;
use vstd::arithmetic::div_mod::{lemma_mod_mod, lemma_mod_multiples_vanish};

verus! {

/// A fixed-width integer seen through its bit pattern.
pub trait LaneBits: Copy + Sized {
    /// Width in bits: 8, 16, 32 or 64.
    spec fn width() -> nat;

    /// `2^width`, the number of distinct bit patterns.
    spec fn modulus() -> int;

    /// Whether the type holds a two's-complement signed integer.
    spec fn is_signed() -> bool;

    /// The bit pattern, zero-extended to 64 bits.
    spec fn bits(self) -> u64;

    /// The shape of the type: its width and the matching modulus.
    proof fn lemma_lane_shape()
        ensures
            (Self::width() == 8 && Self::modulus() == 0x100) || (Self::width() == 16
                && Self::modulus() == 0x1_0000) || (Self::width() == 32 && Self::modulus()
                == 0x1_0000_0000) || (Self::width() == 64 && Self::modulus()
                == 0x1_0000_0000_0000_0000),
    ;

    /// A bit pattern always fits the width.
    proof fn lemma_bits_fit(x: Self)
        ensures
            (x.bits() as int) < Self::modulus(),
    ;

    /// Size in bytes.
    fn lane_bytes() -> (r: usize)
        ensures
            r * 8 == Self::width(),
    ;

    /// Whether the type is signed.
    fn signed() -> (r: bool)
        ensures
            r == Self::is_signed(),
    ;

    /// The bit pattern of `self`.
    fn to_bits(self) -> (r: u64)
        ensures
            r == self.bits(),
    ;

    /// The value with bit pattern `b`.
    fn from_bits(b: u64) -> (r: Self)
        requires
            (b as int) < Self::modulus(),
        ensures
            r.bits() == b,
    ;
}

/// An integer type that a vector lane can hold, with its unsigned twin, in which
/// masks for such lanes are stored.
pub trait Lane: LaneBits {
    /// The unsigned type of the same width.
    type Unsigned: LaneBits;

    /// The unsigned twin is unsigned and has the same width.
    proof fn lemma_unsigned_twin()
        ensures
            <Self::Unsigned as LaneBits>::width() == Self::width(),
            <Self::Unsigned as LaneBits>::modulus() == Self::modulus(),
            !<Self::Unsigned as LaneBits>::is_signed(),
    ;
}

/// A lane type with a type of twice its width and the same signedness.
pub trait NarrowLane: Lane {
    /// The lane type of twice the width.
    type Wide: Lane;

    /// The wide twin has twice the width and the same signedness.
    proof fn lemma_wide_twin()
        ensures
            <Self::Wide as LaneBits>::width() == 2 * Self::width(),
            <Self::Wide as LaneBits>::modulus() == Self::modulus() * Self::modulus(),
            <Self::Wide as LaneBits>::is_signed() == Self::is_signed(),
    ;
}

/// A lane type with a type of half its width and the same signedness.
pub trait WideLane: Lane {
    /// The lane type of half the width.
    type Narrow: Lane;

    /// The narrow twin has half the width and the same signedness.
    proof fn lemma_narrow_twin()
        ensures
            2 * <Self::Narrow as LaneBits>::width() == Self::width(),
            <Self::Narrow as LaneBits>::modulus() * <Self::Narrow as LaneBits>::modulus()
                == Self::modulus(),
            <Self::Narrow as LaneBits>::is_signed() == Self::is_signed(),
    ;
}

/// The numeric value of the bit pattern `b` in a lane of type `T`: `b` itself, or
/// `b` read as a two's-complement number for a signed lane type.
pub open spec fn value_of_bits<T: LaneBits>(b: int) -> int {
    if T::is_signed() && 2 * b >= T::modulus() {
        b - T::modulus()
    } else {
        b
    }
}

/// The numeric value of a lane.
pub open spec fn lane_value<T: LaneBits>(x: T) -> int {
    value_of_bits::<T>(x.bits() as int)
}

/// The smallest value a lane of type `T` holds.
pub open spec fn lane_min<T: LaneBits>() -> int {
    if T::is_signed() {
        -(T::modulus() / 2)
    } else {
        0
    }
}

/// The largest value a lane of type `T` holds.
pub open spec fn lane_max<T: LaneBits>() -> int {
    if T::is_signed() {
        T::modulus() / 2 - 1
    } else {
        T::modulus() - 1
    }
}

/// A lane's value lies in the lane type's range.
pub proof fn lemma_value_range<T: LaneBits>(x: T)
    ensures
        lane_min::<T>() <= lane_value(x) <= lane_max::<T>(),
        !T::is_signed() ==> lane_value(x) == x.bits(),
{
    T::lemma_lane_shape();
    T::lemma_bits_fit(x);
}

/// The bit pattern of the value `v`, taken modulo `2^width`.
pub open spec fn bits_of_value<T: LaneBits>(v: int) -> int {
    v % T::modulus()
}

proof fn lemma_mask_is_mod(x: u64) by (bit_vector)
    ensures
        x & 0xff == x % 0x100,
        x & 0xffff == x % 0x1_0000,
        x & 0xffff_ffff == x % 0x1_0000_0000,
        x & 0xffff_ffff_ffff_ffff == x,
{
}

/// `2^width - 1`: the pattern with every bit of the lane set.
pub fn lane_mask<T: LaneBits>() -> (r: u64)
    ensures
        r == T::modulus() - 1,
{
    proof {
        T::lemma_lane_shape();
    }
    let bytes = T::lane_bytes();
    if bytes == 1 {
        0xff
    } else if bytes == 2 {
        0xffff
    } else if bytes == 4 {
        0xffff_ffff
    } else {
        0xffff_ffff_ffff_ffff
    }
}

/// Reduces a 64-bit pattern to the lane's width, modulo `2^width`.
pub fn truncate_bits<T: LaneBits>(x: u64) -> (r: u64)
    ensures
        r == (x as int) % T::modulus(),
{
    proof {
        T::lemma_lane_shape();
        lemma_mask_is_mod(x);
    }
    x & lane_mask::<T>()
}

/// The numeric value of a lane, widened to `i128`.
pub fn value_of<T: LaneBits>(x: T) -> (r: i128)
    ensures
        r == lane_value(x),
        lane_min::<T>() <= r <= lane_max::<T>(),
{
    proof {
        T::lemma_lane_shape();
        T::lemma_bits_fit(x);
    }
    let b = x.to_bits();
    let m = lane_mask::<T>() as i128 + 1;
    if T::signed() && 2 * (b as i128) >= m {
        b as i128 - m
    } else {
        b as i128
    }
}

/// The smallest value of the lane type, widened to `i128`.
pub fn min_value<T: LaneBits>() -> (r: i128)
    ensures
        r == lane_min::<T>(),
{
    proof {
        T::lemma_lane_shape();
    }
    if T::signed() {
        -(lane_mask::<T>() as i128 / 2) - 1
    } else {
        0
    }
}

/// The largest value of the lane type, widened to `i128`.
pub fn max_value<T: LaneBits>() -> (r: i128)
    ensures
        r == lane_max::<T>(),
{
    proof {
        T::lemma_lane_shape();
    }
    if T::signed() {
        lane_mask::<T>() as i128 / 2
    } else {
        lane_mask::<T>() as i128
    }
}

/// The lane holding the value `v`, which must be in the lane's range.
pub fn from_value<T: LaneBits>(v: i128) -> (r: T)
    requires
        lane_min::<T>() <= v <= lane_max::<T>(),
    ensures
        lane_value(r) == v,
        r.bits() == bits_of_value::<T>(v as int),
{
    proof {
        T::lemma_lane_shape();
    }
    let m = lane_mask::<T>() as i128 + 1;
    let b = if v < 0 { v + m } else { v };
    T::from_bits(b as u64)
}

/// Whether bit `i` of `bits` is set, that is, whether lane `i` of the mask is true.
pub open spec fn lane_is_set(bits: u64, i: u64) -> bool {
    (bits >> i) & 1u64 == 1u64
}

/// The number of set bits among the lowest `n` bits of `x`.
pub open spec fn count_set_bits(x: u64, n: nat) -> nat
    decreases n,
{
    if n == 0 {
        0
    } else {
        count_set_bits(x, (n - 1) as nat) + if lane_is_set(x, (n - 1) as u64) {
            1nat
        } else {
            0nat
        }
    }
}

/// `u64::count_ones`: the number of one bits of `x`. The contract claims the
/// std function returns exactly the count of set bits among all 64 positions.
#[verifier::external_body]
pub(crate) fn count_ones_u64(x: u64) -> (r: u32)
    ensures
        r == count_set_bits(x, 64),
{
    x.count_ones()
}

/// `v` clamped to the interval `[lo, hi]`.
pub open spec fn clamp(v: int, lo: int, hi: int) -> int {
    if v < lo {
        lo
    } else if v > hi {
        hi
    } else {
        v
    }
}

/// Adding a multiple of `2^64` does not change a value modulo the lane modulus.
pub proof fn lemma_mod_wrap64<T: LaneBits>(s: int, k: int)
    ensures
        (s + k * 0x1_0000_0000_0000_0000) % T::modulus() == s % T::modulus(),
{
    T::lemma_lane_shape();
    let m = T::modulus();
    let q: int = 0x1_0000_0000_0000_0000int / m;
    assert(m * q == 0x1_0000_0000_0000_0000);
    assert(s + k * 0x1_0000_0000_0000_0000 == m * (k * q) + s) by (nonlinear_arith)
        requires
            m * q == 0x1_0000_0000_0000_0000,
    ;
    lemma_mod_multiples_vanish(k * q, s, m);
}

/// Reducing modulo `2^64` and then modulo the lane modulus is reducing modulo the
/// lane modulus.
pub proof fn lemma_mod_mod64<T: LaneBits>(s: int)
    ensures
        (s % 0x1_0000_0000_0000_0000) % T::modulus() == s % T::modulus(),
{
    T::lemma_lane_shape();
    let m = T::modulus();
    let q: int = 0x1_0000_0000_0000_0000int / m;
    assert(m * q == 0x1_0000_0000_0000_0000);
    lemma_mod_mod(s, m, q);
}

// ---------------------------------------------------------------------------
// The integer lane types
// ---------------------------------------------------------------------------

impl LaneBits for u8 {
    open spec fn width() -> nat {
        8
    }

    open spec fn modulus() -> int {
        0x100
    }

    open spec fn is_signed() -> bool {
        false
    }

    open spec fn bits(self) -> u64 {
        self as u64
    }

    proof fn lemma_lane_shape() {
    }

    proof fn lemma_bits_fit(x: Self) {
    }

    fn lane_bytes() -> (r: usize) {
        1
    }

    fn signed() -> (r: bool) {
        false
    }

    fn to_bits(self) -> (r: u64) {
        self as u64
    }

    fn from_bits(b: u64) -> (r: Self) {
        b as u8
    }
}

impl Lane for u8 {
    type Unsigned = u8;

    proof fn lemma_unsigned_twin() {
    }
}

proof fn lemma_i8_roundtrip(b: u8) by (bit_vector)
    ensures
        (b as i8) as u8 == b,
{
}

impl LaneBits for i8 {
    open spec fn width() -> nat {
        8
    }

    open spec fn modulus() -> int {
        0x100
    }

    open spec fn is_signed() -> bool {
        true
    }

    open spec fn bits(self) -> u64 {
        (self as u8) as u64
    }

    proof fn lemma_lane_shape() {
    }

    proof fn lemma_bits_fit(x: Self) {
    }

    fn lane_bytes() -> (r: usize) {
        1
    }

    fn signed() -> (r: bool) {
        true
    }

    fn to_bits(self) -> (r: u64) {
        (self as u8) as u64
    }

    fn from_bits(b: u64) -> (r: Self) {
        proof {
            lemma_i8_roundtrip(b as u8);
        }
        (b as u8) as i8
    }
}

impl Lane for i8 {
    type Unsigned = u8;

    proof fn lemma_unsigned_twin() {
    }
}

impl LaneBits for u16 {
    open spec fn width() -> nat {
        16
    }

    open spec fn modulus() -> int {
        0x1_0000
    }

    open spec fn is_signed() -> bool {
        false
    }

    open spec fn bits(self) -> u64 {
        self as u64
    }

    proof fn lemma_lane_shape() {
    }

    proof fn lemma_bits_fit(x: Self) {
    }

    fn lane_bytes() -> (r: usize) {
        2
    }

    fn signed() -> (r: bool) {
        false
    }

    fn to_bits(self) -> (r: u64) {
        self as u64
    }

    fn from_bits(b: u64) -> (r: Self) {
        b as u16
    }
}

impl Lane for u16 {
    type Unsigned = u16;

    proof fn lemma_unsigned_twin() {
    }
}

proof fn lemma_i16_roundtrip(b: u16) by (bit_vector)
    ensures
        (b as i16) as u16 == b,
{
}

impl LaneBits for i16 {
    open spec fn width() -> nat {
        16
    }

    open spec fn modulus() -> int {
        0x1_0000
    }

    open spec fn is_signed() -> bool {
        true
    }

    open spec fn bits(self) -> u64 {
        (self as u16) as u64
    }

    proof fn lemma_lane_shape() {
    }

    proof fn lemma_bits_fit(x: Self) {
    }

    fn lane_bytes() -> (r: usize) {
        2
    }

    fn signed() -> (r: bool) {
        true
    }

    fn to_bits(self) -> (r: u64) {
        (self as u16) as u64
    }

    fn from_bits(b: u64) -> (r: Self) {
        proof {
            lemma_i16_roundtrip(b as u16);
        }
        (b as u16) as i16
    }
}

impl Lane for i16 {
    type Unsigned = u16;

    proof fn lemma_unsigned_twin() {
    }
}

impl LaneBits for u32 {
    open spec fn width() -> nat {
        32
    }

    open spec fn modulus() -> int {
        0x1_0000_0000
    }

    open spec fn is_signed() -> bool {
        false
    }

    open spec fn bits(self) -> u64 {
        self as u64
    }

    proof fn lemma_lane_shape() {
    }

    proof fn lemma_bits_fit(x: Self) {
    }

    fn lane_bytes() -> (r: usize) {
        4
    }

    fn signed() -> (r: bool) {
        false
    }

    fn to_bits(self) -> (r: u64) {
        self as u64
    }

    fn from_bits(b: u64) -> (r: Self) {
        b as u32
    }
}

impl Lane for u32 {
    type Unsigned = u32;

    proof fn lemma_unsigned_twin() {
    }
}

proof fn lemma_i32_roundtrip(b: u32) by (bit_vector)
    ensures
        (b as i32) as u32 == b,
{
}

impl LaneBits for i32 {
    open spec fn width() -> nat {
        32
    }

    open spec fn modulus() -> int {
        0x1_0000_0000
    }

    open spec fn is_signed() -> bool {
        true
    }

    open spec fn bits(self) -> u64 {
        (self as u32) as u64
    }

    proof fn lemma_lane_shape() {
    }

    proof fn lemma_bits_fit(x: Self) {
    }

    fn lane_bytes() -> (r: usize) {
        4
    }

    fn signed() -> (r: bool) {
        true
    }

    fn to_bits(self) -> (r: u64) {
        (self as u32) as u64
    }

    fn from_bits(b: u64) -> (r: Self) {
        proof {
            lemma_i32_roundtrip(b as u32);
        }
        (b as u32) as i32
    }
}

impl Lane for i32 {
    type Unsigned = u32;

    proof fn lemma_unsigned_twin() {
    }
}

impl LaneBits for u64 {
    open spec fn width() -> nat {
        64
    }

    open spec fn modulus() -> int {
        0x1_0000_0000_0000_0000
    }

    open spec fn is_signed() -> bool {
        false
    }

    open spec fn bits(self) -> u64 {
        self as u64
    }

    proof fn lemma_lane_shape() {
    }

    proof fn lemma_bits_fit(x: Self) {
    }

    fn lane_bytes() -> (r: usize) {
        8
    }

    fn signed() -> (r: bool) {
        false
    }

    fn to_bits(self) -> (r: u64) {
        self as u64
    }

    fn from_bits(b: u64) -> (r: Self) {
        b as u64
    }
}

impl Lane for u64 {
    type Unsigned = u64;

    proof fn lemma_unsigned_twin() {
    }
}

proof fn lemma_i64_roundtrip(b: u64) by (bit_vector)
    ensures
        (b as i64) as u64 == b,
{
}

impl LaneBits for i64 {
    open spec fn width() -> nat {
        64
    }

    open spec fn modulus() -> int {
        0x1_0000_0000_0000_0000
    }

    open spec fn is_signed() -> bool {
        true
    }

    open spec fn bits(self) -> u64 {
        (self as u64) as u64
    }

    proof fn lemma_lane_shape() {
    }

    proof fn lemma_bits_fit(x: Self) {
    }

    fn lane_bytes() -> (r: usize) {
        8
    }

    fn signed() -> (r: bool) {
        true
    }

    fn to_bits(self) -> (r: u64) {
        (self as u64) as u64
    }

    fn from_bits(b: u64) -> (r: Self) {
        proof {
            lemma_i64_roundtrip(b as u64);
        }
        (b as u64) as i64
    }
}

impl Lane for i64 {
    type Unsigned = u64;

    proof fn lemma_unsigned_twin() {
    }
}

impl NarrowLane for u8 {
    type Wide = u16;

    proof fn lemma_wide_twin() {
    }
}

impl WideLane for u16 {
    type Narrow = u8;

    proof fn lemma_narrow_twin() {
    }
}

impl NarrowLane for u16 {
    type Wide = u32;

    proof fn lemma_wide_twin() {
    }
}

impl WideLane for u32 {
    type Narrow = u16;

    proof fn lemma_narrow_twin() {
    }
}

impl NarrowLane for u32 {
    type Wide = u64;

    proof fn lemma_wide_twin() {
    }
}

impl WideLane for u64 {
    type Narrow = u32;

    proof fn lemma_narrow_twin() {
    }
}

impl NarrowLane for i8 {
    type Wide = i16;

    proof fn lemma_wide_twin() {
    }
}

impl WideLane for i16 {
    type Narrow = i8;

    proof fn lemma_narrow_twin() {
    }
}

impl NarrowLane for i16 {
    type Wide = i32;

    proof fn lemma_wide_twin() {
    }
}

impl WideLane for i32 {
    type Narrow = i16;

    proof fn lemma_narrow_twin() {
    }
}

impl NarrowLane for i32 {
    type Wide = i64;

    proof fn lemma_wide_twin() {
    }
}

impl WideLane for i64 {
    type Narrow = i32;

    proof fn lemma_narrow_twin() {
    }
}

} // verus!
