//! The logic of the AVX-512 backend on plain values.
//!
//! A mask register is one bit per lane in a 64-bit word. The lane algorithms
//! are those the backend runs for 8- and 16-bit lanes, which have no compress,
//! expand or reduction instruction there, together with its paired-lane
//! `mul_high` and its lane-index vector.
use core::marker::PhantomData;
use vstd::arithmetic::power2::{lemma2_to64, lemma2_to64_rest, lemma_pow2_adds, lemma_pow2_pos, pow2};
use vstd::bits::{lemma_u64_low_bits_mask_is_mod, lemma_u64_shl_is_mul, lemma_u64_shr_is_div, low_bits_mask};
use vstd::prelude::*;
use vstd::std_specs::bits::{axiom_u64_leading_zeros, axiom_u64_trailing_zeros, u64_leading_zeros, u64_trailing_zeros};

use crate::lane::{
    Lane, LaneBits, count_ones_u64, count_set_bits, lane_is_set, lane_value, lemma_mod_wrap64,
    truncate_bits, value_of,
};

verus! {

/// A 512-bit mask using AVX-512 bitmask representation.
/// Stores a `__mmask64` internally; only the lower `64 / T::BYTES` bits are used.
#[derive(Copy, Debug)]
pub struct M512<T: Lane> {
    raw: u64,
    _marker: PhantomData<T>,
}

/// Number of lanes of type `T` in a 512-bit vector.
pub open spec fn lanes_of<T: LaneBits>() -> nat {
    512nat / T::width()
}

/// The pattern with one bit set for each lane of type `T` in a 512-bit vector.
pub open spec fn all_lanes_bits<T: LaneBits>() -> u64 {
    if T::width() == 8 {
        0xffff_ffff_ffff_ffff
    } else if T::width() == 16 {
        0xffff_ffff
    } else if T::width() == 32 {
        0xffff
    } else {
        0xff
    }
}

impl<T: Lane> Clone for M512<T> {
    fn clone(&self) -> (r: Self)
        ensures
            r == *self,
    {
        *self
    }
}

impl<T: Lane> View for M512<T> {
    type V = u64;

    closed spec fn view(&self) -> u64 {
        self.raw
    }
}

proof fn lemma_all_lanes_shift()
    ensures
        (1u64 << 32u64) - 1 == 0xffff_ffffu64,
        (1u64 << 16u64) - 1 == 0xffffu64,
        (1u64 << 8u64) - 1 == 0xffu64,
{
    crate::backend::scalar::lemma_width_shifts();
}

impl<T: Lane> M512<T> {
    /// The mask whose bits are `raw`.
    pub fn from_bits(raw: u64) -> (r: Self)
        ensures
            r@ == raw,
    {
        Self { raw, _marker: PhantomData }
    }

    /// The mask held in the mask register value `raw`.
    pub fn from_raw(raw: u64) -> (r: Self)
        ensures
            r@ == raw,
    {
        Self { raw, _marker: PhantomData }
    }

    /// Number of lanes of type `T` in a 512-bit vector.
    pub fn lane_count() -> (r: usize)
        ensures
            r == lanes_of::<T>(),
    {
        proof {
            T::lemma_lane_shape();
        }
        let bytes = T::lane_bytes();
        assert(64usize / bytes == lanes_of::<T>()) by {
            if bytes == 1 {
                assert(T::width() == 8);
                assert(512nat / 8nat == 64nat);
                assert(64usize / 1usize == 64usize);
            } else if bytes == 2 {
                assert(T::width() == 16);
                assert(512nat / 16nat == 32nat);
                assert(64usize / 2usize == 32usize);
            } else if bytes == 4 {
                assert(T::width() == 32);
                assert(512nat / 32nat == 16nat);
                assert(64usize / 4usize == 16usize);
            } else {
                assert(T::width() == 64);
                assert(512nat / 64nat == 8nat);
                assert(64usize / 8usize == 8usize);
            }
        }
        64 / bytes
    }

    /// The pattern with one bit set for each lane.
    pub fn all_lanes_mask() -> (r: u64)
        ensures
            r == all_lanes_bits::<T>(),
    {
        proof {
            T::lemma_lane_shape();
            lemma_all_lanes_shift();
        }
        if Self::lane_count() == 64 {
            u64::MAX
        } else {
            (1u64 << Self::lane_count()) - 1
        }
    }

    /// The mask with the first `min(n, lanes)` lanes true and the rest false.
    pub fn first_n(n: usize) -> (r: Self)
        ensures
            r@ == low_bits(if n < lanes_of::<T>() { n as nat } else { lanes_of::<T>() }),
    {
        let lanes = Self::lane_count();
        let clamped = if n < lanes { n } else { lanes };
        // Zero the bits from position `clamped` upward.
        proof {
            lemma_low_bits_shift(clamped as u64);
        }
        let bits = if clamped >= 64 { u64::MAX } else { (1u64 << clamped) - 1 };
        Self::from_bits(bits)
    }

    /// Number of true lanes.
    pub fn count_true(self) -> (r: usize)
        ensures
            r == count_set_bits(self@ & all_lanes_bits::<T>(), 64),
    {
        count_ones_u64(self.raw & Self::all_lanes_mask()) as usize
    }

    /// Whether every lane is true.
    pub fn all_true(self) -> (r: bool)
        ensures
            r == (self@ & all_lanes_bits::<T>() == all_lanes_bits::<T>()),
    {
        (self.raw & Self::all_lanes_mask()) == Self::all_lanes_mask()
    }

    /// Whether every lane is false.
    pub fn all_false(self) -> (r: bool)
        ensures
            r == (self@ & all_lanes_bits::<T>() == 0),
    {
        (self.raw & Self::all_lanes_mask()) == 0
    }

    /// The index of the first true lane, if any.
    pub fn find_first_true(self) -> (r: Option<usize>)
        ensures
            r is None <==> self@ & all_lanes_bits::<T>() == 0,
            r matches Some(i) ==> {
                &&& i < lanes_of::<T>()
                &&& lane_is_set(self@ & all_lanes_bits::<T>(), i as u64)
                &&& forall|j: u64| j < i ==> !lane_is_set(self@ & all_lanes_bits::<T>(), j)
            },
    {
        let bits = self.raw & Self::all_lanes_mask();
        if bits == 0 {
            None
        } else {
            let tz = bits.trailing_zeros();
            proof {
                axiom_u64_trailing_zeros(bits);
                lemma_valid_lane_below_count(self.raw, tz as u64);
                T::lemma_lane_shape();
            }
            Some(tz as usize)
        }
    }

    /// The index of the last true lane, if any.
    pub fn find_last_true(self) -> (r: Option<usize>)
        ensures
            r is None <==> self@ & all_lanes_bits::<T>() == 0,
            r matches Some(i) ==> {
                &&& i < lanes_of::<T>()
                &&& lane_is_set(self@ & all_lanes_bits::<T>(), i as u64)
                &&& forall|j: u64| i < j < 64 ==> !lane_is_set(self@ & all_lanes_bits::<T>(), j)
            },
    {
        let bits = self.raw & Self::all_lanes_mask();
        if bits == 0 {
            None
        } else {
            let lz = bits.leading_zeros();
            proof {
                axiom_u64_leading_zeros(bits);
                lemma_valid_lane_below_count(self.raw, (63 - lz) as u64);
                lemma_valid_lane_below_count(bits, (63 - lz) as u64);
                T::lemma_lane_shape();
                assert forall|j: u64| (63 - lz) < j < 64 implies !lane_is_set(bits, j) by {
                    assert((bits >> j) & 1u64 == 0u64);
                }
            }
            Some(63 - (lz as usize))
        }
    }

    /// The lanes of `self` and of `b` that are both true.
    pub fn and_mask(self, b: Self) -> (r: Self)
        ensures
            r@ == self@ & b@,
    {
        Self::from_raw(self.raw & b.raw)
    }

    /// The lanes of `self` or of `b` that are true.
    pub fn or_mask(self, b: Self) -> (r: Self)
        ensures
            r@ == self@ | b@,
    {
        Self::from_raw(self.raw | b.raw)
    }

    /// Each lane negated; bits beyond the lanes are cleared.
    pub fn not_mask(self) -> (r: Self)
        ensures
            r@ == !self@ & all_lanes_bits::<T>(),
    {
        Self::from_bits(!self.raw & Self::all_lanes_mask())
    }

    /// The lanes true in exactly one of `self` and `b`.
    pub fn xor_mask(self, b: Self) -> (r: Self)
        ensures
            r@ == self@ ^ b@,
    {
        Self::from_raw(self.raw ^ b.raw)
    }

    /// One bit per lane, lane `i` in bit `i`.
    pub fn bits_from_mask(self) -> (r: u64)
        ensures
            r == self@ & all_lanes_bits::<T>(),
    {
        self.raw & Self::all_lanes_mask()
    }

    /// The lanes where neither `self` nor `b` is true (NOR over the valid lanes).
    pub fn exclusive_neither(self, b: Self) -> (r: Self)
        ensures
            r@ == !(self@ | b@) & all_lanes_bits::<T>(),
    {
        let nor = !(self.raw | b.raw) & Self::all_lanes_mask();
        Self::from_bits(nor)
    }

    /// Each lane takes the value of the lane below it; lane 0 becomes false.
    pub fn slide_mask_1_up(self) -> (r: Self)
        ensures
            r@ == (self@ << 1u64) & all_lanes_bits::<T>(),
    {
        let shifted = (self.raw << 1) & Self::all_lanes_mask();
        Self::from_bits(shifted)
    }

    /// Each lane takes the value of the lane above it; the top bit becomes false.
    pub fn slide_mask_1_down(self) -> (r: Self)
        ensures
            r@ == self@ >> 1u64,
    {
        Self::from_bits(self.raw >> 1)
    }

}

/// The pattern with the lowest `n` bits set, for `n <= 64`.
pub open spec fn low_bits(n: nat) -> u64 {
    if n >= 64 {
        0xffff_ffff_ffff_ffff
    } else {
        ((1u64 << (n as u64)) - 1) as u64
    }
}

proof fn lemma_shift_one_positive(c: u64) by (bit_vector)
    ensures
        c < 64 ==> (1u64 << c) >= 1,
{
}

proof fn lemma_low_bits_shift(c: u64)
    ensures
        c < 64 ==> (1u64 << c) >= 1 && (1u64 << c) - 1 == low_bits(c as nat),
{
    lemma_shift_one_positive(c);
}

proof fn lemma_valid_lane_below_count(x: u64, i: u64) by (bit_vector)
    ensures
        (x & 0xffff_ffff) >> i & 1u64 == 1u64 ==> i < 32,
        (x & 0xffff) >> i & 1u64 == 1u64 ==> i < 16,
        (x & 0xff) >> i & 1u64 == 1u64 ==> i < 8,
        (x & 0xffff_ffff_ffff_ffff) >> i & 1u64 == 1u64 ==> i < 64,
        (x >> i) & 1u64 != 0u64 <==> (x >> i) & 1u64 == 1u64,
{
}

// ---------------------------------------------------------------------------
// Laws of the mask operations
// ---------------------------------------------------------------------------

proof fn lemma_bit_split(x: u64, m: u64, k: u64) by (bit_vector)
    requires
        k < 64,
    ensures
        lane_is_set(m, k) ==> (lane_is_set(x & m, k) != lane_is_set(!x & m, k)),
        !lane_is_set(m, k) ==> !lane_is_set(x & m, k) && !lane_is_set(!x & m, k),
        (x & m) & m == x & m,
        !(!x & m) & m == x & m,
{
}

proof fn lemma_count_split(x: u64, m: u64, n: nat)
    requires
        n <= 64,
    ensures
        count_set_bits(x & m, n) + count_set_bits(!x & m, n) == count_set_bits(m, n),
    decreases n,
{
    if n > 0 {
        lemma_count_split(x, m, (n - 1) as nat);
        lemma_bit_split(x, m, (n - 1) as u64);
    }
}

proof fn lemma_low_bit(c: u64, k: u64) by (bit_vector)
    requires
        k < 64,
    ensures
        c < 64 ==> (lane_is_set(((1u64 << c) - 1) as u64, k) <==> k < c),
        lane_is_set(0xffff_ffff_ffff_ffffu64, k),
{
}

proof fn lemma_count_low_bits(c: nat, n: nat)
    requires
        c <= 64,
        n <= 64,
    ensures
        count_set_bits(low_bits(c), n) == if n < c { n } else { c },
    decreases n,
{
    if n > 0 {
        lemma_count_low_bits(c, (n - 1) as nat);
        lemma_low_bit(c as u64, (n - 1) as u64);
        lemma_shift_one_positive(c as u64);
    }
}

proof fn lemma_all_lanes_are_low_bits<T: Lane>()
    ensures
        all_lanes_bits::<T>() == low_bits(lanes_of::<T>()),
        lanes_of::<T>() <= 64,
{
    T::lemma_lane_shape();
    lemma_all_lanes_shift();
    assert(512nat / 8nat == 64nat);
    assert(512nat / 16nat == 32nat);
    assert(512nat / 32nat == 16nat);
    assert(512nat / 64nat == 8nat);
}

/// Negating a mask twice gives back its valid lanes.
pub proof fn lemma_not_mask_twice<T: Lane>(x: u64)
    ensures
        !(!x & all_lanes_bits::<T>()) & all_lanes_bits::<T>() == x & all_lanes_bits::<T>(),
{
    lemma_bit_split(x, all_lanes_bits::<T>(), 0);
}

/// The lanes true in a mask and in its negation together are all the lanes:
/// `count_true(m) + count_true(not_mask(m)) == lane_count()`.
pub proof fn lemma_count_true_complement<T: Lane>(x: u64)
    ensures
        count_set_bits(x & all_lanes_bits::<T>(), 64) + count_set_bits(
            (!x & all_lanes_bits::<T>()) & all_lanes_bits::<T>(),
            64,
        ) == lanes_of::<T>(),
{
    let m = all_lanes_bits::<T>();
    lemma_bit_split(x, m, 0);
    lemma_bit_split(!x, m, 0);
    lemma_count_split(x, m, 64);
    lemma_all_lanes_are_low_bits::<T>();
    lemma_count_low_bits(lanes_of::<T>(), 64);
}

/// `first_n(n)` has exactly `min(n, lane_count())` true lanes.
pub proof fn lemma_count_true_first_n<T: Lane>(n: nat)
    ensures
        ({
            let c = if n < lanes_of::<T>() { n } else { lanes_of::<T>() };
            count_set_bits(low_bits(c) & all_lanes_bits::<T>(), 64) == c
        }),
{
    let c = if n < lanes_of::<T>() { n } else { lanes_of::<T>() };
    lemma_all_lanes_are_low_bits::<T>();
    let m = all_lanes_bits::<T>();
    assert(low_bits(c) & m == low_bits(c)) by {
        lemma_shift_one_positive(c as u64);
        lemma_shift_one_positive(lanes_of::<T>() as u64);
        lemma_low_bits_nested(c as u64, lanes_of::<T>() as u64);
    }
    lemma_count_low_bits(c, 64);
}

proof fn lemma_low_bits_nested(c: u64, d: u64) by (bit_vector)
    requires
        c <= d <= 64,
    ensures
        (if c >= 64 { 0xffff_ffff_ffff_ffffu64 } else { ((1u64 << c) - 1) as u64 }) & (if d >= 64 {
            0xffff_ffff_ffff_ffffu64
        } else {
            ((1u64 << d) - 1) as u64
        }) == (if c >= 64 { 0xffff_ffff_ffff_ffffu64 } else { ((1u64 << c) - 1) as u64 }),
{
}

/// ExclusiveNeither is the conjunction of the two negated masks (De Morgan).
pub proof fn lemma_exclusive_neither_is_and_of_nots(a: u64, b: u64, m: u64) by (bit_vector)
    ensures
        !(a | b) & m == (!a & m) & (!b & m),
{
}


/// The lanes of `v` below index `k` whose mask bit is set, in order.
pub open spec fn selected_lanes<T>(v: Seq<T>, mask: u64, k: int) -> Seq<T>
    decreases k,
{
    if k <= 0 {
        Seq::empty()
    } else if lane_is_set(mask, (k - 1) as u64) {
        selected_lanes(v, mask, k - 1).push(v[k - 1])
    } else {
        selected_lanes(v, mask, k - 1)
    }
}

/// Compress for 8- and 16-bit lanes without a byte-granular compress
/// instruction: each group of 16 lanes is compressed on its own, its selected
/// lanes first and zeros after them, and the groups are stored one after the
/// other, each at the count of lanes selected before it, so that a group's
/// zeros are overwritten by the next group. The selected lanes of `v` come
/// first, in order, and every other lane is zero.
pub fn compress_by_chunks<T: Lane>(v: &[T], mask: M512<T>) -> (r: Vec<T>)
    requires
        T::width() == 8 || T::width() == 16,
        v.len() == lanes_of::<T>(),
    ensures
        r.len() == v.len(),
        selected_lanes(v@, mask@, v.len() as int).len() <= v.len(),
        forall|i: int|
            0 <= i < selected_lanes(v@, mask@, v.len() as int).len() ==> #[trigger] r@[i]
                == selected_lanes(v@, mask@, v.len() as int)[i],
        forall|i: int|
            selected_lanes(v@, mask@, v.len() as int).len() <= i < v.len() ==> (#[trigger] r@[i]).bits()
                == 0,
{
    proof {
        T::lemma_lane_shape();
    }
    let n = v.len();
    let zero = T::from_bits(0);
    let mut out: Vec<T> = Vec::new();
    for i in 0..n
        invariant
            out.len() == i,
            zero.bits() == 0,
            forall|j: int| 0 <= j < i ==> (#[trigger] out@[j]).bits() == 0,
    {
        out.push(zero);
    }
    let mut offset: usize = 0;
    let mut c: usize = 0;
    while c < n / 16
        invariant
            n == v.len(),
            n == 32 || n == 64,
            zero.bits() == 0,
            c <= n / 16,
            out.len() == n,
            offset == selected_lanes(v@, mask@, 16 * c as int).len(),
            offset <= 16 * c,
            forall|j: int|
                0 <= j < offset ==> #[trigger] out@[j] == selected_lanes(v@, mask@, 16 * c as int)[j],
            forall|j: int| offset <= j < n ==> (#[trigger] out@[j]).bits() == 0,
        decreases n / 16 - c,
    {
        let base = 16 * c;
        let ghost before = selected_lanes(v@, mask@, base as int);
        let mut chunk: Vec<T> = Vec::new();
        for k in 0..16
            invariant
                n == v.len(),
                base + 16 <= n,
                n <= 64,
                before == selected_lanes(v@, mask@, base as int),
                chunk.len() <= k,
                selected_lanes(v@, mask@, (base + k) as int) == before + chunk@,
        {
            if (mask.raw >> (base + k) as u64) & 1 == 1 {
                chunk.push(v[base + k]);
            }
        }
        let count = chunk.len();
        let ghost selected = chunk@;
        while chunk.len() < 16
            invariant
                count <= chunk.len() <= 16,
                selected.len() == count,
                chunk@.subrange(0, count as int) == selected,
                zero.bits() == 0,
                forall|j: int| count <= j < chunk.len() ==> (#[trigger] chunk@[j]).bits() == 0,
            decreases 16 - chunk.len(),
        {
            chunk.push(zero);
        }
        let ghost stored = out@;
        for k in 0..16
            invariant
                out.len() == n,
                offset + 16 <= n,
                chunk.len() == 16,
                forall|j: int| 0 <= j < k ==> #[trigger] out@[offset + j] == chunk@[j],
                forall|j: int| 0 <= j < n && !(offset <= j < offset + k) ==> #[trigger] out@[j] == stored[j],
        {
            out.set(offset + k, chunk[k]);
        }
        proof {
            let after = selected_lanes(v@, mask@, (base + 16) as int);
            assert(after == before + selected);
            assert(chunk@.subrange(0, count as int) == selected);
            assert forall|j: int| 0 <= j < offset + count implies #[trigger] out@[j] == after[j] by {
                if j >= offset {
                    assert(out@[offset + (j - offset)] == chunk@[j - offset]);
                }
            }
            assert forall|j: int| offset + count <= j < n implies (#[trigger] out@[j]).bits() == 0 by {
                if j < offset + 16 {
                    assert(out@[offset + (j - offset)] == chunk@[j - offset]);
                }
            }
        }
        offset = offset + count;
        c = c + 1;
    }
    out
}


/// Whether `a` is at least as small as `b`, or, with `largest`, at least as large.
pub open spec fn no_worse<T: LaneBits>(a: T, b: T, largest: bool) -> bool {
    if largest {
        lane_value(b) <= lane_value(a)
    } else {
        lane_value(a) <= lane_value(b)
    }
}

/// Folding halves: an index's remainder modulo `h` is its remainder modulo `2h`,
/// or that less `h`.
proof fn lemma_fold_remainder(j: int, h: int)
    requires
        0 <= j,
        0 < h,
    ensures
        (j % (2 * h) == j % h) || (j % (2 * h) == j % h + h),
{
    vstd::arithmetic::div_mod::lemma_mod_mod(j, h, 2);
    assert(h * 2 == 2 * h);
    let m = j % (2 * h);
    assert(0 <= m < 2 * h);
    if m >= h {
        vstd::arithmetic::div_mod::lemma_fundamental_div_mod_converse(m, h, 1, m - h);
    } else {
        vstd::arithmetic::div_mod::lemma_fundamental_div_mod_converse(m, h, 0, m);
    }
}

/// One folding step: lane `t < h` becomes the better of lanes `t` and `t + h`.
fn fold_half<T: Lane>(cur: &mut Vec<T>, h: usize, largest: bool)
    requires
        2 * h <= old(cur).len(),
    ensures
        final(cur).len() == old(cur).len(),
        forall|t: int|
            0 <= t < h ==> (#[trigger] final(cur)@[t] == old(cur)@[t] || final(cur)@[t] == old(cur)@[t
                + h]) && no_worse(final(cur)@[t], old(cur)@[t], largest) && no_worse(
                final(cur)@[t],
                old(cur)@[t + h],
                largest,
            ),
        forall|t: int| h <= t < old(cur).len() ==> #[trigger] final(cur)@[t] == old(cur)@[t],
{
    let ghost prev = cur@;
    for i in 0..h
        invariant
            2 * h <= prev.len(),
            cur.len() == prev.len(),
            forall|t: int|
                0 <= t < i ==> (#[trigger] cur@[t] == prev[t] || cur@[t] == prev[t + h]) && no_worse(
                    cur@[t],
                    prev[t],
                    largest,
                ) && no_worse(cur@[t], prev[t + h], largest),
            forall|t: int| i <= t < prev.len() ==> #[trigger] cur@[t] == prev[t],
    {
        let a = cur[i];
        let b = cur[i + h];
        let take_b = if largest {
            value_of(a) < value_of(b)
        } else {
            value_of(b) < value_of(a)
        };
        if take_b {
            cur.set(i, b);
        }
    }
}

/// The reduction of the 512-bit backend for 8- and 16-bit lanes: the upper half
/// of the lanes is folded onto the lower half with a lane-wise minimum (or
/// maximum) until one lane is left.
fn fold_by_halves<T: Lane>(v: &[T], largest: bool) -> (r: T)
    requires
        T::width() == 8 || T::width() == 16,
        v.len() == lanes_of::<T>(),
    ensures
        exists|j: int| 0 <= j < v.len() && v@[j] == r,
        forall|j: int| 0 <= j < v.len() ==> no_worse(r, #[trigger] v@[j], largest),
{
    proof {
        T::lemma_lane_shape();
    }
    let len = v.len();
    let mut cur: Vec<T> = Vec::new();
    for i in 0..len
        invariant
            len == v.len(),
            cur@ == v@.subrange(0, i as int),
    {
        cur.push(v[i]);
    }
    let ghost mut src: Seq<int> = Seq::new(len as nat, |i: int| i);
    proof {
        assert(cur@ == v@);
        assert forall|i: int| 0 <= i < len implies #[trigger] src[i] % (len as int) == i by {
            vstd::arithmetic::div_mod::lemma_small_mod(i as nat, len as nat);
        }
    }
    let mut n = len;
    while n > 1
        invariant
            len == v.len(),
            len == 32 || len == 64,
            n == 1 || n == 2 || n == 4 || n == 8 || n == 16 || n == 32 || n == 64,
            n <= len,
            cur.len() == len,
            src.len() == len,
            forall|i: int|
                0 <= i < n ==> 0 <= #[trigger] src[i] < len && src[i] % (n as int) == i && cur@[i]
                    == v@[src[i]],
            forall|i: int, j: int|
                0 <= i < n && 0 <= j < len && j % (n as int) == i ==> no_worse(
                    #[trigger] cur@[i],
                    #[trigger] v@[j],
                    largest,
                ),
        decreases n,
    {
        let h = n / 2;
        let ghost prev = cur@;
        let ghost prev_src = src;
        fold_half(&mut cur, h, largest);
        proof {
            src = Seq::new(
                len as nat,
                |t: int|
                    if 0 <= t < h && cur@[t] != prev[t] {
                        prev_src[t + h]
                    } else {
                        prev_src[t]
                    },
            );
        }
        proof {
            assert forall|i: int| 0 <= i < h implies 0 <= #[trigger] src[i] < len && src[i] % (h as int)
                == i && cur@[i] == v@[src[i]] by {
                lemma_fold_remainder(src[i], h as int);
            }
            assert forall|i: int, j: int|
                0 <= i < h && 0 <= j < len && j % (h as int) == i implies no_worse(
                #[trigger] cur@[i],
                #[trigger] v@[j],
                largest,
            ) by {
                lemma_fold_remainder(j, h as int);
                assert(h * 2 == n);
                if j % (n as int) == i {
                    assert(no_worse(prev[i], v@[j], largest));
                } else {
                    assert(no_worse(prev[i + h], v@[j], largest));
                }
            }
        }
        n = h;
    }
    proof {
        assert(cur@[0] == v@[src[0]]);
        assert forall|j: int| 0 <= j < len implies no_worse(cur@[0], #[trigger] v@[j], largest) by {
            assert(j % 1 == 0);
        }
    }
    cur[0]
}

/// The smallest lane of `v` (8- and 16-bit lanes), by folding halves.
pub fn min_of_lanes_by_halves<T: Lane>(v: &[T]) -> (r: T)
    requires
        T::width() == 8 || T::width() == 16,
        v.len() == lanes_of::<T>(),
    ensures
        exists|j: int| 0 <= j < v.len() && v@[j] == r,
        forall|j: int| 0 <= j < v.len() ==> lane_value(r) <= lane_value(#[trigger] v@[j]),
{
    let r = fold_by_halves(v, false);
    proof {
        assert forall|j: int| 0 <= j < v.len() implies lane_value(r) <= lane_value(#[trigger] v@[j]) by {
            assert(no_worse(r, v@[j], false));
        }
    }
    r
}

/// The largest lane of `v` (8- and 16-bit lanes), by folding halves.
pub fn max_of_lanes_by_halves<T: Lane>(v: &[T]) -> (r: T)
    requires
        T::width() == 8 || T::width() == 16,
        v.len() == lanes_of::<T>(),
    ensures
        exists|j: int| 0 <= j < v.len() && v@[j] == r,
        forall|j: int| 0 <= j < v.len() ==> lane_value(#[trigger] v@[j]) <= lane_value(r),
{
    let r = fold_by_halves(v, true);
    proof {
        assert forall|j: int| 0 <= j < v.len() implies lane_value(#[trigger] v@[j]) <= lane_value(r) by {
            assert(no_worse(r, v@[j], true));
        }
    }
    r
}


/// Keeping the upper `k` bits of a `2k`-bit word with a mask is shifting them
/// down and up again, and below them the lower `k` bits can be or-ed in as a sum.
proof fn lemma_upper_half_mask(p: u64, x: u64, k: u64)
    by (bit_vector)
    requires
        k == 8 || k == 32,
        k == 32 || p < 0x1_0000,
        x < (1u64 << k),
    ensures
        p & (if k == 8 { 0xff00u64 } else { 0xffff_ffff_0000_0000u64 }) == (p >> k) << k,
        x | ((p >> k) << k) == ((p >> k) << k) + x,
{
}

/// The upper `k` bits of the `2k`-bit product of `x` and `y`.
pub open spec fn high_half(x: nat, y: nat, k: nat) -> nat {
    x * y / pow2(k)
}

/// The high halves of the products of the two `k`-bit lanes held in a `2k`-bit
/// word, as the vector backends compute `mul_high` for 8-bit lanes in 16-bit
/// words and for 32-bit lanes in 64-bit words: the lower lanes are isolated with
/// a mask and multiplied, their product shifted down; the upper lanes are
/// shifted down and multiplied, their product's upper half kept with a mask.
pub fn mul_high_pair(a: u64, b: u64, k: u64) -> (r: u64)
    requires
        k == 8 || k == 32,
        a < pow2(2 * k as nat),
        b < pow2(2 * k as nat),
    ensures
        r == high_half(a as nat % pow2(k as nat), b as nat % pow2(k as nat), k as nat) + high_half(
            a as nat / pow2(k as nat),
            b as nat / pow2(k as nat),
            k as nat,
        ) * pow2(k as nat),
{
    let ghost p = pow2(k as nat);
    proof {
        lemma2_to64();
        lemma2_to64_rest();
        lemma_pow2_adds(k as nat, k as nat);
        lemma_u64_shl_is_mul(1, k);
    }
    let low = (1u64 << k) - 1;
    let high: u64 = if k == 8 { 0xff00 } else { 0xffff_ffff_0000_0000 };
    let a_even = a & low;
    let b_even = b & low;
    let a_odd = a >> k;
    let b_odd = b >> k;
    proof {
        assert(low == low_bits_mask(k as nat));
        lemma_u64_low_bits_mask_is_mod(a, k as nat);
        lemma_u64_low_bits_mask_is_mod(b, k as nat);
        lemma_u64_shr_is_div(a, k);
        lemma_u64_shr_is_div(b, k);
        assert(a_odd < p && b_odd < p) by (nonlinear_arith)
            requires
                a_odd == a as nat / p,
                b_odd == b as nat / p,
                a < p * p,
                b < p * p,
                p > 0,
        ;
        assert(a_even * b_even < p * p && a_odd * b_odd < p * p) by (nonlinear_arith)
            requires
                a_even < p,
                b_even < p,
                a_odd < p,
                b_odd < p,
        ;
    }
    let even_product = a_even * b_even;
    let odd_product = a_odd * b_odd;
    let hi_even = even_product >> k;
    let hi_odd = odd_product & high;
    proof {
        lemma_u64_shr_is_div(even_product, k);
        lemma_u64_shr_is_div(odd_product, k);
        assert(hi_even < p) by (nonlinear_arith)
            requires
                hi_even == even_product as nat / p,
                even_product < p * p,
                p > 0,
        ;
        lemma_upper_half_mask(odd_product, hi_even, k);
        let q = odd_product >> k;
        assert(q * p <= odd_product) by (nonlinear_arith)
            requires
                q == odd_product as nat / p,
                p > 0,
        ;
        lemma_u64_shl_is_mul(q, k);
        assert(a_even == a as nat % p && b_even == b as nat % p);
        assert(hi_even == high_half(a as nat % p, b as nat % p, k as nat));
        assert(hi_odd == high_half(a as nat / p, b as nat / p, k as nat) * p);
    }
    hi_even | hi_odd
}


/// The value of the `k`-bit pattern `x` read as a two's-complement number.
pub open spec fn signed_value(x: nat, k: nat) -> int {
    if 2 * x >= pow2(k) {
        x - pow2(k)
    } else {
        x as int
    }
}

/// The upper `k` bits of the `2k`-bit two's-complement product of `x` and `y`.
pub open spec fn signed_high_half(x: int, y: int, k: nat) -> int {
    (x * y / (pow2(k) as int)) % (pow2(k) as int)
}

/// The 64-bit two's-complement pattern of the `k`-bit pattern `x`: its sign bit
/// copied into every higher bit.
fn sign_extend(x: u64, k: u64) -> (r: u64)
    requires
        k == 8 || k == 32,
        x < pow2(k as nat),
    ensures
        r as int == signed_value(x as nat, k as nat) + (if signed_value(x as nat, k as nat) < 0 {
            0x1_0000_0000_0000_0000int
        } else {
            0int
        }),
{
    proof {
        lemma2_to64();
        lemma_u64_shl_is_mul(1, k);
    }
    let full = 1u64 << k;
    if 2 * x >= full {
        x + (u64::MAX - (full - 1))
    } else {
        x
    }
}

/// The product of two sign-extended patterns, wrapped to 64 bits and kept to
/// `m` dividing `2^64`, is the product of the signed values modulo `m`.
proof fn lemma_signed_product_residue(xp: u64, yp: u64, sx: int, sy: int, m: int, q: int)
    requires
        xp as int == sx + (if sx < 0 { 0x1_0000_0000_0000_0000int } else { 0int }),
        yp as int == sy + (if sy < 0 { 0x1_0000_0000_0000_0000int } else { 0int }),
        m > 0,
        q > 0,
        m * q == 0x1_0000_0000_0000_0000int,
    ensures
        ((xp as int * yp as int) % 0x1_0000_0000_0000_0000int) % m == (sx * sy) % m,
{
    let t: int = 0x1_0000_0000_0000_0000int;
    let x = xp as int;
    let y = yp as int;
    let j: int = if sx < 0 && sy < 0 {
        q * (sy + sx + t)
    } else if sx < 0 {
        q * sy
    } else if sy < 0 {
        q * sx
    } else {
        0
    };
    if sx < 0 && sy < 0 {
        assert(x * y == m * j + sx * sy) by (nonlinear_arith)
            requires
                x == sx + t,
                y == sy + t,
                j == q * (sy + sx + t),
                m * q == t,
        ;
    } else if sx < 0 {
        assert(x * y == m * j + sx * sy) by (nonlinear_arith)
            requires
                x == sx + t,
                y == sy,
                j == q * sy,
                m * q == t,
        ;
    } else if sy < 0 {
        assert(x * y == m * j + sx * sy) by (nonlinear_arith)
            requires
                x == sx,
                y == sy + t,
                j == q * sx,
                m * q == t,
        ;
    }
    vstd::arithmetic::div_mod::lemma_mod_mod(xp as int * yp as int, m, q);
    vstd::arithmetic::div_mod::lemma_mod_multiples_vanish(j, sx * sy, m);
}

/// The upper half of a residue modulo `d * d` is the quotient by `d` taken
/// modulo `d`, for any integer, negative ones included.
proof fn lemma_high_half_of_residue(x: int, r: int, d: int)
    requires
        d > 0,
        r == x % (d * d),
    ensures
        0 <= r / d < d,
        r / d == (x / d) % d,
{
    assert(d * d > 0) by (nonlinear_arith)
        requires
            d > 0,
    ;
    vstd::arithmetic::div_mod::lemma_fundamental_div_mod(x, d * d);
    vstd::arithmetic::div_mod::lemma_fundamental_div_mod(r, d);
    let q = x / (d * d);
    let h = r / d;
    let l = r % d;
    assert(0 <= h < d) by (nonlinear_arith)
        requires
            r == d * h + l,
            0 <= l < d,
            0 <= r < d * d,
    ;
    assert(x == d * (d * q + h) + l) by (nonlinear_arith)
        requires
            x == (d * d) * q + r,
            r == d * h + l,
    ;
    vstd::arithmetic::div_mod::lemma_fundamental_div_mod_converse(x, d, d * q + h, l);
    assert(d * q + h == q * d + h) by (nonlinear_arith);
    vstd::arithmetic::div_mod::lemma_fundamental_div_mod_converse(d * q + h, d, q, h);
}

/// The signed form of `mul_high_pair`: the two `k`-bit lanes of each word are
/// read as two's-complement numbers. Each lane is sign-extended and multiplied
/// (8-bit lanes with a 16-bit multiply, 32-bit lanes with a full 64-bit one);
/// the lower lanes' product is shifted down and the upper lanes' product has
/// its upper half kept with a mask.
pub fn mul_high_pair_signed(a: u64, b: u64, k: u64) -> (r: u64)
    requires
        k == 8 || k == 32,
        a < pow2(2 * k as nat),
        b < pow2(2 * k as nat),
    ensures
        r == signed_high_half(
            signed_value(a as nat % pow2(k as nat), k as nat),
            signed_value(b as nat % pow2(k as nat), k as nat),
            k as nat,
        ) + signed_high_half(
            signed_value(a as nat / pow2(k as nat), k as nat),
            signed_value(b as nat / pow2(k as nat), k as nat),
            k as nat,
        ) * pow2(k as nat),
{
    let ghost p = pow2(k as nat);
    proof {
        lemma2_to64();
        lemma2_to64_rest();
        lemma_pow2_adds(k as nat, k as nat);
        lemma_u64_shl_is_mul(1, k);
    }
    let low = (1u64 << k) - 1;
    let high: u64 = if k == 8 { 0xff00 } else { 0xffff_ffff_0000_0000 };
    let a_lo = a & low;
    let b_lo = b & low;
    let a_hi = a >> k;
    let b_hi = b >> k;
    proof {
        assert(low == low_bits_mask(k as nat));
        lemma_u64_low_bits_mask_is_mod(a, k as nat);
        lemma_u64_low_bits_mask_is_mod(b, k as nat);
        lemma_u64_shr_is_div(a, k);
        lemma_u64_shr_is_div(b, k);
        assert(a_hi < p && b_hi < p) by (nonlinear_arith)
            requires
                a_hi == a as nat / p,
                b_hi == b as nat / p,
                a < p * p,
                b < p * p,
                p > 0,
        ;
        assert(a_lo == a as nat % p && b_lo == b as nat % p);
    }
    let a_even = sign_extend(a_lo, k);
    let b_even = sign_extend(b_lo, k);
    let a_odd = sign_extend(a_hi, k);
    let b_odd = sign_extend(b_hi, k);
    let wrapped_even = a_even.wrapping_mul(b_even);
    let wrapped_odd = a_odd.wrapping_mul(b_odd);
    let even_product = if k == 8 { wrapped_even & 0xffff } else { wrapped_even };
    let odd_product = if k == 8 { wrapped_odd & 0xffff } else { wrapped_odd };
    let ghost se = signed_value(a_lo as nat, k as nat) * signed_value(b_lo as nat, k as nat);
    let ghost so = signed_value(a_hi as nat, k as nat) * signed_value(b_hi as nat, k as nat);
    proof {
        let pp: int = (p * p) as int;
        let qq: int = 0x1_0000_0000_0000_0000int / pp;
        assert(pp * qq == 0x1_0000_0000_0000_0000int && qq > 0);
        lemma_signed_product_residue(
            a_even,
            b_even,
            signed_value(a_lo as nat, k as nat),
            signed_value(b_lo as nat, k as nat),
            pp,
            qq,
        );
        lemma_signed_product_residue(
            a_odd,
            b_odd,
            signed_value(a_hi as nat, k as nat),
            signed_value(b_hi as nat, k as nat),
            pp,
            qq,
        );
        if k == 8 {
            assert(0xffffu64 == low_bits_mask(16) as u64);
            lemma_u64_low_bits_mask_is_mod(wrapped_even, 16);
            lemma_u64_low_bits_mask_is_mod(wrapped_odd, 16);
        }
        assert(even_product == se % pp);
        assert(odd_product == so % pp);
        lemma_high_half_of_residue(se, even_product as int, p as int);
        lemma_high_half_of_residue(so, odd_product as int, p as int);
    }
    let hi_even = even_product >> k;
    let hi_odd = odd_product & high;
    proof {
        lemma_u64_shr_is_div(even_product, k);
        lemma_u64_shr_is_div(odd_product, k);
        lemma_upper_half_mask(odd_product, hi_even, k);
        let q = odd_product >> k;
        assert(q * p <= odd_product) by (nonlinear_arith)
            requires
                q == odd_product as nat / p,
                p > 0,
        ;
        lemma_u64_shl_is_mul(q, k);
        assert(hi_even == signed_high_half(
            signed_value(a as nat % p, k as nat),
            signed_value(b as nat % p, k as nat),
            k as nat,
        ));
        assert(hi_odd == signed_high_half(
            signed_value(a as nat / p, k as nat),
            signed_value(b as nat / p, k as nat),
            k as nat,
        ) * p);
    }
    hi_even | hi_odd
}

/// As many lanes are selected below `k` as mask bits are set below `k`.
pub proof fn lemma_selected_count<T>(v: Seq<T>, mask: u64, k: nat)
    requires
        k <= 64,
    ensures
        selected_lanes(v, mask, k as int).len() == count_set_bits(mask, k),
    decreases k,
{
    if k > 0 {
        lemma_selected_count(v, mask, (k - 1) as nat);
    }
}

/// A selected lane `i` is the `c`-th selected lane, `c` being the number of
/// mask bits set below `i`.
pub proof fn lemma_selected_at<T>(v: Seq<T>, mask: u64, k: nat, i: nat)
    requires
        i < k <= 64,
        lane_is_set(mask, i as u64),
    ensures
        count_set_bits(mask, i) < selected_lanes(v, mask, k as int).len(),
        selected_lanes(v, mask, k as int)[count_set_bits(mask, i) as int] == v[i as int],
    decreases k,
{
    lemma_selected_count(v, mask, i);
    if i + 1 < k {
        lemma_selected_at(v, mask, (k - 1) as nat, i);
    }
}

/// Counting set bits over a longer prefix counts at least as many.
proof fn lemma_count_set_bits_monotonic(x: u64, a: nat, b: nat)
    requires
        a <= b,
    ensures
        count_set_bits(x, a) <= count_set_bits(x, b),
    decreases b,
{
    if a < b {
        lemma_count_set_bits_monotonic(x, a, (b - 1) as nat);
    }
}

/// `e` is the expansion of `v` under `mask`: lane `i` of `e` is the next unused
/// lane of `v` where mask bit `i` is set, and zero elsewhere.
pub open spec fn is_expansion<T: LaneBits>(e: Seq<T>, v: Seq<T>, mask: u64) -> bool {
    &&& e.len() == v.len()
    &&& forall|i: int|
        0 <= i < e.len() ==> if lane_is_set(mask, i as u64) {
            #[trigger] e[i] == v[count_set_bits(mask, i as nat) as int]
        } else {
            e[i].bits() == 0
        }
}

/// Expand for lanes without an expand instruction: walking the lanes in order,
/// each selected lane takes the next lane of `v`; the others are zero.
pub fn expand_lanes<T: Lane>(v: &[T], mask: M512<T>) -> (r: Vec<T>)
    requires
        v.len() == lanes_of::<T>(),
    ensures
        is_expansion(r@, v@, mask@),
{
    proof {
        T::lemma_lane_shape();
    }
    let n = v.len();
    let zero = T::from_bits(0);
    let mut out: Vec<T> = Vec::new();
    let mut next: usize = 0;
    for i in 0..n
        invariant
            n == v.len(),
            n <= 64,
            zero.bits() == 0,
            next == count_set_bits(mask@, i as nat),
            next <= i,
            out.len() == i,
            forall|j: int|
                0 <= j < i ==> if lane_is_set(mask@, j as u64) {
                    #[trigger] out@[j] == v@[count_set_bits(mask@, j as nat) as int]
                } else {
                    out@[j].bits() == 0
                },
    {
        if (mask.raw >> i as u64) & 1 == 1 {
            out.push(v[next]);
            next = next + 1;
        } else {
            out.push(zero);
        }
    }
    out
}

/// Compressing an expansion under the same mask gives back the lanes of `v`
/// that the expansion used, in order.
pub proof fn lemma_compress_of_expand<T: LaneBits>(e: Seq<T>, v: Seq<T>, mask: u64)
    requires
        is_expansion(e, v, mask),
        e.len() <= 64,
    ensures
        selected_lanes(e, mask, e.len() as int) == v.take(count_set_bits(mask, e.len() as nat) as int),
{
    lemma_compress_of_expand_prefix(e, v, mask, e.len() as nat);
}

proof fn lemma_compress_of_expand_prefix<T: LaneBits>(e: Seq<T>, v: Seq<T>, mask: u64, k: nat)
    requires
        is_expansion(e, v, mask),
        k <= e.len() <= 64,
    ensures
        selected_lanes(e, mask, k as int) == v.take(count_set_bits(mask, k) as int),
    decreases k,
{
    if k > 0 {
        lemma_compress_of_expand_prefix(e, v, mask, (k - 1) as nat);
        lemma_count_set_bits_monotonic(mask, (k - 1) as nat, e.len() as nat);
        lemma_count_bound(mask, (k - 1) as nat);
        if lane_is_set(mask, (k - 1) as u64) {
            assert(e[k - 1] == v[count_set_bits(mask, (k - 1) as nat) as int]);
            assert(v.take(count_set_bits(mask, (k - 1) as nat) as int).push(e[k - 1]) =~= v.take(
                count_set_bits(mask, k) as int,
            ));
        }
    }
}

/// At most `k` of the lowest `k` bits are set.
proof fn lemma_count_bound(x: u64, k: nat)
    ensures
        count_set_bits(x, k) <= k,
    decreases k,
{
    if k > 0 {
        lemma_count_bound(x, (k - 1) as nat);
    }
}

/// Expanding a compression under the same mask gives back the selected lanes
/// of `v` in place.
pub proof fn lemma_expand_of_compress<T: LaneBits>(v: Seq<T>, c: Seq<T>, e: Seq<T>, mask: u64)
    requires
        v.len() <= 64,
        c.len() == v.len(),
        forall|i: int|
            0 <= i < selected_lanes(v, mask, v.len() as int).len() ==> #[trigger] c[i]
                == selected_lanes(v, mask, v.len() as int)[i],
        is_expansion(e, c, mask),
    ensures
        forall|i: int| 0 <= i < v.len() && lane_is_set(mask, i as u64) ==> #[trigger] e[i] == v[i],
{
    assert forall|i: int| 0 <= i < v.len() && lane_is_set(mask, i as u64) implies #[trigger] e[i]
        == v[i] by {
        lemma_selected_at(v, mask, v.len() as nat, i as nat);
    }
}

/// Compress-store for 8- and 16-bit lanes without a byte-granular compress
/// instruction: the lanes compressed group by group, of which the selected
/// ones are copied to the front of `mem`. Returns how many were stored.
pub fn compress_store_by_chunks<T: Lane>(v: &[T], mask: M512<T>, mem: &mut [T]) -> (r: usize)
    requires
        T::width() == 8 || T::width() == 16,
        v.len() == lanes_of::<T>(),
        count_set_bits(mask@, v.len() as nat) <= old(mem).len(),
    ensures
        r == count_set_bits(mask@, v.len() as nat),
        final(mem).len() == old(mem).len(),
        forall|i: int| 0 <= i < r ==> #[trigger] final(mem)@[i] == selected_lanes(v@, mask@, v.len() as int)[i],
        forall|i: int| r <= i < old(mem).len() ==> #[trigger] final(mem)@[i] == old(mem)@[i],
{
    proof {
        T::lemma_lane_shape();
        lemma_selected_count(v@, mask@, v.len() as nat);
        lemma_all_lanes_are_low_bits::<T>();
        lemma_count_masked(mask@, lanes_of::<T>(), 64);
    }
    let compressed = compress_by_chunks(v, mask);
    let count = mask.count_true();
    let ghost before = mem@;
    for i in 0..count
        invariant
            count == count_set_bits(mask@, v.len() as nat),
            count == selected_lanes(v@, mask@, v.len() as int).len(),
            count <= mem.len(),
            count <= compressed.len(),
            mem.len() == before.len(),
            compressed.len() == v.len(),
            forall|j: int| 0 <= j < count ==> #[trigger] compressed@[j] == selected_lanes(v@, mask@, v.len() as int)[j],
            forall|j: int| 0 <= j < i ==> #[trigger] mem@[j] == selected_lanes(v@, mask@, v.len() as int)[j],
            forall|j: int| i <= j < mem.len() ==> #[trigger] mem@[j] == before[j],
    {
        mem[i] = compressed[i];
    }
    count
}

/// A lane of `x & y` is set where it is set in both.
proof fn lemma_and_bit(x: u64, y: u64, k: u64)
    by (bit_vector)
    requires
        k < 64,
    ensures
        lane_is_set(x & y, k) == (lane_is_set(x, k) && lane_is_set(y, k)),
{
}

/// Counting the set bits of `x` restricted to its lowest `n` bits.
proof fn lemma_count_masked(x: u64, n: nat, k: nat)
    requires
        n <= 64,
        k <= 64,
    ensures
        count_set_bits(x & low_bits(n), k) == count_set_bits(x, if k < n { k } else { n }),
    decreases k,
{
    if k > 0 {
        lemma_count_masked(x, n, (k - 1) as nat);
        lemma_and_bit(x, low_bits(n), (k - 1) as u64);
        lemma_low_bit(n as u64, (k - 1) as u64);
        lemma_shift_one_positive(n as u64);
    }
}


/// The lanes `base`, `base + 1`, `base + 2`, ... of a 512-bit vector, each sum
/// wrapping within the lane width, as the vector of lane indices added to a
/// broadcast `base`.
pub fn iota_lanes<T: Lane>(base: T) -> (r: Vec<T>)
    ensures
        r.len() == lanes_of::<T>(),
        forall|i: int| 0 <= i < r.len() ==> (#[trigger] r@[i]).bits() == (base.bits() + i) % T::modulus(),
{
    proof {
        T::lemma_lane_shape();
        T::lemma_bits_fit(base);
    }
    let bytes = T::lane_bytes() as u64;
    let n: u64 = 64 / bytes;
    proof {
        if bytes == 1 {
            assert(n == 64);
        } else if bytes == 2 {
            assert(n == 32);
        } else if bytes == 4 {
            assert(n == 16);
        } else {
            assert(bytes == 8);
            assert(n == 8) by (nonlinear_arith)
                requires
                    n == 64u64 / bytes,
                    bytes == 8,
            ;
        }
        assert(512nat / 8nat == 64nat);
        assert(512nat / 16nat == 32nat);
        assert(512nat / 32nat == 16nat);
        assert(512nat / 64nat == 8nat);
    }
    let b = base.to_bits();
    let mut out: Vec<T> = Vec::new();
    for i in 0..n
        invariant
            n == lanes_of::<T>(),
            n <= 64,
            b == base.bits(),
            (b as int) < T::modulus(),
            out.len() == i,
            forall|j: int| 0 <= j < i ==> (#[trigger] out@[j]).bits() == (base.bits() + j) % T::modulus(),
    {
        let s = b.wrapping_add(i);
        proof {
            lemma_mod_wrap64::<T>(b + i, -1);
            T::lemma_lane_shape();
        }
        out.push(T::from_bits(truncate_bits::<T>(s)));
    }
    out
}


/// Lane lookup in the concatenation of two tables, for 8- and 16-bit lanes,
/// which have no two-table permute instruction: lane `i` of the result is lane
/// `k` of `a`, or lane `k - n` of `b`, where `k` is lane `i` of `idx` read as an
/// unsigned number and `n` the lane count; an index of `2n` or more gives zero.
/// (32- and 64-bit lanes use the permute instruction, which wraps the index.)
pub fn two_tables_lookup_lanes<T: Lane, I: Lane>(a: &[T], b: &[T], idx: &[I]) -> (r: Vec<T>)
    requires
        T::width() == 8 || T::width() == 16,
        a.len() == b.len(),
        idx.len() == a.len(),
    ensures
        r.len() == a.len(),
        forall|i: int|
            0 <= i < r.len() ==> {
                let k = idx@[i].bits() as int;
                if k < a.len() {
                    #[trigger] r@[i] == a@[k]
                } else if k < 2 * a.len() {
                    r@[i] == b@[k - a.len()]
                } else {
                    r@[i].bits() == 0
                }
            },
{
    proof {
        T::lemma_lane_shape();
    }
    let n = a.len();
    let zero = T::from_bits(0);
    let mut out: Vec<T> = Vec::new();
    for i in 0..n
        invariant
            n == a.len(),
            n == b.len(),
            n == idx.len(),
            zero.bits() == 0,
            out.len() == i,
            forall|j: int|
                0 <= j < i ==> {
                    let k = idx@[j].bits() as int;
                    if k < n {
                        #[trigger] out@[j] == a@[k]
                    } else if k < 2 * n {
                        out@[j] == b@[k - n]
                    } else {
                        out@[j].bits() == 0
                    }
                },
    {
        let k = idx[i].to_bits();
        if k < n as u64 {
            out.push(a[k as usize]);
        } else if k - (n as u64) < n as u64 {
            out.push(b[(k - n as u64) as usize]);
        } else {
            out.push(zero);
        }
    }
    out
}

} // verus!
