use highway::backend::scalar::{Mask1, Scalar, Vec1};

#[test]
fn test_add_sub_mul() {
    let s = Scalar;
    let a: Vec1<i32> = s.splat(10);
    let b: Vec1<i32> = s.splat(3);

    let sum: Vec1<i32> = s.add(a, b);
    assert_eq!(sum.0, 13);

    let diff: Vec1<i32> = s.sub(a, b);
    assert_eq!(diff.0, 7);

    let prod: Vec1<i32> = s.mul(a, b);
    assert_eq!(prod.0, 30);
}

#[test]
fn test_bitwise() {
    let s = Scalar;
    let a: Vec1<u32> = s.splat(0xFF00_FF00);
    let b: Vec1<u32> = s.splat(0x00FF_00FF);

    let and_result: Vec1<u32> = s.and(a, b);
    assert_eq!(and_result.0, 0);

    let or_result: Vec1<u32> = s.or(a, b);
    assert_eq!(or_result.0, 0xFFFF_FFFF);

    let xor_result: Vec1<u32> = s.xor(a, b);
    assert_eq!(xor_result.0, 0xFFFF_FFFF);

    let not_result: Vec1<u32> = s.not(a);
    assert_eq!(not_result.0, 0x00FF_00FF);
}

#[test]
fn test_shifts() {
    let s = Scalar;
    let v: Vec1<u32> = s.splat(0x0000_00FF);

    let shl: Vec1<u32> = s.shift_left::<u32, 8>(v);
    assert_eq!(shl.0, 0x0000_FF00);

    let shr: Vec1<u32> = s.shift_right::<u32, 8>(shl);
    assert_eq!(shr.0, 0x0000_00FF);
}

#[test]
fn test_comparisons() {
    let s = Scalar;
    let a: Vec1<i32> = s.splat(5);
    let b: Vec1<i32> = s.splat(10);

    assert!(s.lt(a, b).to_bool());
    assert!(!s.gt(a, b).to_bool());
    assert!(s.le(a, b).to_bool());
    assert!(!s.ge(a, b).to_bool());
    assert!(!s.eq(a, b).to_bool());
    assert!(s.ne(a, b).to_bool());

    let c: Vec1<i32> = s.splat(5);
    assert!(s.eq(a, c).to_bool());
}

#[test]
fn test_mask_ops() {
    let s = Scalar;
    let yes: Vec1<i32> = s.splat(42);
    let no: Vec1<i32> = s.splat(0);

    let m_true = Mask1::<i32>::from_bool(true);
    let m_false = Mask1::<i32>::from_bool(false);

    let result: Vec1<i32> = s.if_then_else(m_true, yes, no);
    assert_eq!(result.0, 42);

    let result: Vec1<i32> = s.if_then_else(m_false, yes, no);
    assert_eq!(result.0, 0);

    assert_eq!(s.count_true::<i32>(m_true), 1);
    assert_eq!(s.count_true::<i32>(m_false), 0);
    assert!(s.all_true::<i32>(m_true));
    assert!(s.all_false::<i32>(m_false));
}

#[test]
fn test_saturating_arith() {
    let s = Scalar;
    let a: Vec1<u8> = s.splat(200);
    let b: Vec1<u8> = s.splat(100);

    let sum: Vec1<u8> = s.saturated_add(a, b);
    assert_eq!(sum.0, 255); // clamped

    let diff: Vec1<u8> = s.saturated_sub(Vec1(50u8), Vec1(100u8));
    assert_eq!(diff.0, 0); // clamped
}

#[test]
fn test_reduce() {
    let s = Scalar;
    let v: Vec1<i32> = s.splat(42);
    assert_eq!(s.sum_of_lanes(v), 42);
    assert_eq!(s.min_of_lanes(v), 42);
    assert_eq!(s.max_of_lanes(v), 42);
}

#[test]
fn test_average_round() {
    let s = Scalar;
    let a: Vec1<u8> = s.splat(10);
    let b: Vec1<u8> = s.splat(21);
    let avg: Vec1<u8> = s.average_round(a, b);
    // (10 + 21 + 1) >> 1 = 16
    assert_eq!(avg.0, 16);
}

#[test]
fn test_mul_high() {
    let s = Scalar;
    let a: Vec1<u16> = s.splat(0x1234);
    let b: Vec1<u16> = s.splat(0x5678);
    let hi: Vec1<u16> = s.mul_high(a, b);
    let expected = ((0x1234u32 * 0x5678u32) >> 16) as u16;
    assert_eq!(hi.0, expected);
}

// ---------------------------------------------------------------------------
// Further cases of the integer lane operations
// ---------------------------------------------------------------------------

#[test]
fn zero_and_splat_integer() {
    let s = Scalar;
    let z: Vec1<u32> = s.zero();
    assert_eq!(z.0, 0);
    let v: Vec1<u32> = s.splat(42);
    assert_eq!(v.0, 42);
    let u: Vec1<i64> = s.undefined();
    assert_eq!(u.0, 0);
}

#[test]
fn abs_and_neg_signed() {
    let s = Scalar;
    let v: Vec1<i32> = s.splat(-5);
    assert_eq!(s.abs(v).0, 5);
    assert_eq!(s.neg(v).0, 5);
    // The most negative value wraps to itself.
    assert_eq!(s.abs(Vec1(i8::MIN)).0, i8::MIN);
    assert_eq!(s.neg(Vec1(i8::MIN)).0, i8::MIN);
    // Unsigned negation wraps.
    assert_eq!(s.neg(Vec1(1u16)).0, u16::MAX);
    assert_eq!(s.abs(Vec1(200u8)).0, 200);
}

#[test]
fn wrapping_arith_wraps() {
    let s = Scalar;
    assert_eq!(s.add(Vec1(250u8), Vec1(10u8)).0, 4);
    assert_eq!(s.add(Vec1(i8::MAX), Vec1(1i8)).0, i8::MIN);
    assert_eq!(s.sub(Vec1(0u32), Vec1(1u32)).0, u32::MAX);
    assert_eq!(s.mul(Vec1(0x1_0000_0001u64), Vec1(0x1_0000_0001u64)).0, 0x2_0000_0001);
    assert_eq!(s.mul(Vec1(-3i16), Vec1(7i16)).0, -21);
    assert_eq!(s.mul(Vec1(u64::MAX), Vec1(u64::MAX)).0, 1);
}

#[test]
fn saturating_signed() {
    let s = Scalar;
    assert_eq!(s.saturated_add(Vec1(100i8), Vec1(100i8)).0, i8::MAX);
    assert_eq!(s.saturated_add(Vec1(-100i8), Vec1(-100i8)).0, i8::MIN);
    assert_eq!(s.saturated_sub(Vec1(i64::MIN), Vec1(1i64)).0, i64::MIN);
    assert_eq!(s.saturated_add(Vec1(u64::MAX), Vec1(1u64)).0, u64::MAX);
    assert_eq!(s.saturated_neg(Vec1(i16::MIN)).0, i16::MAX);
    assert_eq!(s.saturated_abs(Vec1(i16::MIN)).0, i16::MAX);
    assert_eq!(s.saturated_abs(Vec1(-7i32)).0, 7);
    assert_eq!(s.saturated_neg(Vec1(5u8)).0, 0);
}

#[test]
fn min_max_clamp() {
    let s = Scalar;
    assert_eq!(s.min(Vec1(-1i8), Vec1(1i8)).0, -1);
    assert_eq!(s.max(Vec1(-1i8), Vec1(1i8)).0, 1);
    assert_eq!(s.min(Vec1(0xffu8), Vec1(1u8)).0, 1);
    assert_eq!(s.clamp(Vec1(50i32), Vec1(0), Vec1(10)).0, 10);
    assert_eq!(s.clamp(Vec1(-50i32), Vec1(0), Vec1(10)).0, 0);
    assert_eq!(s.clamp(Vec1(5i32), Vec1(0), Vec1(10)).0, 5);
}

#[test]
fn mul_high_signed_and_wide() {
    let s = Scalar;
    assert_eq!(s.mul_high(Vec1(-1i16), Vec1(1i16)).0, -1);
    assert_eq!(s.mul_high(Vec1(i8::MIN), Vec1(i8::MIN)).0, 64);
    assert_eq!(s.mul_high(Vec1(u64::MAX), Vec1(u64::MAX)).0, u64::MAX - 1);
    assert_eq!(s.mul_high(Vec1(i64::MIN), Vec1(2i64)).0, -1);
}

#[test]
fn abs_diff_cases() {
    let s = Scalar;
    assert_eq!(s.abs_diff(Vec1(3u8), Vec1(250u8)).0, 247);
    assert_eq!(s.abs_diff(Vec1(-3i32), Vec1(4i32)).0, 7);
    assert_eq!(s.abs_diff(Vec1(100i8), Vec1(-100i8)).0, 56);
}

#[test]
fn masked_arith() {
    let s = Scalar;
    let t = Mask1::<u32>::from_bool(true);
    let f = Mask1::<u32>::from_bool(false);
    let no = Vec1(9u32);
    assert_eq!(s.masked_add_or(no, t, Vec1(1), Vec1(2)).0, 3);
    assert_eq!(s.masked_add_or(no, f, Vec1(1), Vec1(2)).0, 9);
    assert_eq!(s.masked_sub_or(no, t, Vec1(5), Vec1(2)).0, 3);
    assert_eq!(s.masked_mul_or(no, t, Vec1(5), Vec1(2)).0, 10);
    assert_eq!(s.masked_min_or(no, t, Vec1(5), Vec1(2)).0, 2);
    assert_eq!(s.masked_max_or(no, t, Vec1(5), Vec1(2)).0, 5);
    assert_eq!(s.masked_max_or(no, f, Vec1(5), Vec1(2)).0, 9);
}

#[test]
fn shifts_signed_and_rotations() {
    let s = Scalar;
    assert_eq!(s.shift_right::<i8, 2>(Vec1(-8i8)).0, -2);
    assert_eq!(s.shift_right::<u8, 2>(Vec1(0xf8u8)).0, 0x3e);
    assert_eq!(s.shift_left::<i16, 17>(Vec1(1i16)).0, 2);
    assert_eq!(s.shift_left_same(Vec1(0x81u8), 1).0, 0x02);
    assert_eq!(s.shift_right_same(Vec1(i64::MIN), 63).0, -1);
    assert_eq!(s.shl(Vec1(1u32), Vec1(33u32)).0, 2);
    assert_eq!(s.shr(Vec1(-16i32), Vec1(2i32)).0, -4);
    assert_eq!(s.rotate_right::<u8, 1>(Vec1(0x01u8)).0, 0x80);
    assert_eq!(s.rotate_left::<u16, 4>(Vec1(0x1234u16)).0, 0x2341);
    assert_eq!(s.ror(Vec1(0x1234_5678u32), Vec1(8u32)).0, 0x7812_3456);
    assert_eq!(s.rol(Vec1(0x8000_0000_0000_0001u64), Vec1(1u64)).0, 3);
    assert_eq!(s.rotate_right::<i8, 0>(Vec1(-2i8)).0, -2);
    assert_eq!(s.broadcast_sign_bit(Vec1(-5i32)).0, -1);
    assert_eq!(s.broadcast_sign_bit(Vec1(0x80u8)).0, 0xff);
    assert_eq!(s.broadcast_sign_bit(Vec1(5i32)).0, 0);
}

#[test]
fn byte_shifts_and_bit_counts() {
    let s = Scalar;
    assert_eq!(s.shift_left_bytes::<u32, 1>(Vec1(0x1122_3344u32)).0, 0x2233_4400);
    assert_eq!(s.shift_right_bytes::<u32, 1>(Vec1(0x1122_3344u32)).0, 0x0011_2233);
    assert_eq!(s.shift_left_bytes::<u16, 2>(Vec1(0x1122u16)).0, 0);
    assert_eq!(s.population_count(Vec1(0xf0f0u16)).0, 8);
    assert_eq!(s.population_count(Vec1(-1i64)).0, 64);
    assert_eq!(s.leading_zero_count(Vec1(1u8)).0, 7);
    assert_eq!(s.leading_zero_count(Vec1(0u32)).0, 32);
    assert_eq!(s.leading_zero_count(Vec1(-1i16)).0, 0);
    assert_eq!(s.trailing_zero_count(Vec1(8u64)).0, 3);
    assert_eq!(s.trailing_zero_count(Vec1(0i16)).0, 16);
}

#[test]
fn not_and_not_test_bit() {
    let s = Scalar;
    assert_eq!(s.not(Vec1(0i8)).0, -1);
    assert_eq!(s.and_not(Vec1(0b1100u8), Vec1(0b1010u8)).0, 0b0010);
    assert!(s.test_bit(Vec1(0b1010u8), Vec1(0b0010u8)).to_bool());
    assert!(!s.test_bit(Vec1(0b1010u8), Vec1(0b0101u8)).to_bool());
}

#[test]
fn comparisons_signed_unsigned() {
    let s = Scalar;
    assert!(s.lt(Vec1(-1i8), Vec1(0i8)).to_bool());
    assert!(!s.lt(Vec1(0xffu8), Vec1(0u8)).to_bool());
    assert!(s.ge(Vec1(u64::MAX), Vec1(0u64)).to_bool());
}

#[test]
fn mask_from_bool_patterns() {
    let t = Mask1::<i16>::from_bool(true);
    assert_eq!(t.0, u16::MAX);
    assert!(t.to_bool());
    let f = Mask1::<i16>::from_bool(false);
    assert_eq!(f.0, 0);
    assert!(!f.to_bool());
    // Any non-zero pattern reads as true.
    assert!(Mask1::<u8>(1).to_bool());
}

#[test]
fn mask_operations() {
    let s = Scalar;
    let t = Mask1::<u8>::from_bool(true);
    let f = Mask1::<u8>::from_bool(false);
    assert!(s.and_mask(t, t).to_bool());
    assert!(!s.and_mask(t, f).to_bool());
    assert!(s.or_mask(t, f).to_bool());
    assert!(s.xor_mask(t, f).to_bool());
    assert!(!s.xor_mask(t, t).to_bool());
    assert!(!s.not_mask(t).to_bool());
    assert!(s.exclusive_neither(f, f).to_bool());
    assert!(!s.exclusive_neither(t, f).to_bool());
    assert_eq!(s.find_first_true(t), Some(0));
    assert_eq!(s.find_last_true(f), None);
    assert_eq!(s.bits_from_mask(t), 1);
    assert_eq!(s.bits_from_mask(f), 0);
    assert!(!s.slide_mask_1_up(t).to_bool());
    assert!(!s.slide_mask_1_down(t).to_bool());
    assert!(s.first_n::<u8>(3).to_bool());
    assert!(!s.first_n::<u8>(0).to_bool());
    assert!(s.mask_from_vec(Vec1(7u8)).to_bool());
    assert!(!s.mask_from_vec(Vec1(0u8)).to_bool());
    assert_eq!(s.vec_from_mask(Mask1::<i8>::from_bool(true)).0, -1);
    assert_eq!(s.if_then_else_zero(f, Vec1(5u8)).0, 0);
    assert_eq!(s.if_then_zero_else(f, Vec1(5u8)).0, 5);
}

#[test]
fn sign_selects() {
    let s = Scalar;
    assert_eq!(s.if_negative_then_else(Vec1(-1i32), Vec1(1), Vec1(2)).0, 1);
    assert_eq!(s.if_negative_then_else(Vec1(0x8000u16), Vec1(1), Vec1(2)).0, 1);
    assert_eq!(s.if_negative_then_else(Vec1(1i32), Vec1(1), Vec1(2)).0, 2);
    assert_eq!(s.if_negative_then_else_zero(Vec1(1i32), Vec1(7)).0, 0);
    assert_eq!(s.if_negative_then_zero_else(Vec1(-1i32), Vec1(7)).0, 0);
}

#[test]
fn conversions() {
    let s = Scalar;
    let v16: Vec1<u16> = s.promote_to(Vec1(200u8));
    assert_eq!(v16.0, 200);
    let v64: Vec1<i64> = s.promote_to(Vec1(-5i32));
    assert_eq!(v64.0, -5);
    let v16s: Vec1<i16> = s.demote_to(Vec1(40000i32));
    assert_eq!(v16s.0, i16::MAX);
    let v8: Vec1<i8> = s.demote_to(Vec1(-1000i16));
    assert_eq!(v8.0, i8::MIN);
    let u8v: Vec1<u8> = s.demote_to(Vec1(300u16));
    assert_eq!(u8v.0, 255);
    let t: Vec1<u8> = s.truncate_to(Vec1(0x1234u16));
    assert_eq!(t.0, 0x34);
    let ti: Vec1<i16> = s.truncate_to(Vec1(0x0001_8000i32));
    assert_eq!(ti.0, i16::MIN);
    let upper: Vec1<u32> = s.promote_upper_to(Vec1(7u16));
    assert_eq!(upper.0, 0);
    let w: Vec1<i64> = s.mul_even(Vec1(i32::MIN), Vec1(i32::MIN));
    assert_eq!(w.0, 1i64 << 62);
    let odd: Vec1<u64> = s.mul_odd(Vec1(3u32), Vec1(4u32));
    assert_eq!(odd.0, 0);
    let four: Vec1<i64> = s.sums_of_4(Vec1(-3i16));
    assert_eq!(four.0, -3);
    let bc: Vec1<i32> = s.bitcast(Vec1(u32::MAX));
    assert_eq!(bc.0, -1);
}

#[test]
fn fixed_width_products() {
    let s = Scalar;
    assert_eq!(s.widen_mul_pairwise_add_i16(Vec1(-300), Vec1(300)).0, -90000);
    assert_eq!(s.sat_widen_mul_pairwise_add(Vec1(255), Vec1(-128)).0, -32640);
    assert_eq!(s.mul_fixed_point_15(Vec1(16384), Vec1(16384)).0, 8192);
    assert_eq!(s.mul_fixed_point_15(Vec1(i16::MIN), Vec1(i16::MIN)).0, i16::MIN);
    assert_eq!(s.reorder_widen_mul_accumulate(Vec1(3), Vec1(4), Vec1(10)).0, 22);
    assert_eq!(s.sums_of_8_abs_diff(Vec1(3), Vec1(10)).0, 7);
}

#[test]
fn single_lane_shuffles() {
    let s = Scalar;
    let a = Vec1(1u8);
    let b = Vec1(2u8);
    assert_eq!(s.interleave_lower(a, b).0, 1);
    assert_eq!(s.interleave_upper(a, b).0, 2);
    assert_eq!(s.concat_odd(a, b).0, 2);
    assert_eq!(s.concat_upper_upper(a, b).0, 0);
    assert_eq!(s.dup_odd(a).0, 0);
    assert_eq!(s.slide_up_lanes(a, 1).0, 0);
    assert_eq!(s.slide_up_lanes(a, 0).0, 1);
    assert_eq!(s.compress(a, Mask1::from_bool(false)).0, 0);
    assert_eq!(s.compress_not(a, Mask1::from_bool(false)).0, 1);
    assert_eq!(s.compress_bits(a, 1).0, 1);
    assert_eq!(s.two_tables_lookup_lanes(a, b, Vec1(1u8)).0, 2);
    assert_eq!(s.table_lookup_lanes_or0(a, Vec1(-1i8)).0, 0);
    assert_eq!(s.table_lookup_lanes_or0(a, Vec1(0i8)).0, 1);
    assert_eq!(s.insert_lane(a, 0, 9).0, 9);
    assert_eq!(s.extract_lane(b, 0), 2);
}

#[test]
fn reverse_bits_and_bytes() {
    let s = Scalar;
    assert_eq!(s.reverse_bits(Vec1(0b0000_0001u8)).0, 0b1000_0000);
    assert_eq!(s.reverse_bits(Vec1(0x0001u16)).0, 0x8000);
    assert_eq!(s.reverse_bits(Vec1(1i32)).0, i32::MIN);
    assert_eq!(s.reverse_bits(Vec1(0x0123_4567_89ab_cdefu64)).0, 0x0123_4567_89ab_cdefu64.reverse_bits());
    assert_eq!(s.reverse_lane_bytes(Vec1(0x1234u16)).0, 0x3412);
    assert_eq!(s.reverse_lane_bytes(Vec1(0x1122_3344u32)).0, 0x4433_2211);
    assert_eq!(s.reverse_lane_bytes(Vec1(0x7fu8)).0, 0x7f);
    assert_eq!(s.reverse_lane_bytes(Vec1(0x0102_0304_0506_0708i64)).0, 0x0807_0605_0403_0201);
}

#[test]
fn test_load_store() {
    let s = Scalar;
    let data: [u32; 1] = [42];
    let v: Vec1<u32> = s.load(&data);
    assert_eq!(v.0, 42);

    let mut out: [u32; 1] = [0];
    s.store(v, &mut out);
    assert_eq!(out[0], 42);
}

#[test]
fn masked_and_interleaved_memory() {
    let s = Scalar;
    let data = [7i16, 8, 9, 10];
    let t = Mask1::<i16>::from_bool(true);
    let f = Mask1::<i16>::from_bool(false);
    assert_eq!(s.masked_load(t, &data).0, 7);
    assert_eq!(s.masked_load(f, &[]).0, 0);
    assert_eq!(s.load_expand(t, &data).0, 7);
    assert_eq!(s.gather_index(&data, Vec1(2)).0, 9);
    let (a, b, c, d) = s.load_interleaved_4(&data);
    assert_eq!((a.0, b.0, c.0, d.0), (7, 8, 9, 10));
    let mut out = [0i16; 4];
    s.store_interleaved_3(Vec1(1), Vec1(2), Vec1(3), &mut out);
    assert_eq!(out, [1, 2, 3, 0]);
    s.scatter_index(Vec1(5), &mut out, Vec1(3));
    assert_eq!(out, [1, 2, 3, 5]);
    s.blended_store(Vec1(9), f, &mut out);
    assert_eq!(out, [1, 2, 3, 5]);
    assert_eq!(s.compress_store(Vec1(4), t, &mut out), 1);
    assert_eq!(out, [4, 2, 3, 5]);
    assert_eq!(s.compress_bits_store(Vec1(6), 0, &mut out), 0);
    assert_eq!(out, [4, 2, 3, 5]);
}

#[test]
fn memory_round_trips() {
    let s = Scalar;
    let mut mem = [1u16, 2, 3, 4, 5];
    let v: Vec1<u16> = s.splat(77);
    s.store(v, &mut mem);
    let back: Vec1<u16> = s.load(&mem);
    assert_eq!(back, v);
    let idx: Vec1<i32> = s.splat(3);
    s.scatter_index(s.splat(99u16), &mut mem, idx);
    let g: Vec1<u16> = s.gather_index(&mem, idx);
    assert_eq!(g.0, 99);
    let (a, b, c, d) = (s.splat(10i8), s.splat(-20i8), s.splat(30i8), s.splat(-40i8));
    let mut m4 = [0i8; 4];
    s.store_interleaved_4(a, b, c, d, &mut m4);
    let (ra, rb, rc, rd) = s.load_interleaved_4(&m4);
    assert_eq!((ra, rb, rc, rd), (a, b, c, d));
    let mut m2 = [0i8; 2];
    s.store_interleaved_2(a, b, &mut m2);
    assert_eq!(s.load_interleaved_2(&m2), (a, b));
}

#[test]
fn xor_and_not_undo_themselves() {
    let s = Scalar;
    let a: Vec1<u8> = s.splat(0b1010_0110);
    let b: Vec1<u8> = s.splat(0b0110_1100);
    assert_eq!(s.xor(s.xor(a, b), b), a);
    assert_eq!(s.not(s.not(a)), a);
    let w: Vec1<i64> = s.splat(-12345);
    assert_eq!(s.not(s.not(w)), w);
    assert_eq!(s.not(w).0, 12344);
}

#[test]
fn test_zero_and_splat() {
    let s = Scalar;
    let z: Vec1<u32> = s.zero();
    assert_eq!(z.0, 0);

    let v: Vec1<u32> = s.splat(42);
    assert_eq!(v.0, 42);
}

#[test]
fn test_promote_demote() {
    let s = Scalar;
    // u8 -> u16
    let v8: Vec1<u8> = s.splat(200);
    let v16: Vec1<u16> = s.promote_to(v8);
    assert_eq!(v16.0, 200);

    // i32 -> i16 (saturating)
    let v32: Vec1<i32> = s.splat(40000);
    let v16s: Vec1<i16> = s.demote_to(v32);
    assert_eq!(v16s.0, i16::MAX);
}

#[test]
fn test_abs_neg() {
    let s = Scalar;
    let v: Vec1<i32> = s.splat(-5);
    let a: Vec1<i32> = s.abs(v);
    assert_eq!(a.0, 5);

    let n: Vec1<i32> = s.neg(v);
    assert_eq!(n.0, 5);
}
