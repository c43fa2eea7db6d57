use highway::backend::avx2::{
    leading_zeros_by_halves, ordered_demote_2_to, saturated_add_i32_by_signs,
    saturated_add_i64_by_signs, saturated_add_u32_by_complement, saturated_add_u64_by_complement,
    saturated_sub_i32_by_signs, saturated_sub_i64_by_signs, saturated_sub_u32_by_min,
    saturated_sub_u64_by_min, shr_lane,
};
use highway::backend::avx512::{
    compress_by_chunks, compress_store_by_chunks, expand_lanes, iota_lanes, max_of_lanes_by_halves,
    min_of_lanes_by_halves, mul_high_pair, mul_high_pair_signed, two_tables_lookup_lanes, M512,
};

#[test]
fn leading_zeros_by_halves_matches_leading_zeros() {
    for x in 0u64..16 {
        assert_eq!(leading_zeros_by_halves(x, 4), (x as u8).leading_zeros() as u64 - 4);
    }
    for x in 0u64..256 {
        assert_eq!(leading_zeros_by_halves(x, 8), (x as u8).leading_zeros() as u64);
    }
    for x in [0u64, 1, 0x80, 0xff, 0x100, 0x0f00, 0x7fff, 0x8000, 0xffff] {
        assert_eq!(leading_zeros_by_halves(x, 16), (x as u16).leading_zeros() as u64);
    }
    for x in [0u64, 1, 0xffff, 0x1_0000, 0x7fff_ffff, 0x8000_0000, 0xffff_ffff] {
        assert_eq!(leading_zeros_by_halves(x, 32), (x as u32).leading_zeros() as u64);
    }
    for x in [0u64, 1, 0xffff_ffff, 0x1_0000_0000, 0x0080_0000_0000_0000, u64::MAX] {
        assert_eq!(leading_zeros_by_halves(x, 64), x.leading_zeros() as u64);
    }
}

#[test]
fn signed_saturation_by_sign_bits() {
    let samples32 = [i32::MIN, i32::MIN + 1, -70000, -1, 0, 1, 65536, i32::MAX - 1, i32::MAX];
    for &a in &samples32 {
        for &b in &samples32 {
            assert_eq!(saturated_add_i32_by_signs(a, b), a.saturating_add(b));
            assert_eq!(saturated_sub_i32_by_signs(a, b), a.saturating_sub(b));
        }
    }
    let samples64 = [i64::MIN, i64::MIN + 5, -1 << 40, -1, 0, 3, 1 << 62, i64::MAX - 2, i64::MAX];
    for &a in &samples64 {
        for &b in &samples64 {
            assert_eq!(saturated_add_i64_by_signs(a, b), a.saturating_add(b));
            assert_eq!(saturated_sub_i64_by_signs(a, b), a.saturating_sub(b));
        }
    }
    assert_eq!(saturated_add_i32_by_signs(i32::MAX, 1), i32::MAX);
    assert_eq!(saturated_sub_i32_by_signs(i32::MIN, 1), i32::MIN);
    assert_eq!(saturated_add_i64_by_signs(-5, 3), -2);
}

#[test]
fn unsigned_saturation_by_complement_and_min() {
    let samples32 = [0u32, 1, 0x7fff_ffff, 0x8000_0000, u32::MAX - 1, u32::MAX];
    for &a in &samples32 {
        for &b in &samples32 {
            assert_eq!(saturated_add_u32_by_complement(a, b), a.saturating_add(b));
            assert_eq!(saturated_sub_u32_by_min(a, b), a.saturating_sub(b));
        }
    }
    let samples64 = [0u64, 2, 1 << 63, (1 << 63) - 1, u64::MAX - 7, u64::MAX];
    for &a in &samples64 {
        for &b in &samples64 {
            assert_eq!(saturated_add_u64_by_complement(a, b), a.saturating_add(b));
            assert_eq!(saturated_sub_u64_by_min(a, b), a.saturating_sub(b));
        }
    }
    assert_eq!(saturated_add_u32_by_complement(10, 20), 30);
    assert_eq!(saturated_sub_u64_by_min(3, 10), 0);
}

#[test]
fn ordered_demote_keeps_lo_then_hi() {
    let lo: [i32; 8] = [0, 1, -1, 40000, -40000, 7, 32767, -32768];
    let hi: [i32; 8] = [8, 9, 10, 11, 12, 13, 14, 100_000];
    let r: Vec<i16> = ordered_demote_2_to(&lo, &hi);
    assert_eq!(
        r,
        vec![0, 1, -1, 32767, -32768, 7, 32767, -32768, 8, 9, 10, 11, 12, 13, 14, 32767]
    );

    let lo: [u32; 8] = [0, 1, 65535, 65536, 0x8000_0000, u32::MAX, 3, 4];
    let hi: [u32; 8] = [5, 6, 7, 8, 9, 10, 11, 70000];
    let r: Vec<u16> = ordered_demote_2_to(&lo, &hi);
    assert_eq!(
        r,
        vec![0, 1, 65535, 65535, 65535, 65535, 3, 4, 5, 6, 7, 8, 9, 10, 11, 65535]
    );

    let lo: Vec<u16> = (0..16).map(|i| i * 20).collect();
    let hi: Vec<u16> = (0..16).map(|i| 1000 + i).collect();
    let r: Vec<u8> = ordered_demote_2_to(&lo, &hi);
    let expect: Vec<u8> = (0..16u16)
        .map(|i| (i * 20).min(255) as u8)
        .chain(std::iter::repeat(255u8).take(16))
        .collect();
    assert_eq!(r, expect);

    let lo: Vec<i16> = (0..16).map(|i| i * 20 - 150).collect();
    let hi: Vec<i16> = (0..16).map(|i| -(i * 10)).collect();
    let r: Vec<i8> = ordered_demote_2_to(&lo, &hi);
    let expect: Vec<i8> = lo
        .iter()
        .chain(hi.iter())
        .map(|&x| x.clamp(-128, 127) as i8)
        .collect();
    assert_eq!(r, expect);

    let lo: [i64; 4] = [i64::MIN, -1, 1 << 40, 5];
    let hi: [i64; 4] = [6, 7, -8, i64::MAX];
    let r: Vec<i32> = ordered_demote_2_to(&lo, &hi);
    assert_eq!(r, vec![i32::MIN, -1, i32::MAX, 5, 6, 7, -8, i32::MAX]);
}

#[test]
fn compress_by_chunks_packs_selected_lanes() {
    let v: Vec<u8> = (0..64).map(|i| i as u8 + 1).collect();
    // Lanes 3, 17, 18, 40 and 63.
    let mask: u64 = (1 << 3) | (1 << 17) | (1 << 18) | (1 << 40) | (1 << 63);
    let r = compress_by_chunks(&v, M512::<u8>::from_bits(mask));
    let mut expect = vec![0u8; 64];
    expect[..5].copy_from_slice(&[4, 18, 19, 41, 64]);
    assert_eq!(r, expect);

    let all = compress_by_chunks(&v, M512::<u8>::from_bits(u64::MAX));
    assert_eq!(all, v);
    let none = compress_by_chunks(&v, M512::<u8>::from_bits(0));
    assert_eq!(none, vec![0u8; 64]);

    let w: Vec<i16> = (0..32).map(|i| -(i as i16) - 1).collect();
    // Every odd lane of the first group, lane 31 of the second.
    let mask: u64 = 0xaaaa | (1 << 31);
    let r = compress_by_chunks(&w, M512::<i16>::from_bits(mask));
    let mut expect = vec![0i16; 32];
    expect[..9].copy_from_slice(&[-2, -4, -6, -8, -10, -12, -14, -16, -32]);
    assert_eq!(r, expect);
}

#[test]
fn min_and_max_by_folding_halves() {
    let v: Vec<i8> = (0..64).map(|i| ((i * 37) % 256) as u8 as i8).collect();
    assert_eq!(min_of_lanes_by_halves(&v), *v.iter().min().unwrap());
    assert_eq!(max_of_lanes_by_halves(&v), *v.iter().max().unwrap());
    let u: Vec<u8> = v.iter().map(|&x| x as u8).collect();
    assert_eq!(min_of_lanes_by_halves(&u), 0);
    assert_eq!(max_of_lanes_by_halves(&u), *u.iter().max().unwrap());
    let w: Vec<u16> = (0..32).map(|i| 1000 - (i as u16) * 3).collect();
    assert_eq!(min_of_lanes_by_halves(&w), 907);
    assert_eq!(max_of_lanes_by_halves(&w), 1000);
    let s: Vec<i16> = (0..32).map(|i| if i == 17 { -30000 } else { i as i16 }).collect();
    assert_eq!(min_of_lanes_by_halves(&s), -30000);
    assert_eq!(max_of_lanes_by_halves(&s), 31);
}

#[test]
fn mul_high_pairs_of_lanes() {
    // Two 8-bit lanes per 16-bit word.
    for &(a, b) in &[(0x0000u64, 0x0000u64), (0xffff, 0xffff), (0x1280, 0x0302), (0x80ff, 0xff80)] {
        let expect_lo = ((a & 0xff) * (b & 0xff)) >> 8;
        let expect_hi = ((a >> 8) * (b >> 8)) >> 8;
        assert_eq!(mul_high_pair(a, b, 8), expect_lo | (expect_hi << 8));
    }
    // Two 32-bit lanes per 64-bit word.
    let a: u64 = 0xdead_beef_1234_5678;
    let b: u64 = 0xffff_ffff_8000_0000;
    let lo = ((a & 0xffff_ffff) * (b & 0xffff_ffff)) >> 32;
    let hi = ((a >> 32) * (b >> 32)) >> 32;
    assert_eq!(mul_high_pair(a, b, 32), lo | (hi << 32));
    assert_eq!(mul_high_pair(u64::MAX, u64::MAX, 32), 0xffff_fffe_ffff_fffe);
}

#[test]
fn expand_places_leading_lanes_at_selected_positions() {
    let v: Vec<u32> = (1..=16).collect();
    let mask: u64 = 0b1010_0000_0000_0110;
    let e = expand_lanes(&v, M512::<u32>::from_bits(mask));
    let mut expect = vec![0u32; 16];
    expect[1] = 1;
    expect[2] = 2;
    expect[13] = 3;
    expect[15] = 4;
    assert_eq!(e, expect);
    let all = expand_lanes(&v, M512::<u32>::from_bits(0xffff));
    assert_eq!(all, v);
    let w: Vec<i64> = vec![-1, -2, -3, -4, -5, -6, -7, -8];
    assert_eq!(expand_lanes(&w, M512::<i64>::from_bits(0)), vec![0i64; 8]);
}

#[test]
fn compress_undoes_expand_and_expand_undoes_compress() {
    let v: Vec<u8> = (0..64).map(|i| 100 + i as u8).collect();
    let mask: u64 = 0x8421_0000_f00f_1234;
    let m = M512::<u8>::from_bits(mask);
    let count = mask.count_ones() as usize;
    // Compress after expand: the first `count` lanes of `v`, then zeros.
    let round = compress_by_chunks(&expand_lanes(&v, m), m);
    assert_eq!(&round[..count], &v[..count]);
    assert!(round[count..].iter().all(|&x| x == 0));
    // Expand after compress: the selected lanes in place, zeros elsewhere.
    let back = expand_lanes(&compress_by_chunks(&v, m), m);
    for i in 0..64 {
        let expect = if (mask >> i) & 1 == 1 { v[i] } else { 0 };
        assert_eq!(back[i], expect);
    }
}

#[test]
fn compress_store_writes_only_selected_lanes() {
    let v: Vec<u16> = (0..32).map(|i| 500 + i as u16).collect();
    let mask: u64 = (1 << 0) | (1 << 16) | (1 << 31);
    let mut mem = vec![7u16; 40];
    let n = compress_store_by_chunks(&v, M512::<u16>::from_bits(mask), &mut mem);
    assert_eq!(n, 3);
    assert_eq!(&mem[..3], &[500, 516, 531]);
    assert!(mem[3..].iter().all(|&x| x == 7));
    let mut small = vec![1u8; 2];
    let bytes: Vec<u8> = (0..64).collect();
    let n = compress_store_by_chunks(&bytes, M512::<u8>::from_bits(1 << 40), &mut small);
    assert_eq!(n, 1);
    assert_eq!(small, vec![40, 1]);
}

#[test]
fn variable_shift_right_counts_past_the_width() {
    assert_eq!(shr_lane(0x80u8, 9u8), 0);
    assert_eq!(shr_lane(0x80u8, 7u8), 1);
    assert_eq!(shr_lane(-128i8, 9i8), -1);
    assert_eq!(shr_lane(-128i8, 3i8), -16);
    assert_eq!(shr_lane(100i8, 200u8 as i8), 0);
    assert_eq!(shr_lane(0x8000u16, 15u16), 1);
    assert_eq!(shr_lane(0x8000u16, 16u16), 0);
    assert_eq!(shr_lane(u32::MAX, 32u32), 0);
    assert_eq!(shr_lane(-5i32, 40i32), -1);
    assert_eq!(shr_lane(5i32, 40i32), 0);
    assert_eq!(shr_lane(-8i64, 2i64), -2);
    assert_eq!(shr_lane(u64::MAX, 64u64), 0);
    assert_eq!(shr_lane(u64::MAX, 63u64), 1);
}

#[test]
fn iota_counts_up_from_base_wrapping() {
    let r = iota_lanes(250u8);
    assert_eq!(r.len(), 64);
    assert_eq!(&r[..8], &[250, 251, 252, 253, 254, 255, 0, 1]);
    assert_eq!(r[63], 57);
    let s = iota_lanes(-3i16);
    assert_eq!(s.len(), 32);
    assert_eq!(&s[..5], &[-3, -2, -1, 0, 1]);
    let w = iota_lanes(u32::MAX - 1);
    assert_eq!(w.len(), 16);
    assert_eq!(&w[..4], &[u32::MAX - 1, u32::MAX, 0, 1]);
    assert_eq!(iota_lanes(i64::MAX), vec![
        i64::MAX,
        i64::MIN,
        i64::MIN + 1,
        i64::MIN + 2,
        i64::MIN + 3,
        i64::MIN + 4,
        i64::MIN + 5,
        i64::MIN + 6
    ]);
}

#[test]
fn two_tables_lookup_reads_both_tables_and_zeroes_beyond() {
    let a: Vec<u8> = (0..64).collect();
    let b: Vec<u8> = (100..164).collect();
    let idx: Vec<u8> = (0..64).map(|i| [5u8, 64, 127, 128, 255, 63][i % 6]).collect();
    let r = two_tables_lookup_lanes(&a, &b, &idx);
    for i in 0..64 {
        let expect = match idx[i] {
            k if k < 64 => a[k as usize],
            k if k < 128 => b[k as usize - 64],
            _ => 0,
        };
        assert_eq!(r[i], expect);
    }
    assert_eq!(&r[..6], &[5, 100, 163, 0, 0, 63]);
    let a16: Vec<i16> = (0..32).map(|i| -(i as i16)).collect();
    let b16: Vec<i16> = (0..32).map(|i| 1000 + i as i16).collect();
    let idx16: Vec<i16> = (0..32).map(|i| if i % 2 == 0 { 33 } else { -1 }).collect();
    let r16 = two_tables_lookup_lanes(&a16, &b16, &idx16);
    assert_eq!(r16[0], 1001);
    assert_eq!(r16[1], 0);
}

#[test]
fn signed_mul_high_pairs_of_lanes() {
    // Two i8 lanes per 16-bit word.
    let samples8: [i8; 7] = [-128, -127, -3, -1, 0, 5, 127];
    for &a_lo in &samples8 {
        for &a_hi in &samples8 {
            for &b_lo in &samples8 {
                for &b_hi in &samples8 {
                    let a = (a_lo as u8 as u64) | ((a_hi as u8 as u64) << 8);
                    let b = (b_lo as u8 as u64) | ((b_hi as u8 as u64) << 8);
                    let lo = ((a_lo as i16 * b_lo as i16) >> 8) as u8 as u64;
                    let hi = ((a_hi as i16 * b_hi as i16) >> 8) as u8 as u64;
                    assert_eq!(mul_high_pair_signed(a, b, 8), lo | (hi << 8));
                }
            }
        }
    }
    // Two i32 lanes per 64-bit word.
    let samples32: [i32; 6] = [i32::MIN, -70000, -1, 0, 123_456_789, i32::MAX];
    for &a_lo in &samples32 {
        for &a_hi in &samples32 {
            for &b_lo in &samples32 {
                for &b_hi in &samples32 {
                    let a = (a_lo as u32 as u64) | ((a_hi as u32 as u64) << 32);
                    let b = (b_lo as u32 as u64) | ((b_hi as u32 as u64) << 32);
                    let lo = ((a_lo as i64 * b_lo as i64) >> 32) as u32 as u64;
                    let hi = ((a_hi as i64 * b_hi as i64) >> 32) as u32 as u64;
                    assert_eq!(mul_high_pair_signed(a, b, 32), lo | (hi << 32));
                }
            }
        }
    }
    assert_eq!(mul_high_pair_signed(0x00ff, 0x00ff, 8), 0);
    assert_eq!(mul_high_pair_signed(0x0080, 0x0080, 8), 0x0040);
}
