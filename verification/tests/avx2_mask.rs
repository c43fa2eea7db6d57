use highway::backend::avx2::{
    all_false, all_true, bits_from_mask, count_true, find_first_true, find_last_true,
};

#[test]
fn movemask_count_true_per_lane_width() {
    // Bytes 0 and 5 set.
    assert_eq!(count_true::<u8>(0b10_0001), 2);
    // Two 16-bit lanes: each sets two byte bits.
    assert_eq!(count_true::<i16>(0b1100_0011), 2);
    // 32- and 64-bit lanes: one bit per lane.
    assert_eq!(count_true::<u32>(0b1011), 3);
    assert_eq!(count_true::<i64>(0b1111), 4);
    assert_eq!(count_true::<u8>(0xffff_ffff), 32);
    assert_eq!(count_true::<u16>(0), 0);
}

#[test]
fn movemask_all_true_all_false() {
    assert!(all_true(0xffff_ffff));
    assert!(!all_true(0x7fff_ffff));
    assert!(all_false(0));
    assert!(!all_false(0x8000_0000));
}

#[test]
fn movemask_find_first_and_last() {
    assert_eq!(find_first_true::<u8>(0), None);
    assert_eq!(find_last_true::<u8>(0), None);
    // Byte bits 4..7 set: lane 1 of a 32-bit vector.
    assert_eq!(find_first_true::<u32>(0xf0), Some(1));
    assert_eq!(find_last_true::<u32>(0xf0), Some(1));
    // Byte bits 6 and 25 set.
    let m: u32 = (1 << 6) | (1 << 25);
    assert_eq!(find_first_true::<u8>(m), Some(6));
    assert_eq!(find_last_true::<u8>(m), Some(25));
    assert_eq!(find_first_true::<u16>(m), Some(3));
    assert_eq!(find_last_true::<u16>(m), Some(12));
    assert_eq!(find_first_true::<u64>(m), Some(0));
    assert_eq!(find_last_true::<u64>(m), Some(3));
    assert_eq!(find_last_true::<u8>(0x8000_0000), Some(31));
}

#[test]
fn movemask_bits_from_mask_packs_16_bit_lanes() {
    // 8-, 32- and 64-bit lanes pass the movemask through.
    assert_eq!(bits_from_mask::<u8>(0xdead_beef), 0xdead_beef);
    assert_eq!(bits_from_mask::<i32>(0b1010), 0b1010);
    assert_eq!(bits_from_mask::<u64>(0b0110), 0b0110);
    // 16-bit lanes 0, 2 and 15 true: byte bits 0,1 / 4,5 / 30,31.
    let m: u32 = 0b11 | (0b11 << 4) | (0b11 << 30);
    assert_eq!(bits_from_mask::<u16>(m), 0b1000_0000_0000_0101);
    assert_eq!(bits_from_mask::<i16>(0xffff_ffff), 0xffff);
    assert_eq!(bits_from_mask::<i16>(0), 0);
}
