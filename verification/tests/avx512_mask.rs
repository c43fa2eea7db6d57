use highway::backend::avx512::M512;

#[test]
fn lane_counts_and_masks() {
    assert_eq!(M512::<u8>::lane_count(), 64);
    assert_eq!(M512::<i16>::lane_count(), 32);
    assert_eq!(M512::<u32>::lane_count(), 16);
    assert_eq!(M512::<i64>::lane_count(), 8);
    assert_eq!(M512::<u8>::all_lanes_mask(), u64::MAX);
    assert_eq!(M512::<u16>::all_lanes_mask(), 0xffff_ffff);
    assert_eq!(M512::<i32>::all_lanes_mask(), 0xffff);
    assert_eq!(M512::<u64>::all_lanes_mask(), 0xff);
}

#[test]
fn first_n_counts() {
    assert_eq!(M512::<u32>::first_n(3).bits_from_mask(), 0b111);
    assert_eq!(M512::<u32>::first_n(100).bits_from_mask(), 0xffff);
    assert_eq!(M512::<u8>::first_n(64).bits_from_mask(), u64::MAX);
    assert_eq!(M512::<u8>::first_n(0).bits_from_mask(), 0);
    assert_eq!(M512::<u16>::first_n(5).count_true(), 5);
    assert_eq!(M512::<u64>::first_n(9).count_true(), 8);
}

#[test]
fn counting_and_finding() {
    let m = M512::<u64>::from_bits(0b1011_0100 | (1 << 20));
    assert_eq!(m.count_true(), 4);
    assert_eq!(m.find_first_true(), Some(2));
    assert_eq!(m.find_last_true(), Some(7));
    assert!(!m.all_true());
    assert!(!m.all_false());
    let none = M512::<u64>::from_bits(1 << 20);
    assert_eq!(none.find_first_true(), None);
    assert_eq!(none.find_last_true(), None);
    assert!(none.all_false());
    assert!(M512::<u64>::from_bits(0xff).all_true());
}

#[test]
fn logical_ops() {
    let a = M512::<u32>::from_bits(0b1100);
    let b = M512::<u32>::from_raw(0b1010);
    assert_eq!(a.and_mask(b).bits_from_mask(), 0b1000);
    assert_eq!(a.or_mask(b).bits_from_mask(), 0b1110);
    assert_eq!(a.xor_mask(b).bits_from_mask(), 0b0110);
    assert_eq!(a.not_mask().bits_from_mask(), 0xfff3);
    assert_eq!(a.exclusive_neither(b).bits_from_mask(), 0xfff1);
    assert_eq!(a.slide_mask_1_up().bits_from_mask(), 0b11000);
    assert_eq!(a.slide_mask_1_down().bits_from_mask(), 0b110);
    assert_eq!(M512::<u32>::from_bits(0x8000).slide_mask_1_up().bits_from_mask(), 0);
}

#[test]
fn complement_counts_add_up() {
    let m = M512::<i16>::from_bits(0xdead_beef_1234_5678);
    assert_eq!(m.count_true() + m.not_mask().count_true(), M512::<i16>::lane_count());
    assert_eq!(m.not_mask().not_mask().bits_from_mask(), m.bits_from_mask());
}
