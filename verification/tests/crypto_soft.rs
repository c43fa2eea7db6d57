use highway::backend::crypto_soft::{
    add_round_key, aes_last_round, aes_round, clmul_64, inv_mix_columns, inv_shift_rows,
    inv_sub_bytes, mix_columns, shift_rows, sub_bytes,
};

#[test]
fn test_sub_bytes_roundtrip() {
    let original: [u8; 16] = [
        0x00, 0x11, 0x22, 0x33, 0x44, 0x55, 0x66, 0x77, 0x88, 0x99, 0xaa,
        0xbb, 0xcc, 0xdd, 0xee, 0xff,
    ];
    let mut state = original;
    sub_bytes(&mut state);
    assert_ne!(state, original);
    inv_sub_bytes(&mut state);
    assert_eq!(state, original);
}

#[test]
fn test_shift_rows_roundtrip() {
    let original: [u8; 16] = [
        0x00, 0x11, 0x22, 0x33, 0x44, 0x55, 0x66, 0x77, 0x88, 0x99, 0xaa,
        0xbb, 0xcc, 0xdd, 0xee, 0xff,
    ];
    let mut state = original;
    shift_rows(&mut state);
    assert_ne!(state, original);
    inv_shift_rows(&mut state);
    assert_eq!(state, original);
}

#[test]
fn test_mix_columns_roundtrip() {
    let original: [u8; 16] = [
        0xdb, 0x13, 0x53, 0x45, 0xf2, 0x0a, 0x22, 0x5c, 0x01, 0x01, 0x01,
        0x01, 0xc6, 0xc6, 0xc6, 0xc6,
    ];
    let mut state = original;
    mix_columns(&mut state);
    assert_ne!(state, original);
    inv_mix_columns(&mut state);
    assert_eq!(state, original);
}

#[test]
fn test_mix_columns_known_vector() {
    // FIPS-197 Section 5.1.3 example:
    // Input column: [db, 13, 53, 45] -> Output column: [8e, 4d, a1, bc]
    let mut state = [0u8; 16];
    state[0] = 0xdb;
    state[1] = 0x13;
    state[2] = 0x53;
    state[3] = 0x45;
    mix_columns(&mut state);
    assert_eq!(state[0], 0x8e);
    assert_eq!(state[1], 0x4d);
    assert_eq!(state[2], 0xa1);
    assert_eq!(state[3], 0xbc);
}

#[test]
fn test_aes_round_with_zero_key() {
    // AESRound with zero key = SubBytes + ShiftRows + MixColumns (no key effect)
    let input: [u8; 16] = [
        0x19, 0x3d, 0xe3, 0xbe, 0xa0, 0xf4, 0xe2, 0x2b, 0x9a, 0xc6, 0x8d,
        0x2a, 0xe9, 0xf8, 0x48, 0x08,
    ];
    let zero_key = [0u8; 16];
    let mut state = input;
    aes_round(&mut state, &zero_key);
    // After SubBytes
    let mut expected = input;
    sub_bytes(&mut expected);
    shift_rows(&mut expected);
    mix_columns(&mut expected);
    assert_eq!(state, expected);
}

#[test]
fn test_aes_round_inv_with_adjusted_key() {
    // AESRoundInv with InvMixColumns(key) should invert AESRound
    let original: [u8; 16] = [
        0x00, 0x11, 0x22, 0x33, 0x44, 0x55, 0x66, 0x77, 0x88, 0x99, 0xaa,
        0xbb, 0xcc, 0xdd, 0xee, 0xff,
    ];
    let key: [u8; 16] = [
        0x00, 0x01, 0x02, 0x03, 0x04, 0x05, 0x06, 0x07, 0x08, 0x09, 0x0a,
        0x0b, 0x0c, 0x0d, 0x0e, 0x0f,
    ];
    let mut state = original;
    aes_round(&mut state, &key);
    assert_ne!(state, original);
    // To invert: XOR key, InvMixColumns, InvShiftRows, InvSubBytes
    add_round_key(&mut state, &key);
    inv_mix_columns(&mut state);
    inv_shift_rows(&mut state);
    inv_sub_bytes(&mut state);
    assert_eq!(state, original);
}

#[test]
fn test_aes_last_round_inv_inverts() {
    // AESLastRound: SubBytes + ShiftRows + XOR key
    // Inverse: XOR key, InvShiftRows, InvSubBytes
    let original: [u8; 16] = [
        0xde, 0xad, 0xbe, 0xef, 0xca, 0xfe, 0xba, 0xbe, 0x01, 0x23, 0x45,
        0x67, 0x89, 0xab, 0xcd, 0xef,
    ];
    let key: [u8; 16] = [0x42; 16];
    let mut state = original;
    aes_last_round(&mut state, &key);
    assert_ne!(state, original);
    // Manual inverse
    add_round_key(&mut state, &key);
    inv_shift_rows(&mut state);
    inv_sub_bytes(&mut state);
    assert_eq!(state, original);
}

#[test]
fn test_clmul_known_values() {
    // clmul(1, x) = x for any x
    assert_eq!(clmul_64(1, 0x1234567890abcdef), (0x1234567890abcdef, 0));
    // clmul(x, 1) = x for any x
    assert_eq!(clmul_64(0xdeadbeef, 1), (0xdeadbeef, 0));
    // clmul(2, 3) = 2*3 in GF(2)[x]: (x) * (x+1) = x^2 + x = 0b110 = 6
    assert_eq!(clmul_64(2, 3), (6, 0));
    // clmul(0x8000000000000000, 2) = x^64 -> hi=1, lo=0
    assert_eq!(clmul_64(0x8000000000000000, 2), (0, 1));
}
