use highway::backend::crypto_soft::{
    aes_inv_mix_columns_block, aes_key_gen_assist, aes_last_round, aes_last_round_inv,
    aes_round, aes_round_inv, clmul_64, inv_mix_columns, mix_columns, xtime,
};

#[test]
fn xtime_known_values() {
    assert_eq!(xtime(0x57), 0xae);
    assert_eq!(xtime(0xae), 0x47);
    assert_eq!(xtime(0x80), 0x1b);
    assert_eq!(xtime(0), 0);
}

#[test]
fn fips197_cipher_round_vector() {
    // FIPS-197 Appendix B, round 1: start of round state and round key.
    let mut state: [u8; 16] = [
        0x19, 0x3d, 0xe3, 0xbe, 0xa0, 0xf4, 0xe2, 0x2b, 0x9a, 0xc6, 0x8d, 0x2a, 0xe9, 0xf8,
        0x48, 0x08,
    ];
    let key: [u8; 16] = [
        0xa0, 0xfa, 0xfe, 0x17, 0x88, 0x54, 0x2c, 0xb1, 0x23, 0xa3, 0x39, 0x39, 0x2a, 0x6c,
        0x76, 0x05,
    ];
    aes_round(&mut state, &key);
    let expected: [u8; 16] = [
        0xa4, 0x9c, 0x7f, 0xf2, 0x68, 0x9f, 0x35, 0x2b, 0x6b, 0x5b, 0xea, 0x43, 0x02, 0x6a,
        0x50, 0x49,
    ];
    assert_eq!(state, expected);
}

#[test]
fn last_round_inverse_with_zero_key() {
    let original: [u8; 16] = [
        0xde, 0xad, 0xbe, 0xef, 0xca, 0xfe, 0xba, 0xbe, 0x01, 0x23, 0x45, 0x67, 0x89, 0xab,
        0xcd, 0xef,
    ];
    let key = [0x42u8; 16];
    let mut state = original;
    aes_last_round(&mut state, &key);
    for i in 0..16 {
        state[i] ^= key[i];
    }
    aes_last_round_inv(&mut state, &[0u8; 16]);
    assert_eq!(state, original);
}

#[test]
fn mix_columns_inverse_both_ways() {
    let original: [u8; 16] = [
        0x10, 0x32, 0x54, 0x76, 0x98, 0xba, 0xdc, 0xfe, 0xff, 0x00, 0x80, 0x7f, 0x01, 0x02,
        0x04, 0x08,
    ];
    let mut state = original;
    inv_mix_columns(&mut state);
    mix_columns(&mut state);
    assert_eq!(state, original);
    let mut other = original;
    aes_inv_mix_columns_block(&mut other);
    mix_columns(&mut other);
    assert_eq!(other, original);
}

#[test]
fn round_inv_equals_its_steps() {
    let mut state: [u8; 16] = [7u8; 16];
    state[3] = 0x99;
    let key: [u8; 16] = [
        1, 2, 3, 4, 5, 6, 7, 8, 9, 10, 11, 12, 13, 14, 15, 16,
    ];
    let mut a = state;
    aes_round_inv(&mut a, &key);
    let mut b = state;
    highway::backend::crypto_soft::inv_sub_bytes(&mut b);
    highway::backend::crypto_soft::inv_shift_rows(&mut b);
    inv_mix_columns(&mut b);
    highway::backend::crypto_soft::add_round_key(&mut b, &key);
    assert_eq!(a, b);
}

#[test]
fn key_gen_assist_layout() {
    // FIPS-197 key expansion: SubWord(RotWord(09cf4f3c)) ^ Rcon(1) = 8b84eb01.
    let mut block = [0u8; 16];
    block[4] = 0x09;
    block[5] = 0xcf;
    block[6] = 0x4f;
    block[7] = 0x3c;
    let r = aes_key_gen_assist(&block, 0x01);
    assert_eq!(&r[4..8], &[0x8b, 0x84, 0xeb, 0x01]);
    assert_eq!(&r[0..4], &[0x01, 0x8a, 0x84, 0xeb]);
    // Zero input bytes go through the S-box to 0x63.
    assert_eq!(&r[8..12], &[0x63, 0x63, 0x63, 0x63]);
    assert_eq!(&r[12..16], &[0x63 ^ 0x01, 0x63, 0x63, 0x63]);
}

#[test]
fn clmul_commutes_on_examples() {
    assert_eq!(clmul_64(0x1234, 0xabcd), clmul_64(0xabcd, 0x1234));
    // (x^63 + 1)^2 = x^126 + 1 over GF(2).
    assert_eq!(clmul_64(0x8000_0000_0000_0001, 0x8000_0000_0000_0001), (1, 0x4000_0000_0000_0000));
    assert_eq!(clmul_64(0, 0xffff), (0, 0));
    assert_eq!(clmul_64(u64::MAX, 1), (u64::MAX, 0));
}

#[test]
fn clmul_commutes_and_distributes_over_xor() {
    let samples = [0u64, 1, 3, 0x87, 0xdead_beef_0bad_f00d, u64::MAX, 1 << 63, 0x0123_4567_89ab_cdef];
    for &a in &samples {
        for &b in &samples {
            assert_eq!(clmul_64(a, b), clmul_64(b, a));
            for &c in &samples {
                let (bl, bh) = clmul_64(a, b);
                let (cl, ch) = clmul_64(a, c);
                assert_eq!(clmul_64(a, b ^ c), (bl ^ cl, bh ^ ch));
            }
        }
    }
}
