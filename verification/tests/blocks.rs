use highway::backend::blocks::{
    aes_inv_mix_columns_per_block, aes_key_gen_assist_per_block, aes_step_per_block,
    cl_mul_per_block, AesStep,
};
use highway::backend::crypto_soft::{aes_round, aes_round_inv, clmul_64, inv_mix_columns};

#[test]
fn aes_round_on_each_block() {
    let mut state = vec![0u8; 32];
    let mut key = vec![0u8; 32];
    for i in 0..32 {
        state[i] = (i * 7) as u8;
        key[i] = (255 - i) as u8;
    }
    let r = aes_step_per_block(AesStep::Round, &state, &key);
    for k in 0..2 {
        let mut b = [0u8; 16];
        let mut kk = [0u8; 16];
        b.copy_from_slice(&state[16 * k..16 * k + 16]);
        kk.copy_from_slice(&key[16 * k..16 * k + 16]);
        aes_round(&mut b, &kk);
        assert_eq!(&r[16 * k..16 * k + 16], &b);
    }
    let back = aes_step_per_block(AesStep::RoundInv, &r, &key);
    let mut b = [0u8; 16];
    let mut kk = [0u8; 16];
    b.copy_from_slice(&r[16..32]);
    kk.copy_from_slice(&key[16..32]);
    aes_round_inv(&mut b, &kk);
    assert_eq!(&back[16..32], &b);
}

#[test]
fn key_assist_and_inv_mix_on_each_block() {
    let v: Vec<u8> = (0..64).map(|i| i as u8).collect();
    let r = aes_key_gen_assist_per_block(&v, 0x36);
    assert_eq!(r.len(), 64);
    let r3 = highway::backend::crypto_soft::aes_key_gen_assist(
        &<[u8; 16]>::try_from(&v[48..64]).unwrap(),
        0x36,
    );
    assert_eq!(&r[48..64], &r3);
    let m = aes_inv_mix_columns_per_block(&v);
    let mut b = <[u8; 16]>::try_from(&v[16..32]).unwrap();
    inv_mix_columns(&mut b);
    assert_eq!(&m[16..32], &b);
}

#[test]
fn cl_mul_lower_and_upper_per_block() {
    let a = [3u64, 5, 0x8000_0000_0000_0000, 7];
    let b = [6u64, 9, 2, 11];
    let lower = cl_mul_per_block(&a, &b, false);
    assert_eq!(lower, vec![10, 0, 0, 1]);
    let upper = cl_mul_per_block(&a, &b, true);
    let (l0, h0) = clmul_64(5, 9);
    let (l1, h1) = clmul_64(7, 11);
    assert_eq!(upper, vec![l0, h0, l1, h1]);
    assert_eq!(upper, vec![45, 0, 49, 0]);
}
