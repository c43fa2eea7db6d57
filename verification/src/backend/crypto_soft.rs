//! Software AES round operations and carry-less multiplication on 128-bit blocks.
use vstd::prelude::*;

verus! {

/// AES forward S-box.
pub const SBOX: [u8; 256] = [
    0x63, 0x7c, 0x77, 0x7b, 0xf2, 0x6b, 0x6f, 0xc5, 0x30, 0x01, 0x67, 0x2b,
    0xfe, 0xd7, 0xab, 0x76, 0xca, 0x82, 0xc9, 0x7d, 0xfa, 0x59, 0x47, 0xf0,
    0xad, 0xd4, 0xa2, 0xaf, 0x9c, 0xa4, 0x72, 0xc0, 0xb7, 0xfd, 0x93, 0x26,
    0x36, 0x3f, 0xf7, 0xcc, 0x34, 0xa5, 0xe5, 0xf1, 0x71, 0xd8, 0x31, 0x15,
    0x04, 0xc7, 0x23, 0xc3, 0x18, 0x96, 0x05, 0x9a, 0x07, 0x12, 0x80, 0xe2,
    0xeb, 0x27, 0xb2, 0x75, 0x09, 0x83, 0x2c, 0x1a, 0x1b, 0x6e, 0x5a, 0xa0,
    0x52, 0x3b, 0xd6, 0xb3, 0x29, 0xe3, 0x2f, 0x84, 0x53, 0xd1, 0x00, 0xed,
    0x20, 0xfc, 0xb1, 0x5b, 0x6a, 0xcb, 0xbe, 0x39, 0x4a, 0x4c, 0x58, 0xcf,
    0xd0, 0xef, 0xaa, 0xfb, 0x43, 0x4d, 0x33, 0x85, 0x45, 0xf9, 0x02, 0x7f,
    0x50, 0x3c, 0x9f, 0xa8, 0x51, 0xa3, 0x40, 0x8f, 0x92, 0x9d, 0x38, 0xf5,
    0xbc, 0xb6, 0xda, 0x21, 0x10, 0xff, 0xf3, 0xd2, 0xcd, 0x0c, 0x13, 0xec,
    0x5f, 0x97, 0x44, 0x17, 0xc4, 0xa7, 0x7e, 0x3d, 0x64, 0x5d, 0x19, 0x73,
    0x60, 0x81, 0x4f, 0xdc, 0x22, 0x2a, 0x90, 0x88, 0x46, 0xee, 0xb8, 0x14,
    0xde, 0x5e, 0x0b, 0xdb, 0xe0, 0x32, 0x3a, 0x0a, 0x49, 0x06, 0x24, 0x5c,
    0xc2, 0xd3, 0xac, 0x62, 0x91, 0x95, 0xe4, 0x79, 0xe7, 0xc8, 0x37, 0x6d,
    0x8d, 0xd5, 0x4e, 0xa9, 0x6c, 0x56, 0xf4, 0xea, 0x65, 0x7a, 0xae, 0x08,
    0xba, 0x78, 0x25, 0x2e, 0x1c, 0xa6, 0xb4, 0xc6, 0xe8, 0xdd, 0x74, 0x1f,
    0x4b, 0xbd, 0x8b, 0x8a, 0x70, 0x3e, 0xb5, 0x66, 0x48, 0x03, 0xf6, 0x0e,
    0x61, 0x35, 0x57, 0xb9, 0x86, 0xc1, 0x1d, 0x9e, 0xe1, 0xf8, 0x98, 0x11,
    0x69, 0xd9, 0x8e, 0x94, 0x9b, 0x1e, 0x87, 0xe9, 0xce, 0x55, 0x28, 0xdf,
    0x8c, 0xa1, 0x89, 0x0d, 0xbf, 0xe6, 0x42, 0x68, 0x41, 0x99, 0x2d, 0x0f,
    0xb0, 0x54, 0xbb, 0x16,];

/// AES inverse S-box.
pub const INV_SBOX: [u8; 256] = [
    0x52, 0x09, 0x6a, 0xd5, 0x30, 0x36, 0xa5, 0x38, 0xbf, 0x40, 0xa3, 0x9e,
    0x81, 0xf3, 0xd7, 0xfb, 0x7c, 0xe3, 0x39, 0x82, 0x9b, 0x2f, 0xff, 0x87,
    0x34, 0x8e, 0x43, 0x44, 0xc4, 0xde, 0xe9, 0xcb, 0x54, 0x7b, 0x94, 0x32,
    0xa6, 0xc2, 0x23, 0x3d, 0xee, 0x4c, 0x95, 0x0b, 0x42, 0xfa, 0xc3, 0x4e,
    0x08, 0x2e, 0xa1, 0x66, 0x28, 0xd9, 0x24, 0xb2, 0x76, 0x5b, 0xa2, 0x49,
    0x6d, 0x8b, 0xd1, 0x25, 0x72, 0xf8, 0xf6, 0x64, 0x86, 0x68, 0x98, 0x16,
    0xd4, 0xa4, 0x5c, 0xcc, 0x5d, 0x65, 0xb6, 0x92, 0x6c, 0x70, 0x48, 0x50,
    0xfd, 0xed, 0xb9, 0xda, 0x5e, 0x15, 0x46, 0x57, 0xa7, 0x8d, 0x9d, 0x84,
    0x90, 0xd8, 0xab, 0x00, 0x8c, 0xbc, 0xd3, 0x0a, 0xf7, 0xe4, 0x58, 0x05,
    0xb8, 0xb3, 0x45, 0x06, 0xd0, 0x2c, 0x1e, 0x8f, 0xca, 0x3f, 0x0f, 0x02,
    0xc1, 0xaf, 0xbd, 0x03, 0x01, 0x13, 0x8a, 0x6b, 0x3a, 0x91, 0x11, 0x41,
    0x4f, 0x67, 0xdc, 0xea, 0x97, 0xf2, 0xcf, 0xce, 0xf0, 0xb4, 0xe6, 0x73,
    0x96, 0xac, 0x74, 0x22, 0xe7, 0xad, 0x35, 0x85, 0xe2, 0xf9, 0x37, 0xe8,
    0x1c, 0x75, 0xdf, 0x6e, 0x47, 0xf1, 0x1a, 0x71, 0x1d, 0x29, 0xc5, 0x89,
    0x6f, 0xb7, 0x62, 0x0e, 0xaa, 0x18, 0xbe, 0x1b, 0xfc, 0x56, 0x3e, 0x4b,
    0xc6, 0xd2, 0x79, 0x20, 0x9a, 0xdb, 0xc0, 0xfe, 0x78, 0xcd, 0x5a, 0xf4,
    0x1f, 0xdd, 0xa8, 0x33, 0x88, 0x07, 0xc7, 0x31, 0xb1, 0x12, 0x10, 0x59,
    0x27, 0x80, 0xec, 0x5f, 0x60, 0x51, 0x7f, 0xa9, 0x19, 0xb5, 0x4a, 0x0d,
    0x2d, 0xe5, 0x7a, 0x9f, 0x93, 0xc9, 0x9c, 0xef, 0xa0, 0xe0, 0x3b, 0x4d,
    0xae, 0x2a, 0xf5, 0xb0, 0xc8, 0xeb, 0xbb, 0x3c, 0x83, 0x53, 0x99, 0x61,
    0x17, 0x2b, 0x04, 0x7e, 0xba, 0x77, 0xd6, 0x26, 0xe1, 0x69, 0x14, 0x63,
    0x55, 0x21, 0x0c, 0x7d,];

/// The S-box as a function on bytes.
pub open spec fn sbox(x: u8) -> u8 {
    SBOX@[x as int]
}

/// The inverse S-box as a function on bytes.
pub open spec fn inv_sbox(x: u8) -> u8 {
    INV_SBOX@[x as int]
}

/// Both tables agree as inverse permutations on the bytes `lo .. lo + n`.
spec fn sbox_tables_inverse_on(lo: nat, n: nat) -> bool
    decreases n,
{
    if n == 0 {
        true
    } else {
        let x = (lo + n - 1) as u8;
        &&& inv_sbox(sbox(x)) == x
        &&& sbox(inv_sbox(x)) == x
        &&& sbox_tables_inverse_on(lo, (n - 1) as nat)
    }
}

proof fn lemma_sbox_tables_inverse_on(lo: nat, n: nat, x: u8)
    requires
        sbox_tables_inverse_on(lo, n),
        lo <= x < lo + n,
    ensures
        inv_sbox(sbox(x)) == x,
        sbox(inv_sbox(x)) == x,
    decreases n,
{
    if x + 1 < lo + n {
        lemma_sbox_tables_inverse_on(lo, (n - 1) as nat, x);
    }
}

proof fn lemma_sbox_tables_quarter_0()
    ensures
        sbox_tables_inverse_on(0, 64),
{
    reveal_with_fuel(sbox_tables_inverse_on, 65);
}

proof fn lemma_sbox_tables_quarter_1()
    ensures
        sbox_tables_inverse_on(64, 64),
{
    reveal_with_fuel(sbox_tables_inverse_on, 65);
}

proof fn lemma_sbox_tables_quarter_2()
    ensures
        sbox_tables_inverse_on(128, 64),
{
    reveal_with_fuel(sbox_tables_inverse_on, 65);
}

proof fn lemma_sbox_tables_quarter_3()
    ensures
        sbox_tables_inverse_on(192, 64),
{
    reveal_with_fuel(sbox_tables_inverse_on, 65);
}

/// The inverse S-box undoes the S-box, and the other way round.
pub proof fn lemma_sbox_inverse(x: u8)
    ensures
        inv_sbox(sbox(x)) == x,
        sbox(inv_sbox(x)) == x,
{
    if x < 64 {
        lemma_sbox_tables_quarter_0();
        lemma_sbox_tables_inverse_on(0, 64, x);
    } else if x < 128 {
        lemma_sbox_tables_quarter_1();
        lemma_sbox_tables_inverse_on(64, 64, x);
    } else if x < 192 {
        lemma_sbox_tables_quarter_2();
        lemma_sbox_tables_inverse_on(128, 64, x);
    } else {
        lemma_sbox_tables_quarter_3();
        lemma_sbox_tables_inverse_on(192, 64, x);
    }
}

/// Multiplication by `x` (that is, by 2) in GF(2^8) with the AES polynomial
/// x^8 + x^4 + x^3 + x + 1.
pub open spec fn gf_double(b: u8) -> u8 {
    if b < 0x80 {
        (2 * b) as u8
    } else {
        ((2 * b - 0x100) as u8) ^ 0x1b
    }
}

/// Multiplication of `b` by the constant `a` in GF(2^8): `b` is added once for each
/// set bit of `a`, doubled in the field at each bit position.
pub open spec fn gf_mul(a: nat, b: u8) -> u8
    decreases a,
{
    if a == 0 {
        0
    } else {
        (if a % 2 == 1 { b } else { 0u8 }) ^ gf_mul(a / 2, gf_double(b))
    }
}

/// Multiply by 2 in GF(2^8) with polynomial x^8 + x^4 + x^3 + x + 1.
pub fn xtime(x: u8) -> (r: u8)
    ensures
        r == gf_double(x),
{
    let shifted = (x as u16) << 1;
    let r = (shifted ^ (if x & 0x80 != 0 { 0x1Bu16 } else { 0u16 })) as u8;
    assert(r == gf_double(x)) by (bit_vector)
        requires
            shifted == (x as u16) << 1,
            r == (shifted ^ (if x & 0x80 != 0 { 0x1Bu16 } else { 0u16 })) as u8,
    ;
    r
}

/// Coefficient of the MixColumns matrix `[[2,3,1,1],[1,2,3,1],[1,1,2,3],[3,1,1,2]]`
/// in row `r`, column `k`, given `d = (k - r) mod 4`.
pub open spec fn mix_coefficient(d: int) -> nat {
    if d == 0 {
        2
    } else if d == 1 {
        3
    } else {
        1
    }
}

/// Coefficient of the InvMixColumns matrix
/// `[[14,11,13,9],[9,14,11,13],[13,9,14,11],[11,13,9,14]]`, given `d = (k - r) mod 4`.
pub open spec fn inv_mix_coefficient(d: int) -> nat {
    if d == 0 {
        14
    } else if d == 1 {
        11
    } else if d == 2 {
        13
    } else {
        9
    }
}

/// Entry in row `r`, column `k` of the MixColumns matrix.
pub open spec fn mix_entry(r: int, k: int) -> nat {
    mix_coefficient((k - r + 4) % 4)
}

/// Entry in row `r`, column `k` of the InvMixColumns matrix.
pub open spec fn inv_mix_entry(r: int, k: int) -> nat {
    inv_mix_coefficient((k - r + 4) % 4)
}

/// Row `r` of the MixColumns matrix times the column `(b0, b1, b2, b3)`.
pub open spec fn mix_row(r: int, b0: u8, b1: u8, b2: u8, b3: u8) -> u8 {
    ((gf_mul(mix_entry(r, 0), b0) ^ gf_mul(mix_entry(r, 1), b1)) ^ gf_mul(mix_entry(r, 2), b2))
        ^ gf_mul(mix_entry(r, 3), b3)
}

/// Row `r` of the InvMixColumns matrix times the column `(b0, b1, b2, b3)`.
pub open spec fn inv_mix_row(r: int, b0: u8, b1: u8, b2: u8, b3: u8) -> u8 {
    ((gf_mul(inv_mix_entry(r, 0), b0) ^ gf_mul(inv_mix_entry(r, 1), b1)) ^ gf_mul(
        inv_mix_entry(r, 2),
        b2,
    )) ^ gf_mul(inv_mix_entry(r, 3), b3)
}

proof fn lemma_xor_regroup(p: u8, q: u8, r: u8, t: u8) by (bit_vector)
    ensures
        (p ^ q) ^ (r ^ t) == (p ^ r) ^ (q ^ t),
        p ^ 0u8 == p,
        0u8 ^ p == p,
        0u8 ^ 0u8 == 0u8,
{
}

proof fn lemma_gf_double_linear(x: u8, y: u8) by (bit_vector)
    ensures
        gf_double(x ^ y) == gf_double(x) ^ gf_double(y),
{
}

/// Multiplication by a constant in GF(2^8) distributes over addition (XOR).
pub proof fn lemma_gf_mul_linear(a: nat, x: u8, y: u8)
    ensures
        gf_mul(a, x ^ y) == gf_mul(a, x) ^ gf_mul(a, y),
    decreases a,
{
    if a > 0 {
        lemma_gf_double_linear(x, y);
        lemma_gf_mul_linear(a / 2, gf_double(x), gf_double(y));
        let px = if a % 2 == 1 { x } else { 0u8 };
        let py = if a % 2 == 1 { y } else { 0u8 };
        lemma_xor_regroup(px, py, gf_mul(a / 2, gf_double(x)), gf_mul(a / 2, gf_double(y)));
        assert(px ^ py == (if a % 2 == 1 { x ^ y } else { 0u8 }));
    } else {
        lemma_xor_regroup(0, 0, 0, 0);
    }
}

proof fn lemma_xor_regroup_grid(
    t00: u8, t01: u8, t02: u8, t03: u8,
    t10: u8, t11: u8, t12: u8, t13: u8,
    t20: u8, t21: u8, t22: u8, t23: u8,
    t30: u8, t31: u8, t32: u8, t33: u8,
) by (bit_vector)
    ensures
        (((t00 ^ t01) ^ t02) ^ t03) ^ (((t10 ^ t11) ^ t12) ^ t13) ^ (((t20 ^ t21) ^ t22) ^ t23)
            ^ (((t30 ^ t31) ^ t32) ^ t33)
        == (((t00 ^ t10) ^ t20) ^ t30) ^ (((t01 ^ t11) ^ t21) ^ t31) ^ (((t02 ^ t12) ^ t22) ^ t32)
            ^ (((t03 ^ t13) ^ t23) ^ t33),
{
}

/// A constant times a sum of four bytes is the sum of the four products.
proof fn lemma_gf_mul_linear4(a: nat, y0: u8, y1: u8, y2: u8, y3: u8)
    ensures
        gf_mul(a, ((y0 ^ y1) ^ y2) ^ y3)
            == ((gf_mul(a, y0) ^ gf_mul(a, y1)) ^ gf_mul(a, y2)) ^ gf_mul(a, y3),
{
    lemma_gf_mul_linear(a, (y0 ^ y1) ^ y2, y3);
    lemma_gf_mul_linear(a, y0 ^ y1, y2);
    lemma_gf_mul_linear(a, y0, y1);
}

/// Entry `(r, j)` of the product of the InvMixColumns and MixColumns matrices, applied to `x`.
spec fn inv_mix_mix_entry(r: int, j: int, x: u8) -> u8 {
    ((gf_mul(inv_mix_entry(r, 0), gf_mul(mix_entry(0, j), x)) ^ gf_mul(
        inv_mix_entry(r, 1),
        gf_mul(mix_entry(1, j), x),
    )) ^ gf_mul(inv_mix_entry(r, 2), gf_mul(mix_entry(2, j), x))) ^ gf_mul(
        inv_mix_entry(r, 3),
        gf_mul(mix_entry(3, j), x),
    )
}

/// Entry `(r, j)` of the product of the MixColumns and InvMixColumns matrices, applied to `x`.
spec fn mix_inv_mix_entry(r: int, j: int, x: u8) -> u8 {
    ((gf_mul(mix_entry(r, 0), gf_mul(inv_mix_entry(0, j), x)) ^ gf_mul(
        mix_entry(r, 1),
        gf_mul(inv_mix_entry(1, j), x),
    )) ^ gf_mul(mix_entry(r, 2), gf_mul(inv_mix_entry(2, j), x))) ^ gf_mul(
        mix_entry(r, 3),
        gf_mul(inv_mix_entry(3, j), x),
    )
}

proof fn lemma_inv_mix_mix_identity_matrix(x: u8) by (bit_vector)
    ensures
        inv_mix_mix_entry(0, 0, x) == x,
        inv_mix_mix_entry(0, 1, x) == 0,
        inv_mix_mix_entry(0, 2, x) == 0,
        inv_mix_mix_entry(0, 3, x) == 0,
        inv_mix_mix_entry(1, 0, x) == 0,
        inv_mix_mix_entry(1, 1, x) == x,
        inv_mix_mix_entry(1, 2, x) == 0,
        inv_mix_mix_entry(1, 3, x) == 0,
        inv_mix_mix_entry(2, 0, x) == 0,
        inv_mix_mix_entry(2, 1, x) == 0,
        inv_mix_mix_entry(2, 2, x) == x,
        inv_mix_mix_entry(2, 3, x) == 0,
        inv_mix_mix_entry(3, 0, x) == 0,
        inv_mix_mix_entry(3, 1, x) == 0,
        inv_mix_mix_entry(3, 2, x) == 0,
        inv_mix_mix_entry(3, 3, x) == x,
{
}

proof fn lemma_mix_inv_mix_identity_matrix(x: u8) by (bit_vector)
    ensures
        mix_inv_mix_entry(0, 0, x) == x,
        mix_inv_mix_entry(0, 1, x) == 0,
        mix_inv_mix_entry(0, 2, x) == 0,
        mix_inv_mix_entry(0, 3, x) == 0,
        mix_inv_mix_entry(1, 0, x) == 0,
        mix_inv_mix_entry(1, 1, x) == x,
        mix_inv_mix_entry(1, 2, x) == 0,
        mix_inv_mix_entry(1, 3, x) == 0,
        mix_inv_mix_entry(2, 0, x) == 0,
        mix_inv_mix_entry(2, 1, x) == 0,
        mix_inv_mix_entry(2, 2, x) == x,
        mix_inv_mix_entry(2, 3, x) == 0,
        mix_inv_mix_entry(3, 0, x) == 0,
        mix_inv_mix_entry(3, 1, x) == 0,
        mix_inv_mix_entry(3, 2, x) == 0,
        mix_inv_mix_entry(3, 3, x) == x,
{
}

proof fn lemma_xor_pick(x: u8) by (bit_vector)
    ensures
        ((x ^ 0u8) ^ 0u8) ^ 0u8 == x,
        ((0u8 ^ x) ^ 0u8) ^ 0u8 == x,
        ((0u8 ^ 0u8) ^ x) ^ 0u8 == x,
        ((0u8 ^ 0u8) ^ 0u8) ^ x == x,
{
}

proof fn lemma_inv_mix_row_of_mix(r: int, b0: u8, b1: u8, b2: u8, b3: u8)
    ensures
        inv_mix_row(
            r,
            mix_row(0, b0, b1, b2, b3),
            mix_row(1, b0, b1, b2, b3),
            mix_row(2, b0, b1, b2, b3),
            mix_row(3, b0, b1, b2, b3),
        ) == ((inv_mix_mix_entry(r, 0, b0) ^ inv_mix_mix_entry(r, 1, b1)) ^ inv_mix_mix_entry(
            r,
            2,
            b2,
        )) ^ inv_mix_mix_entry(r, 3, b3),
{
    lemma_gf_mul_linear4(
        inv_mix_entry(r, 0),
        gf_mul(mix_entry(0, 0), b0),
        gf_mul(mix_entry(0, 1), b1),
        gf_mul(mix_entry(0, 2), b2),
        gf_mul(mix_entry(0, 3), b3),
    );
    lemma_gf_mul_linear4(
        inv_mix_entry(r, 1),
        gf_mul(mix_entry(1, 0), b0),
        gf_mul(mix_entry(1, 1), b1),
        gf_mul(mix_entry(1, 2), b2),
        gf_mul(mix_entry(1, 3), b3),
    );
    lemma_gf_mul_linear4(
        inv_mix_entry(r, 2),
        gf_mul(mix_entry(2, 0), b0),
        gf_mul(mix_entry(2, 1), b1),
        gf_mul(mix_entry(2, 2), b2),
        gf_mul(mix_entry(2, 3), b3),
    );
    lemma_gf_mul_linear4(
        inv_mix_entry(r, 3),
        gf_mul(mix_entry(3, 0), b0),
        gf_mul(mix_entry(3, 1), b1),
        gf_mul(mix_entry(3, 2), b2),
        gf_mul(mix_entry(3, 3), b3),
    );
    lemma_xor_regroup_grid(
        gf_mul(inv_mix_entry(r, 0), gf_mul(mix_entry(0, 0), b0)),
        gf_mul(inv_mix_entry(r, 0), gf_mul(mix_entry(0, 1), b1)),
        gf_mul(inv_mix_entry(r, 0), gf_mul(mix_entry(0, 2), b2)),
        gf_mul(inv_mix_entry(r, 0), gf_mul(mix_entry(0, 3), b3)),
        gf_mul(inv_mix_entry(r, 1), gf_mul(mix_entry(1, 0), b0)),
        gf_mul(inv_mix_entry(r, 1), gf_mul(mix_entry(1, 1), b1)),
        gf_mul(inv_mix_entry(r, 1), gf_mul(mix_entry(1, 2), b2)),
        gf_mul(inv_mix_entry(r, 1), gf_mul(mix_entry(1, 3), b3)),
        gf_mul(inv_mix_entry(r, 2), gf_mul(mix_entry(2, 0), b0)),
        gf_mul(inv_mix_entry(r, 2), gf_mul(mix_entry(2, 1), b1)),
        gf_mul(inv_mix_entry(r, 2), gf_mul(mix_entry(2, 2), b2)),
        gf_mul(inv_mix_entry(r, 2), gf_mul(mix_entry(2, 3), b3)),
        gf_mul(inv_mix_entry(r, 3), gf_mul(mix_entry(3, 0), b0)),
        gf_mul(inv_mix_entry(r, 3), gf_mul(mix_entry(3, 1), b1)),
        gf_mul(inv_mix_entry(r, 3), gf_mul(mix_entry(3, 2), b2)),
        gf_mul(inv_mix_entry(r, 3), gf_mul(mix_entry(3, 3), b3)),
    );
}

proof fn lemma_mix_row_of_inv_mix(r: int, b0: u8, b1: u8, b2: u8, b3: u8)
    ensures
        mix_row(
            r,
            inv_mix_row(0, b0, b1, b2, b3),
            inv_mix_row(1, b0, b1, b2, b3),
            inv_mix_row(2, b0, b1, b2, b3),
            inv_mix_row(3, b0, b1, b2, b3),
        ) == ((mix_inv_mix_entry(r, 0, b0) ^ mix_inv_mix_entry(r, 1, b1)) ^ mix_inv_mix_entry(
            r,
            2,
            b2,
        )) ^ mix_inv_mix_entry(r, 3, b3),
{
    lemma_gf_mul_linear4(
        mix_entry(r, 0),
        gf_mul(inv_mix_entry(0, 0), b0),
        gf_mul(inv_mix_entry(0, 1), b1),
        gf_mul(inv_mix_entry(0, 2), b2),
        gf_mul(inv_mix_entry(0, 3), b3),
    );
    lemma_gf_mul_linear4(
        mix_entry(r, 1),
        gf_mul(inv_mix_entry(1, 0), b0),
        gf_mul(inv_mix_entry(1, 1), b1),
        gf_mul(inv_mix_entry(1, 2), b2),
        gf_mul(inv_mix_entry(1, 3), b3),
    );
    lemma_gf_mul_linear4(
        mix_entry(r, 2),
        gf_mul(inv_mix_entry(2, 0), b0),
        gf_mul(inv_mix_entry(2, 1), b1),
        gf_mul(inv_mix_entry(2, 2), b2),
        gf_mul(inv_mix_entry(2, 3), b3),
    );
    lemma_gf_mul_linear4(
        mix_entry(r, 3),
        gf_mul(inv_mix_entry(3, 0), b0),
        gf_mul(inv_mix_entry(3, 1), b1),
        gf_mul(inv_mix_entry(3, 2), b2),
        gf_mul(inv_mix_entry(3, 3), b3),
    );
    lemma_xor_regroup_grid(
        gf_mul(mix_entry(r, 0), gf_mul(inv_mix_entry(0, 0), b0)),
        gf_mul(mix_entry(r, 0), gf_mul(inv_mix_entry(0, 1), b1)),
        gf_mul(mix_entry(r, 0), gf_mul(inv_mix_entry(0, 2), b2)),
        gf_mul(mix_entry(r, 0), gf_mul(inv_mix_entry(0, 3), b3)),
        gf_mul(mix_entry(r, 1), gf_mul(inv_mix_entry(1, 0), b0)),
        gf_mul(mix_entry(r, 1), gf_mul(inv_mix_entry(1, 1), b1)),
        gf_mul(mix_entry(r, 1), gf_mul(inv_mix_entry(1, 2), b2)),
        gf_mul(mix_entry(r, 1), gf_mul(inv_mix_entry(1, 3), b3)),
        gf_mul(mix_entry(r, 2), gf_mul(inv_mix_entry(2, 0), b0)),
        gf_mul(mix_entry(r, 2), gf_mul(inv_mix_entry(2, 1), b1)),
        gf_mul(mix_entry(r, 2), gf_mul(inv_mix_entry(2, 2), b2)),
        gf_mul(mix_entry(r, 2), gf_mul(inv_mix_entry(2, 3), b3)),
        gf_mul(mix_entry(r, 3), gf_mul(inv_mix_entry(3, 0), b0)),
        gf_mul(mix_entry(r, 3), gf_mul(inv_mix_entry(3, 1), b1)),
        gf_mul(mix_entry(r, 3), gf_mul(inv_mix_entry(3, 2), b2)),
        gf_mul(mix_entry(r, 3), gf_mul(inv_mix_entry(3, 3), b3)),
    );
}

/// InvMixColumns undoes MixColumns on one column, and the other way round.
pub proof fn lemma_mix_column_inverse(b0: u8, b1: u8, b2: u8, b3: u8)
    ensures
        inv_mix_row(
            0,
            mix_row(0, b0, b1, b2, b3),
            mix_row(1, b0, b1, b2, b3),
            mix_row(2, b0, b1, b2, b3),
            mix_row(3, b0, b1, b2, b3),
        ) == b0,
        inv_mix_row(
            1,
            mix_row(0, b0, b1, b2, b3),
            mix_row(1, b0, b1, b2, b3),
            mix_row(2, b0, b1, b2, b3),
            mix_row(3, b0, b1, b2, b3),
        ) == b1,
        inv_mix_row(
            2,
            mix_row(0, b0, b1, b2, b3),
            mix_row(1, b0, b1, b2, b3),
            mix_row(2, b0, b1, b2, b3),
            mix_row(3, b0, b1, b2, b3),
        ) == b2,
        inv_mix_row(
            3,
            mix_row(0, b0, b1, b2, b3),
            mix_row(1, b0, b1, b2, b3),
            mix_row(2, b0, b1, b2, b3),
            mix_row(3, b0, b1, b2, b3),
        ) == b3,
        mix_row(
            0,
            inv_mix_row(0, b0, b1, b2, b3),
            inv_mix_row(1, b0, b1, b2, b3),
            inv_mix_row(2, b0, b1, b2, b3),
            inv_mix_row(3, b0, b1, b2, b3),
        ) == b0,
        mix_row(
            1,
            inv_mix_row(0, b0, b1, b2, b3),
            inv_mix_row(1, b0, b1, b2, b3),
            inv_mix_row(2, b0, b1, b2, b3),
            inv_mix_row(3, b0, b1, b2, b3),
        ) == b1,
        mix_row(
            2,
            inv_mix_row(0, b0, b1, b2, b3),
            inv_mix_row(1, b0, b1, b2, b3),
            inv_mix_row(2, b0, b1, b2, b3),
            inv_mix_row(3, b0, b1, b2, b3),
        ) == b2,
        mix_row(
            3,
            inv_mix_row(0, b0, b1, b2, b3),
            inv_mix_row(1, b0, b1, b2, b3),
            inv_mix_row(2, b0, b1, b2, b3),
            inv_mix_row(3, b0, b1, b2, b3),
        ) == b3,
{
    lemma_inv_mix_mix_identity_matrix(b0);
    lemma_inv_mix_mix_identity_matrix(b1);
    lemma_inv_mix_mix_identity_matrix(b2);
    lemma_inv_mix_mix_identity_matrix(b3);
    lemma_mix_inv_mix_identity_matrix(b0);
    lemma_mix_inv_mix_identity_matrix(b1);
    lemma_mix_inv_mix_identity_matrix(b2);
    lemma_mix_inv_mix_identity_matrix(b3);
    lemma_xor_pick(b0);
    lemma_xor_pick(b1);
    lemma_xor_pick(b2);
    lemma_xor_pick(b3);
    lemma_inv_mix_row_of_mix(0, b0, b1, b2, b3);
    lemma_mix_row_of_inv_mix(0, b0, b1, b2, b3);
    lemma_inv_mix_row_of_mix(1, b0, b1, b2, b3);
    lemma_mix_row_of_inv_mix(1, b0, b1, b2, b3);
    lemma_inv_mix_row_of_mix(2, b0, b1, b2, b3);
    lemma_mix_row_of_inv_mix(2, b0, b1, b2, b3);
    lemma_inv_mix_row_of_mix(3, b0, b1, b2, b3);
    lemma_mix_row_of_inv_mix(3, b0, b1, b2, b3);
}

// ---------------------------------------------------------------------------
// The AES state as a sequence of 16 bytes, column-major.
// ---------------------------------------------------------------------------

/// SubBytes: the S-box applied to each byte.
pub open spec fn sub_bytes_spec(s: Seq<u8>) -> Seq<u8> {
    Seq::new(s.len(), |i: int| sbox(s[i]))
}

/// InvSubBytes: the inverse S-box applied to each byte.
pub open spec fn inv_sub_bytes_spec(s: Seq<u8>) -> Seq<u8> {
    Seq::new(s.len(), |i: int| inv_sbox(s[i]))
}

/// ShiftRows moves into position `i` (row `i % 4`) the byte at the position
/// `i % 4` columns further along, cyclically.
pub open spec fn shift_rows_source(i: int) -> int {
    (i + 4 * (i % 4)) % 16
}

/// InvShiftRows moves into position `i` the byte at the position `i % 4` columns
/// further back, cyclically.
pub open spec fn inv_shift_rows_source(i: int) -> int {
    (i + 12 * (i % 4)) % 16
}

/// ShiftRows: row `r` of the 4x4 state rotated left by `r` columns.
pub open spec fn shift_rows_spec(s: Seq<u8>) -> Seq<u8> {
    Seq::new(16, |i: int| s[shift_rows_source(i)])
}

/// InvShiftRows: row `r` of the 4x4 state rotated right by `r` columns.
pub open spec fn inv_shift_rows_spec(s: Seq<u8>) -> Seq<u8> {
    Seq::new(16, |i: int| s[inv_shift_rows_source(i)])
}

/// MixColumns: each column multiplied by the MixColumns matrix over GF(2^8).
pub open spec fn mix_columns_spec(s: Seq<u8>) -> Seq<u8> {
    Seq::new(
        16,
        |i: int|
            {
                let c = i - i % 4;
                mix_row(i % 4, s[c], s[c + 1], s[c + 2], s[c + 3])
            },
    )
}

/// InvMixColumns: each column multiplied by the InvMixColumns matrix over GF(2^8).
pub open spec fn inv_mix_columns_spec(s: Seq<u8>) -> Seq<u8> {
    Seq::new(
        16,
        |i: int|
            {
                let c = i - i % 4;
                inv_mix_row(i % 4, s[c], s[c + 1], s[c + 2], s[c + 3])
            },
    )
}

/// AddRoundKey: the state XORed with the round key, byte by byte.
pub open spec fn add_round_key_spec(s: Seq<u8>, k: Seq<u8>) -> Seq<u8> {
    Seq::new(16, |i: int| s[i] ^ k[i])
}

/// SubBytes: apply S-box to each byte.
pub fn sub_bytes(block: &mut [u8; 16])
    ensures
        final(block)@ == sub_bytes_spec(old(block)@),
{
    for i in 0..16
        invariant
            forall|j: int| 0 <= j < i ==> block@[j] == sbox(old(block)@[j]),
            forall|j: int| i <= j < 16 ==> block@[j] == old(block)@[j],
    {
        block[i] = SBOX[block[i] as usize];
    }
    assert(block@ =~= sub_bytes_spec(old(block)@));
}

/// InvSubBytes: apply inverse S-box to each byte.
pub fn inv_sub_bytes(block: &mut [u8; 16])
    ensures
        final(block)@ == inv_sub_bytes_spec(old(block)@),
{
    for i in 0..16
        invariant
            forall|j: int| 0 <= j < i ==> block@[j] == inv_sbox(old(block)@[j]),
            forall|j: int| i <= j < 16 ==> block@[j] == old(block)@[j],
    {
        block[i] = INV_SBOX[block[i] as usize];
    }
    assert(block@ =~= inv_sub_bytes_spec(old(block)@));
}

/// ShiftRows: cyclically shift rows of the 4x4 state (column-major layout).
///
/// Permutation: [0, 5, 10, 15, 4, 9, 14, 3, 8, 13, 2, 7, 12, 1, 6, 11]
pub fn shift_rows(block: &mut [u8; 16])
    ensures
        final(block)@ == shift_rows_spec(old(block)@),
{
    let t = *block;
    block[0] = t[0];
    block[1] = t[5];
    block[2] = t[10];
    block[3] = t[15];
    block[4] = t[4];
    block[5] = t[9];
    block[6] = t[14];
    block[7] = t[3];
    block[8] = t[8];
    block[9] = t[13];
    block[10] = t[2];
    block[11] = t[7];
    block[12] = t[12];
    block[13] = t[1];
    block[14] = t[6];
    block[15] = t[11];
    assert(block@ =~= shift_rows_spec(t@));
}

/// InvShiftRows: inverse of ShiftRows.
///
/// Permutation: [0, 13, 10, 7, 4, 1, 14, 11, 8, 5, 2, 15, 12, 9, 6, 3]
pub fn inv_shift_rows(block: &mut [u8; 16])
    ensures
        final(block)@ == inv_shift_rows_spec(old(block)@),
{
    let t = *block;
    block[0] = t[0];
    block[1] = t[13];
    block[2] = t[10];
    block[3] = t[7];
    block[4] = t[4];
    block[5] = t[1];
    block[6] = t[14];
    block[7] = t[11];
    block[8] = t[8];
    block[9] = t[5];
    block[10] = t[2];
    block[11] = t[15];
    block[12] = t[12];
    block[13] = t[9];
    block[14] = t[6];
    block[15] = t[3];
    assert(block@ =~= inv_shift_rows_spec(t@));
}

proof fn lemma_mix_column_formula(b0: u8, b1: u8, b2: u8, b3: u8) by (bit_vector)
    ensures
        gf_double(b0) ^ gf_double(b1) ^ b1 ^ b2 ^ b3 == mix_row(0, b0, b1, b2, b3),
        b0 ^ gf_double(b1) ^ gf_double(b2) ^ b2 ^ b3 == mix_row(1, b0, b1, b2, b3),
        b0 ^ b1 ^ gf_double(b2) ^ gf_double(b3) ^ b3 == mix_row(2, b0, b1, b2, b3),
        gf_double(b0) ^ b0 ^ b1 ^ b2 ^ gf_double(b3) == mix_row(3, b0, b1, b2, b3),
{
}

/// MixColumns: multiply each column by the MDS matrix in GF(2^8).
///
/// Matrix: [[2,3,1,1],[1,2,3,1],[1,1,2,3],[3,1,1,2]]
pub fn mix_columns(block: &mut [u8; 16])
    ensures
        final(block)@ == mix_columns_spec(old(block)@),
{
    for col in 0..4
        invariant
            forall|j: int| 0 <= j < 4 * col ==> block@[j] == #[trigger] mix_columns_spec(old(block)@)[j],
            forall|j: int| 4 * col <= j < 16 ==> block@[j] == old(block)@[j],
    {
        let i = col * 4;
        let b0 = block[i];
        let b1 = block[i + 1];
        let b2 = block[i + 2];
        let b3 = block[i + 3];
        let d0 = xtime(b0);
        let d1 = xtime(b1);
        let d2 = xtime(b2);
        let d3 = xtime(b3);
        proof {
            lemma_mix_column_formula(b0, b1, b2, b3);
        }
        block[i] = d0 ^ d1 ^ b1 ^ b2 ^ b3;
        block[i + 1] = b0 ^ d1 ^ d2 ^ b2 ^ b3;
        block[i + 2] = b0 ^ b1 ^ d2 ^ d3 ^ b3;
        block[i + 3] = d0 ^ b0 ^ b1 ^ b2 ^ d3;
        assert forall|j: int| 0 <= j < 4 * (col + 1) implies block@[j]
            == #[trigger] mix_columns_spec(old(block)@)[j] by {
            if j >= 4 * col {
                assert(j - j % 4 == i);
            }
        }
    }
    assert(block@ =~= mix_columns_spec(old(block)@));
}

proof fn lemma_inv_mix_column_formula(b0: u8, b1: u8, b2: u8, b3: u8) by (bit_vector)
    ensures
        (gf_double(gf_double(gf_double(b0))) ^ gf_double(gf_double(b0)) ^ gf_double(b0)) ^ (gf_double(gf_double(gf_double(b1))) ^ gf_double(b1) ^ b1) ^ (gf_double(gf_double(gf_double(b2))) ^ gf_double(gf_double(b2)) ^ b2) ^ (gf_double(gf_double(gf_double(b3))) ^ b3)
            == inv_mix_row(0, b0, b1, b2, b3),
        (gf_double(gf_double(gf_double(b0))) ^ b0) ^ (gf_double(gf_double(gf_double(b1))) ^ gf_double(gf_double(b1)) ^ gf_double(b1)) ^ (gf_double(gf_double(gf_double(b2))) ^ gf_double(b2) ^ b2) ^ (gf_double(gf_double(gf_double(b3))) ^ gf_double(gf_double(b3)) ^ b3)
            == inv_mix_row(1, b0, b1, b2, b3),
        (gf_double(gf_double(gf_double(b0))) ^ gf_double(gf_double(b0)) ^ b0) ^ (gf_double(gf_double(gf_double(b1))) ^ b1) ^ (gf_double(gf_double(gf_double(b2))) ^ gf_double(gf_double(b2)) ^ gf_double(b2)) ^ (gf_double(gf_double(gf_double(b3))) ^ gf_double(b3) ^ b3)
            == inv_mix_row(2, b0, b1, b2, b3),
        (gf_double(gf_double(gf_double(b0))) ^ gf_double(b0) ^ b0) ^ (gf_double(gf_double(gf_double(b1))) ^ gf_double(gf_double(b1)) ^ b1) ^ (gf_double(gf_double(gf_double(b2))) ^ b2) ^ (gf_double(gf_double(gf_double(b3))) ^ gf_double(gf_double(b3)) ^ gf_double(b3))
            == inv_mix_row(3, b0, b1, b2, b3),
{
}

/// InvMixColumns: multiply each column by the inverse MDS matrix in GF(2^8).
///
/// Matrix: [[14,11,13,9],[9,14,11,13],[13,9,14,11],[11,13,9,14]]
pub fn inv_mix_columns(block: &mut [u8; 16])
    ensures
        final(block)@ == inv_mix_columns_spec(old(block)@),
{
    for col in 0..4
        invariant
            forall|j: int|
                0 <= j < 4 * col ==> block@[j] == #[trigger] inv_mix_columns_spec(old(block)@)[j],
            forall|j: int| 4 * col <= j < 16 ==> block@[j] == old(block)@[j],
    {
        let i = col * 4;
        let b0 = block[i];
        let b1 = block[i + 1];
        let b2 = block[i + 2];
        let b3 = block[i + 3];
        // Multiples by 2, 4 and 8 in GF(2^8).
        let x2_0 = xtime(b0);
        let x4_0 = xtime(x2_0);
        let x8_0 = xtime(x4_0);
        let x2_1 = xtime(b1);
        let x4_1 = xtime(x2_1);
        let x8_1 = xtime(x4_1);
        let x2_2 = xtime(b2);
        let x4_2 = xtime(x2_2);
        let x8_2 = xtime(x4_2);
        let x2_3 = xtime(b3);
        let x4_3 = xtime(x2_3);
        let x8_3 = xtime(x4_3);
        proof {
            lemma_inv_mix_column_formula(b0, b1, b2, b3);
        }
        // 9*x  = 8*x ^ x
        // 11*x = 8*x ^ 2*x ^ x
        // 13*x = 8*x ^ 4*x ^ x
        // 14*x = 8*x ^ 4*x ^ 2*x
        block[i] = (x8_0 ^ x4_0 ^ x2_0) ^ (x8_1 ^ x2_1 ^ b1) ^ (x8_2 ^ x4_2 ^ b2) ^ (x8_3 ^ b3);
        block[i + 1] = (x8_0 ^ b0) ^ (x8_1 ^ x4_1 ^ x2_1) ^ (x8_2 ^ x2_2 ^ b2) ^ (x8_3 ^ x4_3 ^ b3);
        block[i + 2] = (x8_0 ^ x4_0 ^ b0) ^ (x8_1 ^ b1) ^ (x8_2 ^ x4_2 ^ x2_2) ^ (x8_3 ^ x2_3 ^ b3);
        block[i + 3] = (x8_0 ^ x2_0 ^ b0) ^ (x8_1 ^ x4_1 ^ b1) ^ (x8_2 ^ b2) ^ (x8_3 ^ x4_3 ^ x2_3);
        assert forall|j: int| 0 <= j < 4 * (col + 1) implies block@[j]
            == #[trigger] inv_mix_columns_spec(old(block)@)[j] by {
            if j >= 4 * col {
                assert(j - j % 4 == i);
            }
        }
    }
    assert(block@ =~= inv_mix_columns_spec(old(block)@));
}

/// AddRoundKey: XOR state with round key.
pub fn add_round_key(block: &mut [u8; 16], key: &[u8; 16])
    ensures
        final(block)@ == add_round_key_spec(old(block)@, key@),
{
    for i in 0..16
        invariant
            forall|j: int| 0 <= j < i ==> block@[j] == old(block)@[j] ^ key@[j],
            forall|j: int| i <= j < 16 ==> block@[j] == old(block)@[j],
    {
        block[i] ^= key[i];
    }
    assert(block@ =~= add_round_key_spec(old(block)@, key@));
}

/// One AES encryption round: SubBytes, ShiftRows, MixColumns, AddRoundKey.
pub open spec fn aes_round_spec(s: Seq<u8>, k: Seq<u8>) -> Seq<u8> {
    add_round_key_spec(mix_columns_spec(shift_rows_spec(sub_bytes_spec(s))), k)
}

/// The last AES encryption round: SubBytes, ShiftRows, AddRoundKey.
pub open spec fn aes_last_round_spec(s: Seq<u8>, k: Seq<u8>) -> Seq<u8> {
    add_round_key_spec(shift_rows_spec(sub_bytes_spec(s)), k)
}

/// One AES decryption round: InvSubBytes, InvShiftRows, InvMixColumns, AddRoundKey.
pub open spec fn aes_round_inv_spec(s: Seq<u8>, k: Seq<u8>) -> Seq<u8> {
    add_round_key_spec(inv_mix_columns_spec(inv_shift_rows_spec(inv_sub_bytes_spec(s))), k)
}

/// The last AES decryption round: InvSubBytes, InvShiftRows, AddRoundKey.
pub open spec fn aes_last_round_inv_spec(s: Seq<u8>, k: Seq<u8>) -> Seq<u8> {
    add_round_key_spec(inv_shift_rows_spec(inv_sub_bytes_spec(s)), k)
}

/// One AES encryption round: SubBytes + ShiftRows + MixColumns + AddRoundKey.
pub fn aes_round(state: &mut [u8; 16], round_key: &[u8; 16])
    ensures
        final(state)@ == aes_round_spec(old(state)@, round_key@),
{
    sub_bytes(state);
    shift_rows(state);
    mix_columns(state);
    add_round_key(state, round_key);
}

/// Last AES encryption round: SubBytes + ShiftRows + AddRoundKey (no MixColumns).
pub fn aes_last_round(state: &mut [u8; 16], round_key: &[u8; 16])
    ensures
        final(state)@ == aes_last_round_spec(old(state)@, round_key@),
{
    sub_bytes(state);
    shift_rows(state);
    add_round_key(state, round_key);
}

/// One AES decryption round: InvSubBytes + InvShiftRows + InvMixColumns + AddRoundKey.
pub fn aes_round_inv(state: &mut [u8; 16], round_key: &[u8; 16])
    ensures
        final(state)@ == aes_round_inv_spec(old(state)@, round_key@),
{
    inv_sub_bytes(state);
    inv_shift_rows(state);
    inv_mix_columns(state);
    add_round_key(state, round_key);
}

/// Last AES decryption round: InvSubBytes + InvShiftRows + AddRoundKey (no InvMixColumns).
pub fn aes_last_round_inv(state: &mut [u8; 16], round_key: &[u8; 16])
    ensures
        final(state)@ == aes_last_round_inv_spec(old(state)@, round_key@),
{
    inv_sub_bytes(state);
    inv_shift_rows(state);
    add_round_key(state, round_key);
}

/// AES KeyGenAssist on a 128-bit block: bytes `0..4` are SubWord of input bytes `4..8`,
/// bytes `4..8` are RotWord of that word with the round constant XORed into its first
/// byte; bytes `8..16` are the same for input bytes `12..16`.
pub open spec fn aes_key_gen_assist_spec(b: Seq<u8>, rcon: u8) -> Seq<u8> {
    seq![
        sbox(b[4]), sbox(b[5]), sbox(b[6]), sbox(b[7]),
        sbox(b[5]) ^ rcon, sbox(b[6]), sbox(b[7]), sbox(b[4]),
        sbox(b[12]), sbox(b[13]), sbox(b[14]), sbox(b[15]),
        sbox(b[13]) ^ rcon, sbox(b[14]), sbox(b[15]), sbox(b[12]),
    ]
}

/// AES KeyGenAssist: SubWord + RotWord + Rcon XOR on 128-bit block.
///
/// Output:
///   - bytes [0..3] = SubWord(input[4..7])
///   - bytes [4..7] = RotWord(SubWord(input[4..7])) XOR Rcon
///   - bytes [8..11] = SubWord(input[12..15])
///   - bytes [12..15] = RotWord(SubWord(input[12..15])) XOR Rcon
#[verifier::spinoff_prover]
pub fn aes_key_gen_assist(block: &[u8; 16], rcon: u8) -> (result: [u8; 16])
    ensures
        result@ == aes_key_gen_assist_spec(block@, rcon),
{
    let mut result = [0u8; 16];
    // SubWord on bytes [4..7]
    let x0 = SBOX[block[4] as usize];
    let x1 = SBOX[block[5] as usize];
    let x2 = SBOX[block[6] as usize];
    let x3 = SBOX[block[7] as usize];
    result[0] = x0;
    result[1] = x1;
    result[2] = x2;
    result[3] = x3;
    // RotWord(SubWord) XOR Rcon: RotWord([x0,x1,x2,x3]) = [x1,x2,x3,x0]
    result[4] = x1 ^ rcon;
    result[5] = x2;
    result[6] = x3;
    result[7] = x0;
    // SubWord on bytes [12..15]
    let y0 = SBOX[block[12] as usize];
    let y1 = SBOX[block[13] as usize];
    let y2 = SBOX[block[14] as usize];
    let y3 = SBOX[block[15] as usize];
    result[8] = y0;
    result[9] = y1;
    result[10] = y2;
    result[11] = y3;
    // RotWord(SubWord) XOR Rcon
    result[12] = y1 ^ rcon;
    result[13] = y2;
    result[14] = y3;
    result[15] = y0;
    assert(result@ =~= aes_key_gen_assist_spec(block@, rcon));
    result
}

/// AES InvMixColumns: apply inverse MixColumns to a 128-bit block.
/// Used for decryption key expansion.
pub fn aes_inv_mix_columns_block(block: &mut [u8; 16])
    ensures
        final(block)@ == inv_mix_columns_spec(old(block)@),
{
    inv_mix_columns(block);
}

// ---------------------------------------------------------------------------
// Laws of the round steps
// ---------------------------------------------------------------------------

/// InvSubBytes undoes SubBytes, and SubBytes undoes InvSubBytes.
pub proof fn lemma_sub_bytes_inverse(s: Seq<u8>)
    ensures
        inv_sub_bytes_spec(sub_bytes_spec(s)) == s,
        sub_bytes_spec(inv_sub_bytes_spec(s)) == s,
{
    assert forall|i: int| 0 <= i < s.len() implies #[trigger] inv_sub_bytes_spec(sub_bytes_spec(s))[i]
        == s[i] && sub_bytes_spec(inv_sub_bytes_spec(s))[i] == s[i] by {
        lemma_sbox_inverse(s[i]);
    }
    assert(inv_sub_bytes_spec(sub_bytes_spec(s)) =~= s);
    assert(sub_bytes_spec(inv_sub_bytes_spec(s)) =~= s);
}

/// InvShiftRows undoes ShiftRows, and ShiftRows undoes InvShiftRows.
pub proof fn lemma_shift_rows_inverse(s: Seq<u8>)
    requires
        s.len() == 16,
    ensures
        inv_shift_rows_spec(shift_rows_spec(s)) == s,
        shift_rows_spec(inv_shift_rows_spec(s)) == s,
{
    assert forall|i: int| 0 <= i < 16 implies shift_rows_source(#[trigger] inv_shift_rows_source(i)) == i
        && inv_shift_rows_source(shift_rows_source(i)) == i by {
        assert(0 <= i % 4 < 4);
    }
    assert(inv_shift_rows_spec(shift_rows_spec(s)) =~= s);
    assert(shift_rows_spec(inv_shift_rows_spec(s)) =~= s);
}

/// InvMixColumns undoes MixColumns, and MixColumns undoes InvMixColumns.
pub proof fn lemma_mix_columns_inverse(s: Seq<u8>)
    requires
        s.len() == 16,
    ensures
        inv_mix_columns_spec(mix_columns_spec(s)) == s,
        mix_columns_spec(inv_mix_columns_spec(s)) == s,
{
    assert forall|i: int| 0 <= i < 16 implies #[trigger] inv_mix_columns_spec(mix_columns_spec(s))[i]
        == s[i] && mix_columns_spec(inv_mix_columns_spec(s))[i] == s[i] by {
        let c = i - i % 4;
        lemma_mix_column_inverse(s[c], s[c + 1], s[c + 2], s[c + 3]);
        assert(c % 4 == 0);
        assert((c + 1) - (c + 1) % 4 == c);
        assert((c + 2) - (c + 2) % 4 == c);
        assert((c + 3) - (c + 3) % 4 == c);
    }
    assert(inv_mix_columns_spec(mix_columns_spec(s)) =~= s);
    assert(mix_columns_spec(inv_mix_columns_spec(s)) =~= s);
}

proof fn lemma_xor_twice(x: u8, k: u8) by (bit_vector)
    ensures
        (x ^ k) ^ k == x,
{
}

/// Adding the same round key twice gives back the state.
pub proof fn lemma_add_round_key_involution(s: Seq<u8>, k: Seq<u8>)
    requires
        s.len() == 16,
    ensures
        add_round_key_spec(add_round_key_spec(s, k), k) == s,
{
    assert forall|i: int| 0 <= i < 16 implies #[trigger] add_round_key_spec(add_round_key_spec(s, k), k)[i]
        == s[i] by {
        lemma_xor_twice(s[i], k[i]);
    }
    assert(add_round_key_spec(add_round_key_spec(s, k), k) =~= s);
}

/// SubBytes (a byte-wise map) and ShiftRows (a permutation) commute, and so do
/// their inverses.
pub proof fn lemma_sub_bytes_shift_rows_commute(s: Seq<u8>)
    requires
        s.len() == 16,
    ensures
        shift_rows_spec(sub_bytes_spec(s)) == sub_bytes_spec(shift_rows_spec(s)),
        inv_shift_rows_spec(inv_sub_bytes_spec(s)) == inv_sub_bytes_spec(inv_shift_rows_spec(s)),
{
    assert forall|i: int| 0 <= i < 16 implies 0 <= #[trigger] shift_rows_source(i) < 16
        && 0 <= inv_shift_rows_source(i) < 16 by {
    }
    assert(shift_rows_spec(sub_bytes_spec(s)) =~= sub_bytes_spec(shift_rows_spec(s)));
    assert(inv_shift_rows_spec(inv_sub_bytes_spec(s)) =~= inv_sub_bytes_spec(inv_shift_rows_spec(s)));
}

/// Removing the round key and then applying InvMixColumns, InvShiftRows and
/// InvSubBytes undoes one encryption round.
pub proof fn lemma_aes_round_undone(s: Seq<u8>, k: Seq<u8>)
    requires
        s.len() == 16,
    ensures
        inv_sub_bytes_spec(
            inv_shift_rows_spec(inv_mix_columns_spec(add_round_key_spec(aes_round_spec(s, k), k))),
        ) == s,
{
    let a = sub_bytes_spec(s);
    let b = shift_rows_spec(a);
    let c = mix_columns_spec(b);
    lemma_add_round_key_involution(c, k);
    lemma_mix_columns_inverse(b);
    lemma_shift_rows_inverse(a);
    lemma_sub_bytes_inverse(s);
}

/// Removing the round key and then applying InvShiftRows and InvSubBytes undoes the
/// last encryption round; so does the last decryption round with a zero key.
pub proof fn lemma_aes_last_round_undone(s: Seq<u8>, k: Seq<u8>)
    requires
        s.len() == 16,
    ensures
        inv_sub_bytes_spec(inv_shift_rows_spec(add_round_key_spec(aes_last_round_spec(s, k), k)))
            == s,
        aes_last_round_inv_spec(add_round_key_spec(aes_last_round_spec(s, k), k), Seq::new(16, |i: int| 0u8))
            == s,
{
    let a = sub_bytes_spec(s);
    let b = shift_rows_spec(a);
    lemma_add_round_key_involution(b, k);
    lemma_shift_rows_inverse(a);
    lemma_sub_bytes_inverse(s);
    lemma_sub_bytes_shift_rows_commute(b);
    let z = Seq::new(16, |i: int| 0u8);
    let t = inv_shift_rows_spec(inv_sub_bytes_spec(b));
    assert forall|i: int| 0 <= i < 16 implies #[trigger] add_round_key_spec(t, z)[i] == t[i] by {
        lemma_xor_twice(t[i], 0);
        lemma_xor_regroup(t[i], 0, 0, 0);
    }
    assert(add_round_key_spec(t, z) =~= t);
}

/// A decryption round is undone by the forward steps: removing the round key
/// and then applying MixColumns, ShiftRows and SubBytes gives back the state.
pub proof fn lemma_aes_round_inv_undone(s: Seq<u8>, k: Seq<u8>)
    requires
        s.len() == 16,
    ensures
        sub_bytes_spec(shift_rows_spec(mix_columns_spec(add_round_key_spec(aes_round_inv_spec(s, k), k))))
            == s,
{
    let a = inv_sub_bytes_spec(s);
    let b = inv_shift_rows_spec(a);
    let c = inv_mix_columns_spec(b);
    lemma_add_round_key_involution(c, k);
    lemma_mix_columns_inverse(b);
    lemma_shift_rows_inverse(a);
    lemma_sub_bytes_inverse(s);
}

/// The last decryption round is undone by ShiftRows and SubBytes once the round
/// key is removed: the key enters the round exactly once, and no
/// InvMixColumns is applied.
pub proof fn lemma_aes_last_round_inv_undone(s: Seq<u8>, k: Seq<u8>)
    requires
        s.len() == 16,
    ensures
        sub_bytes_spec(shift_rows_spec(add_round_key_spec(aes_last_round_inv_spec(s, k), k))) == s,
{
    let a = inv_sub_bytes_spec(s);
    let b = inv_shift_rows_spec(a);
    lemma_add_round_key_involution(b, k);
    lemma_shift_rows_inverse(a);
    lemma_sub_bytes_inverse(s);
}

/// Byte `i` of the last decryption round is the inverse S-box entry of the state
/// byte that moves to position `i` (row `i % 4` turned right by `i % 4`
/// columns), XORed once with key byte `i`.
pub proof fn lemma_aes_last_round_inv_bytes(s: Seq<u8>, k: Seq<u8>)
    requires
        s.len() == 16,
        k.len() == 16,
    ensures
        forall|i: int|
            0 <= i < 16 ==> #[trigger] aes_last_round_inv_spec(s, k)[i] == INV_SBOX@[s[(i + 12 * (i % 4))
                % 16] as int] ^ k[i],
{
}

/// Byte `i` of the last encryption round is the S-box entry of the state byte
/// that moves to position `i` (row `i % 4` turned left by `i % 4` columns),
/// XORed once with key byte `i`; no column mixing takes place.
pub proof fn lemma_aes_last_round_bytes(s: Seq<u8>, k: Seq<u8>)
    requires
        s.len() == 16,
        k.len() == 16,
    ensures
        forall|i: int|
            0 <= i < 16 ==> #[trigger] aes_last_round_spec(s, k)[i] == SBOX@[s[(i + 4 * (i % 4)) % 16] as int]
                ^ k[i],
{
}

/// KeyGenAssist treats input words 1 and 3 alike: output word `2w` (`w` = 0, 1)
/// is SubWord of input word `2w + 1`, and output word `2w + 1` is that word
/// rotated by one byte (byte `j` taken from byte `(j + 1) % 4`) with the round
/// constant XORed into its first byte.
pub proof fn lemma_aes_key_gen_assist_words(b: Seq<u8>, rcon: u8)
    requires
        b.len() == 16,
    ensures
        forall|w: int, j: int|
            0 <= w < 2 && 0 <= j < 4 ==> #[trigger] aes_key_gen_assist_spec(b, rcon)[8 * w + j] == SBOX@[b[8
                * w + 4 + j] as int],
        forall|w: int, j: int|
            0 <= w < 2 && 0 <= j < 4 ==> #[trigger] aes_key_gen_assist_spec(b, rcon)[8 * w + 4 + j] == (if j
                == 0 {
                SBOX@[b[8 * w + 4 + (j + 1) % 4] as int] ^ rcon
            } else {
                SBOX@[b[8 * w + 4 + (j + 1) % 4] as int]
            }),
{
    let r = aes_key_gen_assist_spec(b, rcon);
    assert forall|w: int, j: int| 0 <= w < 2 && 0 <= j < 4 implies #[trigger] r[8 * w + j] == SBOX@[b[8
        * w + 4 + j] as int] by {
        if w == 0 {
            assert(8 * w + j == j);
        } else {
            assert(8 * w + j == 8 + j);
        }
    }
    assert forall|w: int, j: int| 0 <= w < 2 && 0 <= j < 4 implies #[trigger] r[8 * w + 4 + j] == (if j
        == 0 {
        SBOX@[b[8 * w + 4 + (j + 1) % 4] as int] ^ rcon
    } else {
        SBOX@[b[8 * w + 4 + (j + 1) % 4] as int]
    }) by {
        if w == 0 {
            assert(8 * w + 4 + j == 4 + j);
        } else {
            assert(8 * w + 4 + j == 12 + j);
        }
        if j == 0 {
            assert((j + 1) % 4 == 1);
        } else if j == 1 {
            assert((j + 1) % 4 == 2);
        } else if j == 2 {
            assert((j + 1) % 4 == 3);
        } else {
            assert((j + 1) % 4 == 0);
        }
    }
}

// ---------------------------------------------------------------------------
// Carry-less multiplication
// ---------------------------------------------------------------------------

/// The carry-less product of `a` with the lowest `n` bits of `b`: the XOR of the
/// copies of `a` shifted left by `i`, for each set bit `i < n` of `b`.
pub open spec fn clmul_partial(a: u64, b: u64, n: nat) -> u128
    decreases n,
{
    if n == 0 {
        0
    } else {
        let i = (n - 1) as u64;
        clmul_partial(a, b, (n - 1) as nat) ^ (if (b >> i) & 1 != 0 {
            (a as u128) << i
        } else {
            0u128
        })
    }
}

/// The 128-bit carry-less product of two 64-bit values (multiplication of
/// polynomials over GF(2)).
pub open spec fn clmul(a: u64, b: u64) -> u128 {
    clmul_partial(a, b, 64)
}

/// The low 64 bits of the carry-less product.
pub open spec fn clmul_low(a: u64, b: u64) -> u64 {
    #[verifier::truncate]
    (clmul(a, b) as u64)
}

/// The high 64 bits of the carry-less product.
pub open spec fn clmul_high(a: u64, b: u64) -> u64 {
    #[verifier::truncate]
    ((clmul(a, b) >> 64) as u64)
}

/// 64-bit carry-less multiply, producing a 128-bit result as (lo, hi).
pub fn clmul_64(a: u64, b: u64) -> (r: (u64, u64))
    ensures
        r.0 == clmul_low(a, b),
        r.1 == clmul_high(a, b),
{
    let mut result = 0u128;
    let a_wide = a as u128;
    for i in 0u64..64
        invariant
            result == clmul_partial(a, b, i as nat),
            a_wide == a as u128,
    {
        assert(((i + 1) as nat - 1) as u64 == i);
        proof {
            lemma_one_bits(1, result);
        }
        if (b >> i) & 1 != 0 {
            result ^= a_wide << i;
        }
    }
    (#[verifier::truncate] (result as u64), #[verifier::truncate] ((result >> 64) as u64))
}

proof fn lemma_one_bits(k: u64, x: u128) by (bit_vector)
    requires
        1 <= k < 64,
    ensures
        (1u64 >> k) & 1 == 0,
        (1u64 >> 0u64) & 1 != 0,
        x ^ 0u128 == x,
        0u128 ^ x == x,
        x << 0u64 == x,
{
}

proof fn lemma_clmul_by_one_partial(a: u64, n: nat)
    requires
        1 <= n <= 64,
    ensures
        clmul_partial(a, 1, n) == a as u128,
    decreases n,
{
    lemma_one_bits(1, a as u128);
    if n > 1 {
        lemma_clmul_by_one_partial(a, (n - 1) as nat);
        lemma_one_bits((n - 1) as u64, a as u128);
    } else {
        assert(clmul_partial(a, 1, 0) == 0);
    }
}

proof fn lemma_low_bits_step(b: u64, k: u64, x: u128) by (bit_vector)
    requires
        k < 64,
        x == (b as u128) & (((1u128 << k) - 1) as u128),
    ensures
        x ^ (if (b >> k) & 1 != 0 { 1u128 << k } else { 0u128 }) == (b as u128) & (((1u128 << (k + 1)) - 1) as u128),
        (1u64 as u128) << k == 1u128 << k,
{
}

proof fn lemma_low_bits_facts(b: u64, x: u128, y: u128) by (bit_vector)
    ensures
        (b as u128) & (((1u128 << 0u64) - 1) as u128) == 0,
        (b as u128) & (((1u128 << 64u64) - 1) as u128) == b as u128,
        (1u64 as u128) << 0u64 == 1u128,
        ((x ^ y) as u64) == (x as u64) ^ (y as u64),
        (((x ^ y) >> 64) as u64) == ((x >> 64) as u64) ^ ((y >> 64) as u64),
{
}

proof fn lemma_one_times_partial(b: u64, n: nat)
    requires
        n <= 64,
    ensures
        clmul_partial(1, b, n) == (b as u128) & (((1u128 << (n as u64)) - 1) as u128),
    decreases n,
{
    lemma_low_bits_facts(b, 0, 0);
    if n > 0 {
        let k = (n - 1) as u64;
        lemma_one_times_partial(b, (n - 1) as nat);
        lemma_low_bits_step(b, k, clmul_partial(1, b, (n - 1) as nat));
        assert(k + 1 == n as u64);
    }
}

/// Carry-less multiplication by 1, on either side, gives back the other operand.
pub proof fn lemma_clmul_one(x: u64)
    ensures
        clmul(x, 1) == x as u128,
        clmul(1, x) == x as u128,
{
    lemma_clmul_by_one_partial(x, 64);
    lemma_one_times_partial(x, 64);
    lemma_low_bits_facts(x, 0, 0);
}


/// The exclusive-or and shift facts that the carry-less product's laws rest on.
proof fn lemma_clmul_word_algebra(x: u128, y: u128, p: u128, q: u128, a: u64, a2: u64, i: u64, m: u64)
    requires
        i < 64,
        m < 64,
    ensures
        (x ^ y) ^ (p ^ q) == (x ^ p) ^ (y ^ q),
        x ^ 0u128 == x,
        0u128 ^ x == x,
        x ^ x == 0u128,
        ((a ^ a2) as u128) << i == ((a as u128) << i) ^ ((a2 as u128) << i),
        (x ^ y) << m == (x << m) ^ (y << m),
        ((1u64 << m) as u128) << i == ((1u64 as u128) << i) << m,
        (0u64 as u128) << i == 0u128,
        0u128 << m == 0u128,
{
    lemma_xor_group(x, y, p, q);
    lemma_shift_facts(x, y, a, a2, i, m);
}

/// Exclusive-or is associative and commutative, with zero as identity and each
/// word its own inverse.
proof fn lemma_xor_group(x: u128, y: u128, p: u128, q: u128)
    by (bit_vector)
    ensures
        (x ^ y) ^ (p ^ q) == (x ^ p) ^ (y ^ q),
        x ^ 0u128 == x,
        0u128 ^ x == x,
        x ^ x == 0u128,
{
}

/// Shifts distribute over exclusive-or, and single bits shift into single bits.
#[verifier::rlimit(100)]
proof fn lemma_shift_facts(x: u128, y: u128, a: u64, a2: u64, i: u64, m: u64)
    by (bit_vector)
    requires
        i < 64,
        m < 64,
    ensures
        ((a ^ a2) as u128) << i == ((a as u128) << i) ^ ((a2 as u128) << i),
        (x ^ y) << m == (x << m) ^ (y << m),
        ((1u64 << m) as u128) << i == ((1u64 as u128) << i) << m,
        (0u64 as u128) << i == 0u128,
        0u128 << m == 0u128,
{
}

/// The bit facts that the carry-less product's laws rest on.
proof fn lemma_clmul_bit_facts(a: u64, b: u64, c: u64, i: u64, m: u64, m1: u64)
    by (bit_vector)
    requires
        i < 64,
        m < 64,
        m1 == m + 1,
    ensures
        (((b ^ c) >> i) & 1 != 0) == ((((b >> i) & 1) != 0) != (((c >> i) & 1) != 0)),
        (0u64 >> i) & 1 == 0,
        (((1u64 << m) >> i) & 1 != 0) == (i == m),
        (if m1 >= 64 { a } else { a & (((1u64 << m1) - 1) as u64) }) == (a & (((1u64 << m) - 1) as u64)) ^ (
        if (a >> m) & 1 != 0 {
            1u64 << m
        } else {
            0u64
        }),
        a & (((1u64 << 0u64) - 1) as u64) == 0,
{
}

/// The lowest `m` bits of `a`, the rest cleared.
pub open spec fn low_prefix(a: u64, m: u64) -> u64 {
    if m >= 64 {
        a
    } else {
        a & (((1u64 << m) - 1) as u64)
    }
}

/// The partial product is additive (exclusive-or) in its second operand.
proof fn lemma_partial_xor_right(a: u64, b: u64, c: u64, n: nat)
    requires
        n <= 64,
    ensures
        clmul_partial(a, b ^ c, n) == clmul_partial(a, b, n) ^ clmul_partial(a, c, n),
    decreases n,
{
    if n == 0 {
        lemma_clmul_word_algebra(0, 0, 0, 0, a, a, 0, 0);
    } else {
        let i = (n - 1) as u64;
        lemma_partial_xor_right(a, b, c, (n - 1) as nat);
        let t = (a as u128) << i;
        let tb = if (b >> i) & 1 != 0 { t } else { 0u128 };
        let tc = if (c >> i) & 1 != 0 { t } else { 0u128 };
        let tbc = if ((b ^ c) >> i) & 1 != 0 { t } else { 0u128 };
        let pb = clmul_partial(a, b, (n - 1) as nat);
        let pc = clmul_partial(a, c, (n - 1) as nat);
        lemma_clmul_bit_facts(a, b, c, i, 0, 1);
        lemma_xor_group(pb, pc, tb, tc);
        lemma_xor_group(t, 0, 0, 0);
        lemma_xor_group(0, 0, 0, 0);
        assert(tbc == tb ^ tc);
        assert(clmul_partial(a, b, n) == pb ^ tb);
        assert(clmul_partial(a, c, n) == pc ^ tc);
        assert(clmul_partial(a, b ^ c, n) == (pb ^ pc) ^ tbc);
    }
}

/// The partial product is additive (exclusive-or) in its first operand.
proof fn lemma_partial_xor_left(a: u64, a2: u64, b: u64, n: nat)
    requires
        n <= 64,
    ensures
        clmul_partial(a ^ a2, b, n) == clmul_partial(a, b, n) ^ clmul_partial(a2, b, n),
    decreases n,
{
    if n == 0 {
        lemma_clmul_word_algebra(0, 0, 0, 0, a, a2, 0, 0);
    } else {
        let i = (n - 1) as u64;
        lemma_partial_xor_left(a, a2, b, (n - 1) as nat);
        let t1 = (a as u128) << i;
        let t2 = (a2 as u128) << i;
        lemma_clmul_word_algebra(
            clmul_partial(a, b, (n - 1) as nat),
            clmul_partial(a2, b, (n - 1) as nat),
            if (b >> i) & 1 != 0 { t1 } else { 0u128 },
            if (b >> i) & 1 != 0 { t2 } else { 0u128 },
            a,
            a2,
            i,
            0,
        );
        lemma_clmul_word_algebra(0, 0, 0, 0, a, a2, i, 0);
    }
}

/// A zero operand, on either side, gives a zero partial product.
proof fn lemma_partial_zero(b: u64, n: nat)
    requires
        n <= 64,
    ensures
        clmul_partial(0, b, n) == 0,
        clmul_partial(b, 0, n) == 0,
    decreases n,
{
    if n > 0 {
        let i = (n - 1) as u64;
        lemma_partial_zero(b, (n - 1) as nat);
        lemma_clmul_word_algebra(0, 0, 0, 0, 0, 0, i, 0);
        lemma_clmul_bit_facts(0, 0, 0, i, 0, 1);
    }
}

/// Multiplying by the single bit `2^m` on the left shifts the product by 1 by `m`.
proof fn lemma_partial_single_bit_left(b: u64, m: u64, n: nat)
    requires
        n <= 64,
        m < 64,
    ensures
        clmul_partial(1u64 << m, b, n) == clmul_partial(1, b, n) << m,
    decreases n,
{
    if n == 0 {
        lemma_clmul_word_algebra(0, 0, 0, 0, 0, 0, 0, m);
    } else {
        let i = (n - 1) as u64;
        lemma_partial_single_bit_left(b, m, (n - 1) as nat);
        let t = (1u64 as u128) << i;
        lemma_clmul_word_algebra(
            clmul_partial(1, b, (n - 1) as nat),
            if (b >> i) & 1 != 0 { t } else { 0u128 },
            0,
            0,
            0,
            0,
            i,
            m,
        );
    }
}

/// Multiplying by the single bit `2^m` on the right shifts `b` by `m`, once
/// the product has reached bit `m`.
proof fn lemma_partial_single_bit_right(b: u64, m: u64, n: nat)
    requires
        n <= 64,
        m < 64,
    ensures
        clmul_partial(b, 1u64 << m, n) == (if n > m { (b as u128) << m } else { 0u128 }),
    decreases n,
{
    if n > 0 {
        let i = (n - 1) as u64;
        lemma_partial_single_bit_right(b, m, (n - 1) as nat);
        lemma_clmul_bit_facts(0, 0, 0, i, m, (m + 1) as u64);
        let prev = clmul_partial(b, 1u64 << m, (n - 1) as nat);
        lemma_xor_group(prev, 0, 0, 0);
        lemma_xor_group((b as u128) << i, 0, 0, 0);
        if i == m {
            assert(prev == 0u128);
            assert(clmul_partial(b, 1u64 << m, n) == prev ^ ((b as u128) << i));
        } else {
            assert(clmul_partial(b, 1u64 << m, n) == prev ^ 0u128);
        }
    }
}

/// Single bits commute: `clmul(2^m, b) == clmul(b, 2^m)`.
proof fn lemma_clmul_single_bit_commutes(b: u64, m: u64)
    requires
        m < 64,
    ensures
        clmul(1u64 << m, b) == clmul(b, 1u64 << m),
{
    lemma_partial_single_bit_left(b, m, 64);
    lemma_partial_single_bit_right(b, m, 64);
    lemma_clmul_one(b);
}

/// The low bits of `a` commute with `b`, by induction on how many bits.
proof fn lemma_clmul_prefix_commutes(a: u64, b: u64, m: u64)
    requires
        m <= 64,
    ensures
        clmul(low_prefix(a, m), b) == clmul(b, low_prefix(a, m)),
    decreases m,
{
    if m == 0 {
        lemma_clmul_bit_facts(a, 0, 0, 0, 0, 1);
        lemma_partial_zero(b, 64);
    } else {
        let k = (m - 1) as u64;
        lemma_clmul_prefix_commutes(a, b, k);
        lemma_clmul_bit_facts(a, 0, 0, 0, k, m);
        let lower = low_prefix(a, k);
        let e = if (a >> k) & 1 != 0 { 1u64 << k } else { 0u64 };
        assert(low_prefix(a, m) == lower ^ e);
        lemma_partial_xor_left(lower, e, b, 64);
        lemma_partial_xor_right(b, lower, e, 64);
        if (a >> k) & 1 != 0 {
            lemma_clmul_single_bit_commutes(b, k);
        } else {
            lemma_partial_zero(b, 64);
        }
    }
}

/// The carry-less product is commutative: `clmul_64(a, b) == clmul_64(b, a)`.
pub proof fn lemma_clmul_commutative(a: u64, b: u64)
    ensures
        clmul(a, b) == clmul(b, a),
        clmul_low(a, b) == clmul_low(b, a),
        clmul_high(a, b) == clmul_high(b, a),
{
    lemma_clmul_prefix_commutes(a, b, 64);
}

/// The carry-less product distributes over exclusive-or:
/// `clmul_64(a, b ^ c)` is `clmul_64(a, b)` xor `clmul_64(a, c)`, half by half.
pub proof fn lemma_clmul_distributes_over_xor(a: u64, b: u64, c: u64)
    ensures
        clmul(a, b ^ c) == clmul(a, b) ^ clmul(a, c),
        clmul_low(a, b ^ c) == clmul_low(a, b) ^ clmul_low(a, c),
        clmul_high(a, b ^ c) == clmul_high(a, b) ^ clmul_high(a, c),
{
    lemma_partial_xor_right(a, b, c, 64);
    lemma_low_bits_facts(0, clmul(a, b), clmul(a, c));
}


} // verus!
