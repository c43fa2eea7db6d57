//! The portable path of the wide backends' AES and carry-less multiply operations:
//! a 256- or 512-bit vector is a sequence of independent 128-bit blocks, and each
//! block goes through the software round functions.
use vstd::prelude::*;

use crate::backend::crypto_soft::{
    aes_inv_mix_columns_block, aes_key_gen_assist, aes_key_gen_assist_spec, aes_last_round,
    aes_last_round_inv, aes_last_round_inv_spec, aes_last_round_spec, aes_round, aes_round_inv,
    aes_round_inv_spec, aes_round_spec, clmul_64, clmul_high, clmul_low, inv_mix_columns_spec,
    add_round_key_spec, inv_shift_rows_spec, inv_sub_bytes_spec, lemma_aes_last_round_bytes,
    lemma_aes_last_round_inv_undone, lemma_aes_last_round_undone, lemma_aes_round_inv_undone,
    lemma_aes_round_undone, mix_columns_spec, shift_rows_spec, sub_bytes_spec, SBOX,
};

verus! {

/// Block `k` (bytes `16k .. 16k + 16`) of a byte sequence.
pub open spec fn block(s: Seq<u8>, k: int) -> Seq<u8> {
    s.subrange(16 * k, 16 * k + 16)
}

/// Which AES round a blockwise application performs.
#[derive(Clone, Copy, Debug, PartialEq, Eq)]
pub enum AesStep {
    /// One encryption round.
    Round,
    /// The last encryption round.
    LastRound,
    /// One decryption round.
    RoundInv,
    /// The last decryption round.
    LastRoundInv,
}

/// The round `step` on one block and round key.
pub open spec fn aes_step_spec(step: AesStep, s: Seq<u8>, k: Seq<u8>) -> Seq<u8> {
    match step {
        AesStep::Round => aes_round_spec(s, k),
        AesStep::LastRound => aes_last_round_spec(s, k),
        AesStep::RoundInv => aes_round_inv_spec(s, k),
        AesStep::LastRoundInv => aes_last_round_inv_spec(s, k),
    }
}

/// Each step undoes as the AES round it names: with the round key removed, the
/// encryption rounds are undone by the inverse steps (InvMixColumns only after
/// a full round) and the decryption rounds by the forward steps (MixColumns
/// only after a full round).
pub proof fn lemma_aes_step_undone(s: Seq<u8>, k: Seq<u8>)
    requires
        s.len() == 16,
    ensures
        inv_sub_bytes_spec(
            inv_shift_rows_spec(inv_mix_columns_spec(add_round_key_spec(aes_step_spec(AesStep::Round, s, k), k))),
        ) == s,
        inv_sub_bytes_spec(inv_shift_rows_spec(add_round_key_spec(aes_step_spec(AesStep::LastRound, s, k), k)))
            == s,
        sub_bytes_spec(
            shift_rows_spec(mix_columns_spec(add_round_key_spec(aes_step_spec(AesStep::RoundInv, s, k), k))),
        ) == s,
        sub_bytes_spec(shift_rows_spec(add_round_key_spec(aes_step_spec(AesStep::LastRoundInv, s, k), k)))
            == s,
{
    lemma_aes_round_undone(s, k);
    lemma_aes_last_round_undone(s, k);
    lemma_aes_round_inv_undone(s, k);
    lemma_aes_last_round_inv_undone(s, k);
}

/// Byte `i` of a block after the last-round step is the S-box entry of the block
/// byte that ShiftRows moves to position `i`, XORed with key byte `i`: the same
/// as the 128-bit last round, with no column mixing.
pub proof fn lemma_aes_step_last_round_bytes(s: Seq<u8>, k: Seq<u8>)
    requires
        s.len() == 16,
        k.len() == 16,
    ensures
        forall|i: int|
            0 <= i < 16 ==> #[trigger] aes_step_spec(AesStep::LastRound, s, k)[i] == SBOX@[s[(i + 4 * (i
                % 4)) % 16] as int] ^ k[i],
{
    lemma_aes_last_round_bytes(s, k);
}

/// Copies block `k` out of `s`.
fn load_block(s: &[u8], k: usize) -> (r: [u8; 16])
    requires
        16 * k + 16 <= s@.len(),
    ensures
        r@ == block(s@, k as int),
{
    let mut r = [0u8; 16];
    let len = s.len();
    assert(16 * k + 16 <= len);
    let base = 16 * k;
    for i in 0..16
        invariant
            base == 16 * k,
            base + 16 <= s@.len(),
            forall|j: int| 0 <= j < i ==> r@[j] == s@[base + j],
    {
        r[i] = s[base + i];
    }
    assert(r@ =~= block(s@, k as int));
    r
}

/// Appends the 16 bytes of `b` to `out`.
fn push_block(out: &mut Vec<u8>, b: &[u8; 16])
    ensures
        final(out)@ == old(out)@ + b@,
{
    let ghost start = out@;
    for i in 0..16
        invariant
            out@ == start + b@.subrange(0, i as int),
    {
        out.push(b[i]);
        assert(b@.subrange(0, i + 1) =~= b@.subrange(0, i as int).push(b@[i as int]));
    }
    assert(b@.subrange(0, 16) =~= b@);
}

proof fn lemma_block_of_append(prefix: Seq<u8>, b: Seq<u8>, k: int)
    requires
        prefix.len() == 16 * k,
        b.len() == 16,
        0 <= k,
    ensures
        block(prefix + b, k) == b,
        forall|j: int| 0 <= j < k ==> #[trigger] block(prefix + b, j) == block(prefix, j),
{
    assert(block(prefix + b, k) =~= b);
    assert forall|j: int| 0 <= j < k implies #[trigger] block(prefix + b, j) == block(prefix, j) by {
        assert(block(prefix + b, j) =~= block(prefix, j));
    }
}

/// Applies the round `step` to one block.
fn aes_step_block(step: AesStep, b: &mut [u8; 16], key: &[u8; 16])
    ensures
        final(b)@ == aes_step_spec(step, old(b)@, key@),
{
    match step {
        AesStep::Round => aes_round(b, key),
        AesStep::LastRound => aes_last_round(b, key),
        AesStep::RoundInv => aes_round_inv(b, key),
        AesStep::LastRoundInv => aes_last_round_inv(b, key),
    }
}

/// Applies the round `step` to each 128-bit block of `state` with the matching block
/// of `round_key`.
pub fn aes_step_per_block(step: AesStep, state: &[u8], round_key: &[u8]) -> (r: Vec<u8>)
    requires
        state@.len() == round_key@.len(),
        state@.len() % 16 == 0,
    ensures
        r@.len() == state@.len(),
        forall|k: int|
            0 <= k < state@.len() / 16 ==> #[trigger] block(r@, k) == aes_step_spec(
                step,
                block(state@, k),
                block(round_key@, k),
            ),
{
    let n = state.len() / 16;
    let mut out: Vec<u8> = Vec::new();
    for k in 0..n
        invariant
            n == state@.len() / 16,
            state@.len() % 16 == 0,
            state@.len() == round_key@.len(),
            out@.len() == 16 * k,
            forall|j: int|
                0 <= j < k ==> #[trigger] block(out@, j) == aes_step_spec(
                    step,
                    block(state@, j),
                    block(round_key@, j),
                ),
    {
        let mut b = load_block(state, k);
        let key = load_block(round_key, k);
        aes_step_block(step, &mut b, &key);
        let ghost before = out@;
        push_block(&mut out, &b);
        proof {
            lemma_block_of_append(before, b@, k as int);
        }
    }
    out
}

/// AES KeyGenAssist on each 128-bit block of `v`.
pub fn aes_key_gen_assist_per_block(v: &[u8], rcon: u8) -> (r: Vec<u8>)
    requires
        v@.len() % 16 == 0,
    ensures
        r@.len() == v@.len(),
        forall|k: int|
            0 <= k < v@.len() / 16 ==> #[trigger] block(r@, k) == aes_key_gen_assist_spec(
                block(v@, k),
                rcon,
            ),
{
    let n = v.len() / 16;
    let mut out: Vec<u8> = Vec::new();
    for k in 0..n
        invariant
            n == v@.len() / 16,
            v@.len() % 16 == 0,
            out@.len() == 16 * k,
            forall|j: int|
                0 <= j < k ==> #[trigger] block(out@, j) == aes_key_gen_assist_spec(
                    block(v@, j),
                    rcon,
                ),
    {
        let b = load_block(v, k);
        let res = aes_key_gen_assist(&b, rcon);
        let ghost before = out@;
        push_block(&mut out, &res);
        proof {
            lemma_block_of_append(before, res@, k as int);
        }
    }
    out
}

/// AES InvMixColumns on each 128-bit block of `v`.
pub fn aes_inv_mix_columns_per_block(v: &[u8]) -> (r: Vec<u8>)
    requires
        v@.len() % 16 == 0,
    ensures
        r@.len() == v@.len(),
        forall|k: int|
            0 <= k < v@.len() / 16 ==> #[trigger] block(r@, k) == inv_mix_columns_spec(block(v@, k)),
{
    let n = v.len() / 16;
    let mut out: Vec<u8> = Vec::new();
    for k in 0..n
        invariant
            n == v@.len() / 16,
            v@.len() % 16 == 0,
            out@.len() == 16 * k,
            forall|j: int|
                0 <= j < k ==> #[trigger] block(out@, j) == inv_mix_columns_spec(block(v@, j)),
    {
        let mut b = load_block(v, k);
        aes_inv_mix_columns_block(&mut b);
        let ghost before = out@;
        push_block(&mut out, &b);
        proof {
            lemma_block_of_append(before, b@, k as int);
        }
    }
    out
}

/// Carry-less multiply within each 128-bit block (a pair of `u64` lanes): the lower
/// (`upper == false`) or upper (`upper == true`) lanes of `a` and `b` are multiplied,
/// and the 128-bit product fills the block, low half first.
pub fn cl_mul_per_block(a: &[u64], b: &[u64], upper: bool) -> (r: Vec<u64>)
    requires
        a@.len() == b@.len(),
        a@.len() % 2 == 0,
    ensures
        r@.len() == a@.len(),
        forall|k: int|
            0 <= k < a@.len() / 2 ==> {
                let i = 2 * k + if upper { 1int } else { 0int };
                &&& #[trigger] r@[2 * k] == clmul_low(a@[i], b@[i])
                &&& r@[2 * k + 1] == clmul_high(a@[i], b@[i])
            },
{
    let len = a.len();
    let n = len / 2;
    let mut out: Vec<u64> = Vec::new();
    for k in 0..n
        invariant
            len == a@.len(),
            n == a@.len() / 2,
            a@.len() % 2 == 0,
            a@.len() == b@.len(),
            out@.len() == 2 * k,
            forall|j: int|
                0 <= j < k ==> {
                    let i = 2 * j + if upper { 1int } else { 0int };
                    &&& #[trigger] out@[2 * j] == clmul_low(a@[i], b@[i])
                    &&& out@[2 * j + 1] == clmul_high(a@[i], b@[i])
                },
    {
        assert(2 * k + 1 < a@.len());
        let i = 2 * k + if upper { 1 } else { 0 };
        let (lo, hi) = clmul_64(a[i], b[i]);
        let ghost before = out@;
        out.push(lo);
        out.push(hi);
        assert forall|j: int| 0 <= j < k + 1 implies {
            let i = 2 * j + if upper { 1int } else { 0int };
            &&& #[trigger] out@[2 * j] == clmul_low(a@[i], b@[i])
            &&& out@[2 * j + 1] == clmul_high(a@[i], b@[i])
        } by {
            if j < k {
                assert(out@[2 * j] == before[2 * j]);
                assert(out@[2 * j + 1] == before[2 * j + 1]);
            }
        }
    }
    out
}

} // verus!
