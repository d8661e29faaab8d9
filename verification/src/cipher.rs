//! Single-block encryption and decryption, and the proof that they are
//! exact inverses.

use vstd::prelude::*;
use crate::word::Word;
use crate::error::Error;

verus! {

/// One encryption round: the two data-dependent rotations and round-key
/// additions applied to the half-block pair.
pub open spec fn enc_round<W: Word>(a: W, b: W, k0: W, k1: W) -> (W, W) {
    let a2 = a.xor_spec(b).rotl_spec(b).wadd_spec(k0);
    let b2 = b.xor_spec(a2).rotl_spec(a2).wadd_spec(k1);
    (a2, b2)
}

/// The block after the first `n` encryption rounds, starting from the
/// half-block pair `(a, b)` that the initial key additions produced.
/// Round `i` consumes table entries `2*i` and `2*i + 1`.
pub open spec fn enc_rounds<W: Word>(a: W, b: W, s: Seq<W>, n: nat) -> (W, W)
    decreases n,
{
    if n == 0 {
        (a, b)
    } else {
        let p = enc_rounds(a, b, s, (n - 1) as nat);
        enc_round(p.0, p.1, s[2 * n as int], s[2 * n as int + 1])
    }
}

/// The ciphertext block for plaintext `block` under table `s` with `r`
/// rounds: the initial additions of `s[0]` and `s[1]`, then `r` rounds.
pub open spec fn spec_encrypt<W: Word>(block: (W, W), s: Seq<W>, r: nat) -> (W, W) {
    enc_rounds(block.0.wadd_spec(s[0]), block.1.wadd_spec(s[1]), s, r)
}

/// One decryption round: the algebraic inverse of `enc_round`.
pub open spec fn dec_round<W: Word>(a: W, b: W, k0: W, k1: W) -> (W, W) {
    let b2 = b.wsub_spec(k1).rotr_spec(a).xor_spec(a);
    let a2 = a.wsub_spec(k0).rotr_spec(b2).xor_spec(b2);
    (a2, b2)
}

/// The block after undoing rounds `n` down to `1`, starting from `(a, b)`.
pub open spec fn dec_rounds<W: Word>(a: W, b: W, s: Seq<W>, n: nat) -> (W, W)
    decreases n,
{
    if n == 0 {
        (a, b)
    } else {
        let p = dec_round(a, b, s[2 * n as int], s[2 * n as int + 1]);
        dec_rounds(p.0, p.1, s, (n - 1) as nat)
    }
}

/// The plaintext block for ciphertext `block` under table `s` with `r`
/// rounds: the rounds undone from the last to the first, then the initial
/// key additions undone.
pub open spec fn spec_decrypt<W: Word>(block: (W, W), s: Seq<W>, r: nat) -> (W, W) {
    let p = dec_rounds(block.0, block.1, s, r);
    (p.0.wsub_spec(s[0]), p.1.wsub_spec(s[1]))
}

/// Encrypts one block with the expanded round-key table.
///
/// Succeeds exactly when the table holds the `2 * (rounds + 1)` words the round
/// count needs; a shorter table is rejected. Deterministic and total
/// otherwise: the result is a function of the inputs alone.
pub fn encrypt<W: Word>(pt: (W, W), table: &Vec<W>, rounds: usize) -> (res: Result<
    (W, W),
    Error,
>)
    ensures
        table@.len() >= 2 * (rounds as int + 1) ==> res == Ok::<(W, W), Error>(
            spec_encrypt(pt, table@, rounds as nat),
        ),
        table@.len() < 2 * (rounds as int + 1) ==> res == Err::<(W, W), Error>(
            Error::TableTooShort,
        ),
{
    if rounds >= table.len() / 2 {
        return Err(Error::TableTooShort);
    }
    let mut a = pt.0.wadd(table[0]);
    let mut b = pt.1.wadd(table[1]);
    let mut i: usize = 1;
    while i <= rounds
        invariant
            1 <= i <= rounds + 1,
            rounds < table@.len() / 2,
            table@.len() <= usize::MAX,
            (a, b) == enc_rounds(
                pt.0.wadd_spec(table@[0]),
                pt.1.wadd_spec(table@[1]),
                table@,
                (i - 1) as nat,
            ),
        decreases rounds - i + 1,
    {
        proof {
            assert(2 * i + 1 < table@.len());
        }
        a = a.xor(b).rotl(b).wadd(table[2 * i]);
        b = b.xor(a).rotl(a).wadd(table[2 * i + 1]);
        i = i + 1;
    }
    Ok((a, b))
}

/// Decrypts one block with the expanded round-key table.
///
/// Succeeds exactly when the table holds the `2 * (rounds + 1)` words the round
/// count needs; a shorter table is rejected. Deterministic and total
/// otherwise: the result is a function of the inputs alone.
pub fn decrypt<W: Word>(ct: (W, W), table: &Vec<W>, rounds: usize) -> (res: Result<
    (W, W),
    Error,
>)
    ensures
        table@.len() >= 2 * (rounds as int + 1) ==> res == Ok::<(W, W), Error>(
            spec_decrypt(ct, table@, rounds as nat),
        ),
        table@.len() < 2 * (rounds as int + 1) ==> res == Err::<(W, W), Error>(
            Error::TableTooShort,
        ),
{
    if rounds >= table.len() / 2 {
        return Err(Error::TableTooShort);
    }
    let mut a = ct.0;
    let mut b = ct.1;
    let mut i: usize = rounds;
    while i > 0
        invariant
            i <= rounds,
            rounds < table@.len() / 2,
            table@.len() <= usize::MAX,
            dec_rounds(a, b, table@, i as nat) == dec_rounds(ct.0, ct.1, table@, rounds as nat),
        decreases i,
    {
        proof {
            assert(2 * i + 1 < table@.len());
        }
        b = b.wsub(table[2 * i + 1]).rotr(a).xor(a);
        a = a.wsub(table[2 * i]).rotr(b).xor(b);
        i = i - 1;
    }
    Ok((a.wsub(table[0]), b.wsub(table[1])))
}

/// Undoing one round recovers the half-block pair the round started from.
proof fn lemma_dec_round_inverts<W: Word>(a: W, b: W, k0: W, k1: W)
    ensures
        dec_round(enc_round(a, b, k0, k1).0, enc_round(a, b, k0, k1).1, k0, k1) == (a, b),
{
    let a2 = a.xor_spec(b).rotl_spec(b).wadd_spec(k0);
    W::lemma_add_sub(b.xor_spec(a2).rotl_spec(a2), k1);
    W::lemma_rotr_rotl(b.xor_spec(a2), a2);
    W::lemma_xor_cancel(b, a2);
    W::lemma_add_sub(a.xor_spec(b).rotl_spec(b), k0);
    W::lemma_rotr_rotl(a.xor_spec(b), b);
    W::lemma_xor_cancel(a, b);
}

/// Undoing `n` rounds recovers the half-block pair the rounds started from.
proof fn lemma_rounds_inverse<W: Word>(a: W, b: W, s: Seq<W>, n: nat)
    ensures
        dec_rounds(enc_rounds(a, b, s, n).0, enc_rounds(a, b, s, n).1, s, n) == (a, b),
    decreases n,
{
    if n > 0 {
        lemma_rounds_inverse(a, b, s, (n - 1) as nat);
        let p = enc_rounds(a, b, s, (n - 1) as nat);
        lemma_dec_round_inverts(p.0, p.1, s[2 * n as int], s[2 * n as int + 1]);
    }
}

/// The round-trip law: decryption is the exact inverse of encryption, for
/// every block, every table and every round count.
pub proof fn lemma_encrypt_decrypt_inverse<W: Word>(block: (W, W), s: Seq<W>, r: nat)
    ensures
        spec_decrypt(spec_encrypt(block, s, r), s, r) == block,
{
    lemma_rounds_inverse(block.0.wadd_spec(s[0]), block.1.wadd_spec(s[1]), s, r);
    W::lemma_add_sub(block.0, s[0]);
    W::lemma_add_sub(block.1, s[1]);
}

/// The boundary on rounds: with zero rounds, encryption reduces to the two
/// initial key additions and decryption to the two final key subtractions.
pub proof fn lemma_zero_rounds<W: Word>(block: (W, W), s: Seq<W>)
    ensures
        spec_encrypt(block, s, 0) == (block.0.wadd_spec(s[0]), block.1.wadd_spec(s[1])),
        spec_decrypt(block, s, 0) == (block.0.wsub_spec(s[0]), block.1.wsub_spec(s[1])),
{
}

} // verus!
