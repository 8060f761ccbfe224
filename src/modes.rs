//! The ECB, CBC and CTR modes of operation as mathematics, over any round keys.
use crate::block::{cipher_spec, inv_cipher_spec, lemma_cipher_len, lemma_cipher_round_trip};
use vstd::prelude::*;

verus! {

/// Block `i`: bytes `16i .. 16i + 16`.
pub open spec fn block_at(s: Seq<u8>, i: int) -> Seq<u8> {
    s.subrange(16 * i, 16 * i + 16)
}

pub open spec fn xor_block(a: Seq<u8>, b: Seq<u8>) -> Seq<u8> {
    Seq::new(16, |k: int| a[k] ^ b[k])
}

/// Each block enciphered on its own.
pub open spec fn ecb_encrypt_spec(round_keys: Seq<u8>, rounds: nat, plain: Seq<u8>) -> Seq<u8> {
    Seq::new(plain.len(), |k: int| cipher_spec(round_keys, rounds, block_at(plain, k / 16))[k % 16])
}

/// Each block deciphered on its own.
pub open spec fn ecb_decrypt_spec(round_keys: Seq<u8>, rounds: nat, data: Seq<u8>) -> Seq<u8> {
    Seq::new(data.len(), |k: int| inv_cipher_spec(round_keys, rounds, block_at(data, k / 16))[k % 16])
}

/// CBC ciphertext block `i`: plaintext block `i` XORed with the ciphertext
/// block before it (the initialization vector for the first), then enciphered.
pub open spec fn cbc_block(round_keys: Seq<u8>, rounds: nat, iv: Seq<u8>, plain: Seq<u8>, i: nat) -> Seq<u8>
    decreases i,
{
    let chain = if i == 0 {
        iv
    } else {
        cbc_block(round_keys, rounds, iv, plain, (i - 1) as nat)
    };
    cipher_spec(round_keys, rounds, xor_block(block_at(plain, i as int), chain))
}

/// The initialization vector followed by the CBC ciphertext blocks.
pub open spec fn cbc_encrypt_spec(round_keys: Seq<u8>, rounds: nat, iv: Seq<u8>, plain: Seq<u8>) -> Seq<u8> {
    iv + Seq::new(plain.len(), |k: int| cbc_block(round_keys, rounds, iv, plain, (k / 16) as nat)[k % 16])
}

/// Byte `k` of the plaintext is byte `k` of the deciphered block XORed with
/// byte `k` of the framed input: the same position in the block before it.
pub open spec fn cbc_decrypt_spec(round_keys: Seq<u8>, rounds: nat, framed: Seq<u8>) -> Seq<u8> {
    let body = framed.subrange(16, framed.len() as int);
    Seq::new(
        body.len(),
        |k: int| inv_cipher_spec(round_keys, rounds, block_at(body, k / 16))[k % 16] ^ framed[k],
    )
}

/// A carry out of every byte after position `k` of a big-endian counter.
pub open spec fn carries_into(c: Seq<u8>, k: int) -> bool {
    forall|m: int| k < m < c.len() ==> c[m] == 255
}

/// The big-endian counter plus one, wrapping to zero.
pub open spec fn increment(c: Seq<u8>) -> Seq<u8> {
    Seq::new(
        c.len(),
        |k: int|
            if carries_into(c, k) {
                ((c[k] + 1) % 256) as u8
            } else {
                c[k]
            },
    )
}

/// The counter block after `n` increments of `seed`.
pub open spec fn counter_at(seed: Seq<u8>, n: nat) -> Seq<u8>
    decreases n,
{
    if n == 0 {
        seed
    } else {
        increment(counter_at(seed, (n - 1) as nat))
    }
}

/// Byte `k` of the CTR keystream: enciphered counter block `k / 16`.
pub open spec fn ctr_keystream(round_keys: Seq<u8>, rounds: nat, seed: Seq<u8>, k: int) -> u8 {
    cipher_spec(round_keys, rounds, counter_at(seed, (k / 16) as nat))[k % 16]
}

/// The counter seed followed by the plaintext XORed with the keystream.
pub open spec fn ctr_encrypt_spec(round_keys: Seq<u8>, rounds: nat, seed: Seq<u8>, plain: Seq<u8>) -> Seq<u8> {
    seed + Seq::new(plain.len(), |k: int| plain[k] ^ ctr_keystream(round_keys, rounds, seed, k))
}

/// The bytes after the seed XORed with the keystream of that seed.
pub open spec fn ctr_decrypt_spec(round_keys: Seq<u8>, rounds: nat, framed: Seq<u8>) -> Seq<u8> {
    Seq::new(
        (framed.len() - 16) as nat,
        |k: int| framed[k + 16] ^ ctr_keystream(round_keys, rounds, framed.subrange(0, 16), k),
    )
}

proof fn lemma_xor_twice(x: u8, y: u8)
    ensures
        (x ^ y) ^ y == x,
{
    assert((x ^ y) ^ y == x) by (bit_vector);
}

/// Block `q` of an ECB ciphertext is plaintext block `q` enciphered.
proof fn lemma_ecb_block(round_keys: Seq<u8>, rounds: nat, plain: Seq<u8>, q: int)
    requires
        0 <= q,
        16 * q + 16 <= plain.len(),
    ensures
        block_at(ecb_encrypt_spec(round_keys, rounds, plain), q) == cipher_spec(
            round_keys,
            rounds,
            block_at(plain, q),
        ),
{
    lemma_cipher_len(round_keys, rounds, block_at(plain, q));
    let enc = ecb_encrypt_spec(round_keys, rounds, plain);
    assert forall|m: int| 0 <= m < 16 implies #[trigger] block_at(enc, q)[m] == cipher_spec(
        round_keys,
        rounds,
        block_at(plain, q),
    )[m] by {
        assert((16 * q + m) / 16 == q && (16 * q + m) % 16 == m);
    }
    assert(block_at(ecb_encrypt_spec(round_keys, rounds, plain), q) =~= cipher_spec(
        round_keys,
        rounds,
        block_at(plain, q),
    ));
}

/// ECB decryption undoes ECB encryption.
pub proof fn lemma_ecb_round_trip(round_keys: Seq<u8>, rounds: nat, plain: Seq<u8>)
    requires
        rounds >= 1,
        plain.len() % 16 == 0,
    ensures
        ecb_decrypt_spec(round_keys, rounds, ecb_encrypt_spec(round_keys, rounds, plain)) == plain,
{
    let c = ecb_encrypt_spec(round_keys, rounds, plain);
    assert forall|k: int| 0 <= k < plain.len() implies ecb_decrypt_spec(round_keys, rounds, c)[k]
        == plain[k] by {
        let q = k / 16;
        lemma_ecb_block(round_keys, rounds, plain, q);
        lemma_cipher_round_trip(round_keys, rounds, block_at(plain, q));
    }
    assert(ecb_decrypt_spec(round_keys, rounds, c) =~= plain);
}

/// Under ECB, two equal plaintext blocks give two equal ciphertext blocks.
pub proof fn lemma_ecb_equal_blocks(round_keys: Seq<u8>, rounds: nat, plain: Seq<u8>, i: int, j: int)
    requires
        0 <= i,
        0 <= j,
        16 * i + 16 <= plain.len(),
        16 * j + 16 <= plain.len(),
        block_at(plain, i) == block_at(plain, j),
    ensures
        block_at(ecb_encrypt_spec(round_keys, rounds, plain), i) == block_at(
            ecb_encrypt_spec(round_keys, rounds, plain),
            j,
        ),
{
    lemma_ecb_block(round_keys, rounds, plain, i);
    lemma_ecb_block(round_keys, rounds, plain, j);
}

/// CBC decryption undoes CBC encryption, whatever the initialization vector.
pub proof fn lemma_cbc_round_trip(round_keys: Seq<u8>, rounds: nat, iv: Seq<u8>, plain: Seq<u8>)
    requires
        rounds >= 1,
        iv.len() == 16,
        plain.len() % 16 == 0,
    ensures
        cbc_decrypt_spec(round_keys, rounds, cbc_encrypt_spec(round_keys, rounds, iv, plain)) == plain,
{
    let framed = cbc_encrypt_spec(round_keys, rounds, iv, plain);
    let body = framed.subrange(16, framed.len() as int);
    assert forall|k: int| 0 <= k < plain.len() implies cbc_decrypt_spec(round_keys, rounds, framed)[k]
        == plain[k] by {
        let q = k / 16;
        let chain = if q == 0 {
            iv
        } else {
            cbc_block(round_keys, rounds, iv, plain, (q - 1) as nat)
        };
        let mixed = xor_block(block_at(plain, q), chain);
        lemma_cipher_len(round_keys, rounds, xor_block(block_at(plain, q), chain));
        assert forall|m: int| 0 <= m < 16 implies #[trigger] block_at(body, q)[m] == cbc_block(
            round_keys,
            rounds,
            iv,
            plain,
            q as nat,
        )[m] by {
            assert((16 * q + m) / 16 == q && (16 * q + m) % 16 == m);
        }
        assert(block_at(body, q) =~= cbc_block(round_keys, rounds, iv, plain, q as nat));
        lemma_cipher_round_trip(round_keys, rounds, mixed);
        if q > 0 {
            assert(framed[k] == body[k - 16]);
            assert((k - 16) / 16 == q - 1 && (k - 16) % 16 == k % 16);
        }
        assert(framed[k] == chain[k % 16]);
        lemma_xor_twice(plain[k], chain[k % 16]);
    }
    assert(cbc_decrypt_spec(round_keys, rounds, framed) =~= plain);
}

/// CTR decryption undoes CTR encryption, whatever the seed and length.
pub proof fn lemma_ctr_round_trip(round_keys: Seq<u8>, rounds: nat, seed: Seq<u8>, plain: Seq<u8>)
    requires
        seed.len() == 16,
    ensures
        ctr_decrypt_spec(round_keys, rounds, ctr_encrypt_spec(round_keys, rounds, seed, plain)) == plain,
        ctr_encrypt_spec(round_keys, rounds, seed, plain).len() == plain.len() + 16,
{
    let framed = ctr_encrypt_spec(round_keys, rounds, seed, plain);
    assert(framed.subrange(0, 16) =~= seed);
    assert forall|k: int| 0 <= k < plain.len() implies ctr_decrypt_spec(round_keys, rounds, framed)[k]
        == plain[k] by {
        lemma_xor_twice(plain[k], ctr_keystream(round_keys, rounds, seed, k));
    }
    assert(ctr_decrypt_spec(round_keys, rounds, framed) =~= plain);
}

} // verus!
