//! The AES block transform as mathematics: a state is 16 bytes in column
//! order, byte `4c + r` holding row `r` of column `c`.
use crate::field::{inv_mix_byte, lemma_mix_column_inverse, mix_byte};
use crate::sbox::{inv_sub_byte, lemma_inv_sub_byte, sub_byte};
use vstd::prelude::*;

verus! {

pub open spec fn sub_bytes_spec(s: Seq<u8>) -> Seq<u8> {
    Seq::new(16, |k: int| sub_byte(s[k]))
}

pub open spec fn inv_sub_bytes_spec(s: Seq<u8>) -> Seq<u8> {
    Seq::new(16, |k: int| inv_sub_byte(s[k]))
}

/// Row `r` is rotated left by `r`: column `c` takes row `r` of column `c + r`.
pub open spec fn shift_rows_spec(s: Seq<u8>) -> Seq<u8> {
    Seq::new(16, |k: int| s[4 * ((k / 4 + k % 4) % 4) + k % 4])
}

/// Row `r` is rotated right by `r`: column `c` takes row `r` of column `c - r`.
pub open spec fn inv_shift_rows_spec(s: Seq<u8>) -> Seq<u8> {
    Seq::new(16, |k: int| s[4 * ((k / 4 + 4 - k % 4) % 4) + k % 4])
}

/// Each column is multiplied by the circulant matrix with first row 2 3 1 1.
pub open spec fn mix_columns_spec(s: Seq<u8>) -> Seq<u8> {
    Seq::new(
        16,
        |k: int|
            mix_byte(
                s[k],
                s[4 * (k / 4) + (k + 1) % 4],
                s[4 * (k / 4) + (k + 2) % 4],
                s[4 * (k / 4) + (k + 3) % 4],
            ),
    )
}

/// Each column is multiplied by the circulant matrix with first row 14 11 13 9.
pub open spec fn inv_mix_columns_spec(s: Seq<u8>) -> Seq<u8> {
    Seq::new(
        16,
        |k: int|
            inv_mix_byte(
                s[k],
                s[4 * (k / 4) + (k + 1) % 4],
                s[4 * (k / 4) + (k + 2) % 4],
                s[4 * (k / 4) + (k + 3) % 4],
            ),
    )
}

/// The state XORed with the 16 round-key bytes of round `round`.
pub open spec fn add_round_key_spec(s: Seq<u8>, round_keys: Seq<u8>, round: int) -> Seq<u8> {
    Seq::new(16, |k: int| s[k] ^ round_keys[16 * round + k])
}

/// The state after the full rounds `1..=n`, from the state `s` that round 0 left.
pub open spec fn forward_rounds(round_keys: Seq<u8>, s: Seq<u8>, n: nat) -> Seq<u8>
    decreases n,
{
    if n == 0 {
        s
    } else {
        add_round_key_spec(
            mix_columns_spec(shift_rows_spec(sub_bytes_spec(forward_rounds(round_keys, s, (n - 1) as nat)))),
            round_keys,
            n as int,
        )
    }
}

/// The forward cipher with `rounds` rounds on one block.
#[verifier::opaque]
pub open spec fn cipher_spec(round_keys: Seq<u8>, rounds: nat, block: Seq<u8>) -> Seq<u8> {
    let s = forward_rounds(round_keys, add_round_key_spec(block, round_keys, 0), (rounds - 1) as nat);
    add_round_key_spec(shift_rows_spec(sub_bytes_spec(s)), round_keys, rounds as int)
}

/// One step of the inverse cipher, for round `round`.
pub open spec fn inverse_round(round_keys: Seq<u8>, s: Seq<u8>, round: int) -> Seq<u8> {
    inv_mix_columns_spec(
        add_round_key_spec(inv_sub_bytes_spec(inv_shift_rows_spec(s)), round_keys, round),
    )
}

/// The inverse steps for rounds `n` down to 1.
pub open spec fn inverse_rounds(round_keys: Seq<u8>, s: Seq<u8>, n: nat) -> Seq<u8>
    decreases n,
{
    if n == 0 {
        s
    } else {
        inverse_rounds(round_keys, inverse_round(round_keys, s, n as int), (n - 1) as nat)
    }
}

/// The inverse cipher with `rounds` rounds on one block.
#[verifier::opaque]
pub open spec fn inv_cipher_spec(round_keys: Seq<u8>, rounds: nat, block: Seq<u8>) -> Seq<u8> {
    let s = inverse_rounds(
        round_keys,
        add_round_key_spec(block, round_keys, rounds as int),
        (rounds - 1) as nat,
    );
    add_round_key_spec(inv_sub_bytes_spec(inv_shift_rows_spec(s)), round_keys, 0)
}

/// Index arithmetic for byte `r` of column `c`.
pub proof fn lemma_cell(c: int, r: int)
    requires
        0 <= c < 4,
        0 <= r < 4,
    ensures
        (4 * c + r) / 4 == c,
        (4 * c + r) % 4 == r,
        (4 * c + r + 1) % 4 == (r + 1) % 4,
        (4 * c + r + 2) % 4 == (r + 2) % 4,
        (4 * c + r + 3) % 4 == (r + 3) % 4,
{
}

pub proof fn lemma_add_round_key_twice(s: Seq<u8>, round_keys: Seq<u8>, round: int)
    requires
        s.len() == 16,
    ensures
        add_round_key_spec(add_round_key_spec(s, round_keys, round), round_keys, round) == s,
{
    assert forall|k: int| 0 <= k < 16 implies (s[k] ^ round_keys[16 * round + k])
        ^ round_keys[16 * round + k] == s[k] by {
        let (x, y) = (s[k], round_keys[16 * round + k]);
        assert((x ^ y) ^ y == x) by (bit_vector);
    }
    assert(add_round_key_spec(add_round_key_spec(s, round_keys, round), round_keys, round) =~= s);
}

pub proof fn lemma_inv_sub_bytes(s: Seq<u8>)
    requires
        s.len() == 16,
    ensures
        inv_sub_bytes_spec(sub_bytes_spec(s)) == s,
{
    assert forall|k: int| 0 <= k < 16 implies inv_sub_byte(sub_byte(s[k])) == s[k] by {
        lemma_inv_sub_byte(s[k]);
    }
    assert(inv_sub_bytes_spec(sub_bytes_spec(s)) =~= s);
}

pub proof fn lemma_inv_shift_rows(s: Seq<u8>)
    requires
        s.len() == 16,
    ensures
        inv_shift_rows_spec(shift_rows_spec(s)) == s,
{
    assert(inv_shift_rows_spec(shift_rows_spec(s)) =~= s);
}

pub proof fn lemma_inv_mix_columns(s: Seq<u8>)
    requires
        s.len() == 16,
    ensures
        inv_mix_columns_spec(mix_columns_spec(s)) == s,
{
    let m = mix_columns_spec(s);
    assert forall|k: int| 0 <= k < 16 implies inv_mix_columns_spec(m)[k] == s[k] by {
        let c = 4 * (k / 4);
        let (a, b, x, d) = (s[k], s[c + (k + 1) % 4], s[c + (k + 2) % 4], s[c + (k + 3) % 4]);
        assert(m[k] == mix_byte(a, b, x, d));
        assert(m[c + (k + 1) % 4] == mix_byte(b, x, d, a));
        assert(m[c + (k + 2) % 4] == mix_byte(x, d, a, b));
        assert(m[c + (k + 3) % 4] == mix_byte(d, a, b, x));
        lemma_mix_column_inverse(a, b, x, d);
    }
    assert(inv_mix_columns_spec(m) =~= s);
}

proof fn lemma_inverse_rounds(round_keys: Seq<u8>, s: Seq<u8>, n: nat)
    requires
        s.len() == 16,
    ensures
        inverse_rounds(
            round_keys,
            shift_rows_spec(sub_bytes_spec(forward_rounds(round_keys, s, n))),
            n,
        ) == shift_rows_spec(sub_bytes_spec(s)),
    decreases n,
{
    if n > 0 {
        let prev = forward_rounds(round_keys, s, (n - 1) as nat);
        let mixed = mix_columns_spec(shift_rows_spec(sub_bytes_spec(prev)));
        let cur = forward_rounds(round_keys, s, n);
        assert(cur == add_round_key_spec(mixed, round_keys, n as int));
        lemma_inv_shift_rows(sub_bytes_spec(cur));
        lemma_inv_sub_bytes(cur);
        lemma_add_round_key_twice(mixed, round_keys, n as int);
        lemma_inv_mix_columns(shift_rows_spec(sub_bytes_spec(prev)));
        assert(inverse_round(round_keys, shift_rows_spec(sub_bytes_spec(cur)), n as int)
            == shift_rows_spec(sub_bytes_spec(prev)));
        lemma_inverse_rounds(round_keys, s, (n - 1) as nat);
    }
}

/// Both ciphers map a block to a block.
pub proof fn lemma_cipher_len(round_keys: Seq<u8>, rounds: nat, block: Seq<u8>)
    ensures
        cipher_spec(round_keys, rounds, block).len() == 16,
        inv_cipher_spec(round_keys, rounds, block).len() == 16,
{
    reveal(cipher_spec);
    reveal(inv_cipher_spec);
}

/// The inverse cipher undoes the cipher on every block, under any round keys.
pub proof fn lemma_cipher_round_trip(round_keys: Seq<u8>, rounds: nat, block: Seq<u8>)
    requires
        rounds >= 1,
        block.len() == 16,
    ensures
        inv_cipher_spec(round_keys, rounds, cipher_spec(round_keys, rounds, block)) == block,
{
    reveal(cipher_spec);
    reveal(inv_cipher_spec);
    let start = add_round_key_spec(block, round_keys, 0);
    let last = forward_rounds(round_keys, start, (rounds - 1) as nat);
    let pre = shift_rows_spec(sub_bytes_spec(last));
    lemma_add_round_key_twice(pre, round_keys, rounds as int);
    lemma_inverse_rounds(round_keys, start, (rounds - 1) as nat);
    lemma_inv_shift_rows(sub_bytes_spec(start));
    lemma_inv_sub_bytes(start);
    lemma_add_round_key_twice(block, round_keys, 0);
}

} // verus!
