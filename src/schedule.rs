//! The AES key schedule as mathematics.
use crate::sbox::{get_sbox_number, sub_byte, ROUND_CONSTANTS};
use vstd::prelude::*;

verus! {

pub open spec fn sub_word(w: Seq<u8>) -> Seq<u8> {
    Seq::new(4, |j: int| sub_byte(w[j]))
}

/// The word rotated left by one byte.
pub open spec fn rot_word(w: Seq<u8>) -> Seq<u8> {
    Seq::new(4, |j: int| w[(j + 1) % 4])
}

pub open spec fn xor_word(a: Seq<u8>, b: Seq<u8>) -> Seq<u8> {
    Seq::new(4, |j: int| a[j] ^ b[j])
}

/// What word `i` of the schedule adds to word `i - nk`, computed from word `i - 1`.
pub open spec fn schedule_mix(prev: Seq<u8>, nk: nat, i: nat) -> Seq<u8> {
    if i % nk == 0 {
        let w = sub_word(rot_word(prev));
        w.update(0, w[0] ^ ROUND_CONSTANTS@[(i / nk) as int])
    } else if nk > 6 && i % nk == 4 {
        sub_word(prev)
    } else {
        prev
    }
}

/// Word `i` (four bytes) of the schedule expanded from a key of `nk` words.
pub open spec fn schedule_word(key: Seq<u8>, nk: nat, i: nat) -> Seq<u8>
    decreases i,
{
    if nk == 0 || i < nk {
        key.subrange(4 * i as int, 4 * i as int + 4)
    } else {
        xor_word(
            schedule_word(key, nk, (i - nk) as nat),
            schedule_mix(schedule_word(key, nk, (i - 1) as nat), nk, i),
        )
    }
}

/// The `rounds + 1` round keys, 16 bytes each, expanded from a key of `nk` words.
pub open spec fn key_schedule(key: Seq<u8>, nk: nat, rounds: nat) -> Seq<u8> {
    Seq::new(16 * (rounds + 1), |k: int| schedule_word(key, nk, (k / 4) as nat)[k % 4])
}

/// An expanded schedule holds `rounds + 1` round keys of 16 bytes each.
pub proof fn lemma_key_schedule_length(key: Seq<u8>, nk: nat, rounds: nat)
    ensures
        key_schedule(key, nk, rounds).len() == 16 * (rounds + 1),
        key_schedule(key, nk, rounds).len() / 16 == rounds + 1,
        key_schedule(key, nk, rounds).len() % 16 == 0,
{
    assert(16 * (rounds + 1) / 16 == rounds + 1 && 16 * (rounds + 1) % 16 == 0)
        by (nonlinear_arith);
}

/// The word that word `i` of the schedule adds to word `i - nk`, from word `i - 1`.
fn schedule_core(prev: [u8; 4], nk: usize, i: usize) -> (temp: [u8; 4])
    requires
        nk == 4 || nk == 6 || nk == 8,
        i < 4 * (nk + 7),
    ensures
        temp@ == schedule_mix(prev@, nk as nat, i as nat),
{
    let mut temp = prev;
    if i % nk == 0 {
        // Rotate the word left by one byte, substitute each byte, add the round constant.
        let first = temp[0];
        temp[0] = temp[1];
        temp[1] = temp[2];
        temp[2] = temp[3];
        temp[3] = first;
        temp[0] = get_sbox_number(temp[0]);
        temp[1] = get_sbox_number(temp[1]);
        temp[2] = get_sbox_number(temp[2]);
        temp[3] = get_sbox_number(temp[3]);
        assert(i / nk <= 10) by {
            if nk == 4 {
                assert(i / 4 <= 10);
            } else if nk == 6 {
                assert(i / 6 <= 8);
            } else {
                assert(i / 8 <= 7);
            }
        }
        temp[0] = temp[0] ^ ROUND_CONSTANTS[i / nk];
    }
    if nk == 8 && i % nk == 4 {
        temp[0] = get_sbox_number(temp[0]);
        temp[1] = get_sbox_number(temp[1]);
        temp[2] = get_sbox_number(temp[2]);
        temp[3] = get_sbox_number(temp[3]);
    }
    assert(temp@ =~= schedule_mix(prev@, nk as nat, i as nat));
    temp
}

/// The round keys for `num_rounds` rounds, expanded from the first `nk` words of `key`.
#[verifier::spinoff_prover]
#[verifier::rlimit(40)]
pub fn expand_key(key: &[u8; 32], nk: usize, num_rounds: usize) -> (round_keys: [u8; 256])
    requires
        (nk == 4 && num_rounds == 10) || (nk == 6 && num_rounds == 12) || (nk == 8 && num_rounds == 14),
    ensures
        forall|k: int|
            0 <= k < 16 * (num_rounds + 1) ==> round_keys[k] == key_schedule(key@, nk as nat, num_rounds as nat)[k],
{
    let ghost kw = nk as nat;
    let mut round_keys = [0u8; 256];
    for i in 0..nk
        invariant
            nk == kw,
            kw <= 8,
            forall|w: int, j: int|
                0 <= w < i && 0 <= j < 4 ==> round_keys[4 * w + j] == #[trigger] schedule_word(
                    key@,
                    kw,
                    w as nat,
                )[j],
    {
        round_keys[i * 4] = key[i * 4];
        round_keys[i * 4 + 1] = key[i * 4 + 1];
        round_keys[i * 4 + 2] = key[i * 4 + 2];
        round_keys[i * 4 + 3] = key[i * 4 + 3];
    }
    let total = 4 * (num_rounds + 1);
    for i in nk..total
        invariant
            nk == kw,
            kw == 4 || kw == 6 || kw == 8,
            total == 4 * (num_rounds + 1),
            total <= 60,
            kw == 4 ==> total == 44,
            kw == 6 ==> total == 52,
            kw == 8 ==> total == 60,
            forall|w: int, j: int|
                0 <= w < i && 0 <= j < 4 ==> round_keys[4 * w + j] == #[trigger] schedule_word(
                    key@,
                    kw,
                    w as nat,
                )[j],
    {
        let k = (i - 1) * 4;
        let ghost prev = schedule_word(key@, kw, (i - 1) as nat);
        let prev_word: [u8; 4] = [round_keys[k], round_keys[k + 1], round_keys[k + 2], round_keys[k + 3]];
        assert(prev_word@ =~= prev);
        let temp = schedule_core(prev_word, nk, i);
        let j = i * 4;
        let k = (i - nk) * 4;
        round_keys[j] = round_keys[k] ^ temp[0];
        round_keys[j + 1] = round_keys[k + 1] ^ temp[1];
        round_keys[j + 2] = round_keys[k + 2] ^ temp[2];
        round_keys[j + 3] = round_keys[k + 3] ^ temp[3];
        assert(schedule_word(key@, kw, i as nat) == xor_word(
            schedule_word(key@, kw, (i - nk) as nat),
            schedule_mix(prev, kw, i as nat),
        ));
        assert forall|m: int| 0 <= m < 4 implies round_keys[4 * i + m] == #[trigger] schedule_word(
            key@,
            kw,
            i as nat,
        )[m] by {
            assert(round_keys[4 * (i - nk) + m] == schedule_word(key@, kw, (i - nk) as nat)[m]);
        }
    }
    assert forall|k: int| 0 <= k < 16 * (num_rounds + 1) implies round_keys[k]
        == key_schedule(key@, kw, num_rounds as nat)[k] by {
        assert(k == 4 * (k / 4) + k % 4);
    }
    round_keys
}

} // verus!
