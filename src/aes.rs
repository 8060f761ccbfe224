//! An AES context: key, key schedule, mode of operation and initialization vector.
use crate::block::{
    add_round_key_spec, cipher_spec, forward_rounds, inv_cipher_spec, inv_mix_columns_spec,
    inv_shift_rows_spec, inv_sub_bytes_spec, inverse_rounds, lemma_cell, mix_columns_spec,
    shift_rows_spec, sub_bytes_spec,
};
use crate::cipher::{CryptoError, Encryption};
use crate::field::{inv_mix_byte, lemma_mix_byte_by_doubling, mix_byte, multiply, x_time};
use crate::modes::{
    block_at, carries_into, cbc_block, cbc_decrypt_spec, cbc_encrypt_spec, counter_at,
    ctr_decrypt_spec, ctr_encrypt_spec, ctr_keystream, ecb_decrypt_spec, ecb_encrypt_spec,
    increment, lemma_cbc_round_trip, lemma_ctr_round_trip, lemma_ecb_round_trip, xor_block,
};
use crate::random::random_bytes;
use crate::sbox::{get_sbox_inverted, get_sbox_number};
use crate::schedule::{expand_key, key_schedule, lemma_key_schedule_length};
use vstd::prelude::*;

verus! {

/// The mode of operation.
#[derive(Clone, Copy, Debug, PartialEq, Eq, Structural)]
pub enum AesMode {
    /// Cipher block chaining.
    CBC,
    /// Electronic codebook.
    ECB,
    /// Counter.
    CTR,
}

/// The key size.
#[derive(Clone, Copy, Debug, PartialEq, Eq, Structural)]
pub enum AesSize {
    S128,
    S192,
    S256,
}

impl AesSize {
    /// Number of 32-bit words in the key.
    pub open spec fn key_words(self) -> nat {
        match self {
            AesSize::S128 => 4,
            AesSize::S192 => 6,
            AesSize::S256 => 8,
        }
    }

    /// Number of cipher rounds.
    pub open spec fn rounds(self) -> nat {
        match self {
            AesSize::S128 => 10,
            AesSize::S192 => 12,
            AesSize::S256 => 14,
        }
    }

    /// Number of key bytes.
    pub open spec fn key_bytes(self) -> nat {
        4 * self.key_words()
    }

    /// The round keys that a key of this size expands to.
    pub open spec fn schedule(self, key: Seq<u8>) -> Seq<u8> {
        key_schedule(key, self.key_words(), self.rounds())
    }
}

/// One block of cipher state, in column order: byte `4c + r` is row `r` of column `c`.
pub type AesState = [u8; 16];

/// What an [`AESContext`] holds, as mathematics.
pub struct AesView {
    pub mode: AesMode,
    pub size: AesSize,
    /// 32 bytes, of which the first `size.key_bytes()` are the key.
    pub key: Seq<u8>,
    /// 256 bytes, of which the first `16 * (size.rounds() + 1)` are the round keys.
    pub round_keys: Seq<u8>,
    /// 16 bytes.
    pub iv: Seq<u8>,
}

impl AesView {
    /// The round keys are the ones that the key expands to.
    pub open spec fn keyed(self) -> bool {
        &&& self.key.len() == 32
        &&& self.round_keys.len() == 256
        &&& self.iv.len() == 16
        &&& forall|k: int|
            0 <= k < 16 * (self.size.rounds() + 1) ==> self.round_keys[k] == self.size.schedule(
                self.key,
            )[k]
    }
}

/// The plaintext as the block modes see it: zero bytes appended up to a
/// multiple of 16.
pub open spec fn zero_padded(s: Seq<u8>) -> Seq<u8> {
    s + Seq::new(((16 - s.len() % 16) % 16) as nat, |k: int| 0u8)
}

impl AesView {
    /// The input buffer after encryption: padded for ECB and CBC, as it was for CTR.
    pub open spec fn prepared(self, plain: Seq<u8>) -> Seq<u8> {
        if self.mode == AesMode::CTR {
            plain
        } else {
            zero_padded(plain)
        }
    }

    /// What encryption sends for `plain` with initialization vector or counter
    /// seed `iv` (ECB uses none): ECB ciphertext blocks; for CBC and CTR, `iv`
    /// followed by the ciphertext.
    pub open spec fn encryption(self, iv: Seq<u8>, plain: Seq<u8>) -> Seq<u8> {
        match self.mode {
            AesMode::ECB => ecb_encrypt_spec(self.round_keys, self.size.rounds(), zero_padded(plain)),
            AesMode::CBC => cbc_encrypt_spec(self.round_keys, self.size.rounds(), iv, zero_padded(plain)),
            AesMode::CTR => ctr_encrypt_spec(self.round_keys, self.size.rounds(), iv, plain),
        }
    }

    /// The messages that decryption takes: whole blocks for ECB; a 16-byte
    /// prefix, then whole blocks for CBC and any bytes for CTR.
    pub open spec fn accepts(self, framed: Seq<u8>) -> bool {
        match self.mode {
            AesMode::ECB => framed.len() % 16 == 0,
            AesMode::CBC => framed.len() >= 16 && framed.len() % 16 == 0,
            AesMode::CTR => framed.len() >= 16,
        }
    }

    /// Why decryption refuses a message that it does not take.
    pub open spec fn rejection(self, framed: Seq<u8>) -> CryptoError {
        if self.mode != AesMode::ECB && framed.len() < 16 {
            CryptoError::InputTooShort
        } else {
            CryptoError::InputMisaligned
        }
    }

    /// The plaintext that decryption gives for a message that it takes.
    pub open spec fn decryption(self, framed: Seq<u8>) -> Seq<u8> {
        match self.mode {
            AesMode::ECB => ecb_decrypt_spec(self.round_keys, self.size.rounds(), framed),
            AesMode::CBC => cbc_decrypt_spec(self.round_keys, self.size.rounds(), framed),
            AesMode::CTR => ctr_decrypt_spec(self.round_keys, self.size.rounds(), framed),
        }
    }

    /// The context after decrypting a message that it takes: CBC keeps the
    /// last 16 bytes of the message as its stored vector.
    pub open spec fn after_decryption(self, framed: Seq<u8>) -> AesView {
        if self.mode == AesMode::CBC {
            AesView { iv: framed.subrange(framed.len() - 16, framed.len() as int), ..self }
        } else {
            self
        }
    }
}

/// What encryption does: `padded` is the input buffer afterwards, `sent` the
/// output; CBC and CTR store a fresh initialization vector, which prefixes `sent`.
pub open spec fn aes_encrypted(
    before: AesView,
    after: AesView,
    plain: Seq<u8>,
    padded: Seq<u8>,
    sent: Seq<u8>,
    r: Result<(), CryptoError>,
) -> bool {
    &&& r is Ok
    &&& after == (AesView { iv: after.iv, ..before })
    &&& after.iv.len() == 16
    &&& before.mode == AesMode::ECB ==> after.iv == before.iv
    &&& padded == before.prepared(plain)
    &&& sent == before.encryption(after.iv, plain)
    &&& before.mode == AesMode::CTR ==> sent.len() == plain.len() + 16
}

/// What decryption does with the message `framed`; `out_before` and
/// `out_after` are the output buffer before and after.
pub open spec fn aes_decrypted(
    before: AesView,
    after: AesView,
    framed: Seq<u8>,
    out_before: Seq<u8>,
    out_after: Seq<u8>,
    r: Result<(), CryptoError>,
) -> bool {
    if before.accepts(framed) {
        &&& r is Ok
        &&& out_after == before.decryption(framed)
        &&& after == before.after_decryption(framed)
    } else {
        &&& r == Err::<(), CryptoError>(before.rejection(framed))
        &&& out_after == out_before
        &&& after == before
    }
}

/// What replacing the key does: a key of at most 32 bytes is written over
/// the front of the stored one and expanded; a longer one is refused.
pub open spec fn aes_key_set(before: AesView, after: AesView, key: Seq<u8>, r: Result<(), CryptoError>) -> bool {
    if key.len() <= 32 {
        &&& r is Ok
        &&& after == (AesView {
            key: key + before.key.subrange(key.len() as int, 32),
            round_keys: after.round_keys,
            ..before
        })
        &&& after.keyed()
    } else {
        r == Err::<(), CryptoError>(CryptoError::KeyLength) && after == before
    }
}

/// Decrypting what was encrypted gives the plaintext back, in every mode,
/// for every key size, key and initialization vector; for ECB and CBC the
/// plaintext is a whole number of blocks.
pub proof fn lemma_round_trip(context: AesView, iv: Seq<u8>, plain: Seq<u8>)
    requires
        iv.len() == 16,
        context.mode != AesMode::CTR ==> plain.len() % 16 == 0,
    ensures
        context.accepts(context.encryption(iv, plain)),
        context.decryption(context.encryption(iv, plain)) == plain,
{
    let (rk, nr) = (context.round_keys, context.size.rounds());
    if context.mode != AesMode::CTR {
        assert(zero_padded(plain) =~= plain);
    }
    match context.mode {
        AesMode::ECB => lemma_ecb_round_trip(rk, nr, plain),
        AesMode::CBC => lemma_cbc_round_trip(rk, nr, iv, plain),
        AesMode::CTR => lemma_ctr_round_trip(rk, nr, iv, plain),
    }
}

/// A 128-, 192- or 256-bit key expands to 11, 13 or 15 round keys of 16 bytes.
pub proof fn lemma_round_key_count(size: AesSize, key: Seq<u8>)
    ensures
        size.schedule(key).len() % 16 == 0,
        size == AesSize::S128 ==> size.schedule(key).len() / 16 == 11,
        size == AesSize::S192 ==> size.schedule(key).len() / 16 == 13,
        size == AesSize::S256 ==> size.schedule(key).len() / 16 == 15,
{
    lemma_key_schedule_length(key, size.key_words(), size.rounds());
}

/// CTR sends the 16-byte seed and then exactly as many bytes as the plaintext has.
pub proof fn lemma_ctr_length(context: AesView, iv: Seq<u8>, plain: Seq<u8>)
    requires
        context.mode == AesMode::CTR,
        iv.len() == 16,
    ensures
        context.encryption(iv, plain).len() == plain.len() + 16,
{
}

pub struct AESContext {
    mode: AesMode,
    size: AesSize,
    key: [u8; 32],
    round_keys: [u8; 256],
    initialization_vector: [u8; 16],
}

impl View for AESContext {
    type V = AesView;

    closed spec fn view(&self) -> AesView {
        AesView {
            mode: self.mode,
            size: self.size,
            key: self.key@,
            round_keys: self.round_keys@,
            iv: self.initialization_vector@,
        }
    }
}

impl AESContext {
    #[verifier::type_invariant]
    closed spec fn inv(self) -> bool {
        self@.keyed()
    }

    /// A context for `mode` and `size`, keyed with the first `size.key_bytes()`
    /// bytes of `key`, or with random bytes where no key is given.
    pub fn new(mode: AesMode, size: AesSize, key: Option<&[u8]>) -> (context: Self)
        requires
            key matches Some(k) ==> k@.len() >= size.key_bytes(),
        ensures
            context@.mode == mode,
            context@.size == size,
            context@.keyed(),
            key matches Some(k) ==> context@.key == k@.subrange(0, size.key_bytes() as int)
                + Seq::new((32 - size.key_bytes()) as nat, |i: int| 0u8),
    {
        let mut key_bytes = [0u8; 32];
        match key {
            Some(k) => {
                let count: usize = match size {
                    AesSize::S128 => 16,
                    AesSize::S192 => 24,
                    AesSize::S256 => 32,
                };
                for i in 0..count
                    invariant
                        count == size.key_bytes(),
                        count <= k@.len(),
                        forall|m: int| 0 <= m < i ==> key_bytes[m] == k@[m],
                        forall|m: int| i <= m < 32 ==> key_bytes[m] == 0,
                {
                    key_bytes[i] = k[i];
                }
                assert(key_bytes@ =~= k@.subrange(0, size.key_bytes() as int) + Seq::new(
                    (32 - size.key_bytes()) as nat,
                    |i: int| 0u8,
                ));
            },
            None => {
                key_bytes = random_bytes();
            },
        }
        let round_keys = Self::key_expansion(&key_bytes, size);
        let initialization_vector = random_bytes();
        AESContext { mode, size, key: key_bytes, round_keys, initialization_vector }
    }

    /// Enciphers one block with the forward cipher.
    fn cipher(&self, input: &AesState) -> (output: AesState)
        ensures
            output@ == cipher_spec(self.round_keys@, self.size.rounds(), input@),
    {
        let num_rounds = self.num_rounds();
        let mut state = *input;
        self.add_round_key(0, &mut state);
        let ghost start = state@;
        for round in 1..num_rounds
            invariant
                num_rounds == self.size.rounds(),
                start == add_round_key_spec(input@, self.round_keys@, 0),
                state@ == forward_rounds(self.round_keys@, start, (round - 1) as nat),
        {
            self.sub_bytes(&mut state);
            self.shift_rows(&mut state);
            self.mix_columns(&mut state);
            self.add_round_key(round, &mut state);
        }
        // The final round has no column mixing.
        self.sub_bytes(&mut state);
        self.shift_rows(&mut state);
        self.add_round_key(num_rounds, &mut state);
        proof {
            reveal(cipher_spec);
        }
        state
    }

    /// Deciphers one block with the inverse cipher.
    fn inverted_cipher(&self, input: &AesState) -> (output: AesState)
        ensures
            output@ == inv_cipher_spec(self.round_keys@, self.size.rounds(), input@),
    {
        let num_rounds = self.num_rounds();
        let mut state = *input;
        self.add_round_key(num_rounds, &mut state);
        let ghost start = state@;
        let mut round = num_rounds - 1;
        while round > 0
            invariant
                round < num_rounds,
                num_rounds == self.size.rounds(),
                inverse_rounds(self.round_keys@, state@, round as nat) == inverse_rounds(
                    self.round_keys@,
                    start,
                    (num_rounds - 1) as nat,
                ),
            decreases round,
        {
            self.inv_shift_rows(&mut state);
            self.inverted_sub_bytes(&mut state);
            self.add_round_key(round, &mut state);
            self.inv_mix_columns(&mut state);
            round = round - 1;
        }
        self.inv_shift_rows(&mut state);
        self.inverted_sub_bytes(&mut state);
        self.add_round_key(0, &mut state);
        proof {
            reveal(inv_cipher_spec);
        }
        state
    }

    fn num_rounds(&self) -> (n: usize)
        ensures
            n == self.size.rounds(),
    {
        match self.size {
            AesSize::S128 => 10,
            AesSize::S192 => 12,
            AesSize::S256 => 14,
        }
    }

    fn add_round_key(&self, round: usize, state: &mut AesState)
        requires
            round <= 14,
        ensures
            final(state)@ == add_round_key_spec(old(state)@, self.round_keys@, round as int),
    {
        for k in 0..16
            invariant
                round <= 14,
                forall|m: int| 0 <= m < k ==> state[m] == old(state)[m] ^ self.round_keys[16 * round + m],
                forall|m: int| k <= m < 16 ==> state[m] == old(state)[m],
        {
            state[k] = state[k] ^ self.round_keys[round * 16 + k];
        }
        assert(state@ =~= add_round_key_spec(old(state)@, self.round_keys@, round as int));
    }

    fn sub_bytes(&self, state: &mut AesState)
        ensures
            final(state)@ == sub_bytes_spec(old(state)@),
    {
        for k in 0..16
            invariant
                forall|m: int| 0 <= m < k ==> state[m] == crate::sbox::sub_byte(old(state)[m]),
                forall|m: int| k <= m < 16 ==> state[m] == old(state)[m],
        {
            state[k] = get_sbox_number(state[k]);
        }
        assert(state@ =~= sub_bytes_spec(old(state)@));
    }

    fn inverted_sub_bytes(&self, state: &mut AesState)
        ensures
            final(state)@ == inv_sub_bytes_spec(old(state)@),
    {
        for k in 0..16
            invariant
                forall|m: int| 0 <= m < k ==> state[m] == crate::sbox::inv_sub_byte(old(state)[m]),
                forall|m: int| k <= m < 16 ==> state[m] == old(state)[m],
        {
            state[k] = get_sbox_inverted(state[k]);
        }
        assert(state@ =~= inv_sub_bytes_spec(old(state)@));
    }

    fn shift_rows(&self, state: &mut AesState)
        ensures
            final(state)@ == shift_rows_spec(old(state)@),
    {
        let source = *state;
        for k in 0..16
            invariant
                forall|m: int| 0 <= m < k ==> state[m] == source[4 * ((m / 4 + m % 4) % 4) + m % 4],
        {
            state[k] = source[4 * ((k / 4 + k % 4) % 4) + k % 4];
        }
        assert(state@ =~= shift_rows_spec(old(state)@));
    }

    fn inv_shift_rows(&self, state: &mut AesState)
        ensures
            final(state)@ == inv_shift_rows_spec(old(state)@),
    {
        let source = *state;
        for k in 0..16
            invariant
                forall|m: int| 0 <= m < k ==> state[m] == source[4 * ((m / 4 + 4 - m % 4) % 4) + m % 4],
        {
            state[k] = source[4 * ((k / 4 + 4 - k % 4) % 4) + k % 4];
        }
        assert(state@ =~= inv_shift_rows_spec(old(state)@));
    }

    #[verifier::spinoff_prover]
    fn mix_columns(&self, state: &mut AesState)
        ensures
            final(state)@ == mix_columns_spec(old(state)@),
    {
        let ghost spec = mix_columns_spec(old(state)@);
        for c in 0..4
            invariant
                spec == mix_columns_spec(old(state)@),
                forall|m: int| 0 <= m < 4 * c ==> state[m] == spec[m],
                forall|m: int| 4 * c <= m < 16 ==> state[m] == old(state)[m],
        {
            let i = 4 * c;
            let (a, b, x, d) = (state[i], state[i + 1], state[i + 2], state[i + 3]);
            let all = a ^ b ^ x ^ d;
            proof {
                lemma_mix_byte_by_doubling(a, b, x, d);
                lemma_mix_byte_by_doubling(b, x, d, a);
                lemma_mix_byte_by_doubling(x, d, a, b);
                lemma_mix_byte_by_doubling(d, a, b, x);
                assert(b ^ x ^ d ^ a == all && x ^ d ^ a ^ b == all && d ^ a ^ b ^ x == all)
                    by (bit_vector)
                    requires
                        all == a ^ b ^ x ^ d,
                ;
                lemma_cell(c as int, 0);
                lemma_cell(c as int, 1);
                lemma_cell(c as int, 2);
                lemma_cell(c as int, 3);
                assert(spec[i as int] == mix_byte(a, b, x, d));
                assert(spec[i + 1] == mix_byte(b, x, d, a));
                assert(spec[i + 2] == mix_byte(x, d, a, b));
                assert(spec[i + 3] == mix_byte(d, a, b, x));
            }
            state[i] = a ^ x_time(a ^ b) ^ all;
            state[i + 1] = b ^ x_time(b ^ x) ^ all;
            state[i + 2] = x ^ x_time(x ^ d) ^ all;
            state[i + 3] = d ^ x_time(d ^ a) ^ all;
        }
        assert(state@ =~= spec);
    }

    #[verifier::spinoff_prover]
    fn inv_mix_columns(&self, state: &mut AesState)
        ensures
            final(state)@ == inv_mix_columns_spec(old(state)@),
    {
        let ghost spec = inv_mix_columns_spec(old(state)@);
        for c in 0..4
            invariant
                spec == inv_mix_columns_spec(old(state)@),
                forall|m: int| 0 <= m < 4 * c ==> state[m] == spec[m],
                forall|m: int| 4 * c <= m < 16 ==> state[m] == old(state)[m],
        {
            let i = 4 * c;
            let (a, b, x, d) = (state[i], state[i + 1], state[i + 2], state[i + 3]);
            proof {
                lemma_cell(c as int, 0);
                lemma_cell(c as int, 1);
                lemma_cell(c as int, 2);
                lemma_cell(c as int, 3);
            }
            assert(spec[i as int] == inv_mix_byte(a, b, x, d));
            assert(spec[i + 1] == inv_mix_byte(b, x, d, a));
            assert(spec[i + 2] == inv_mix_byte(x, d, a, b));
            assert(spec[i + 3] == inv_mix_byte(d, a, b, x));
            state[i] = multiply(a, 0x0e) ^ multiply(b, 0x0b) ^ multiply(x, 0x0d) ^ multiply(d, 0x09);
            state[i + 1] = multiply(b, 0x0e) ^ multiply(x, 0x0b) ^ multiply(d, 0x0d) ^ multiply(a, 0x09);
            state[i + 2] = multiply(x, 0x0e) ^ multiply(d, 0x0b) ^ multiply(a, 0x0d) ^ multiply(b, 0x09);
            state[i + 3] = multiply(d, 0x0e) ^ multiply(a, 0x0b) ^ multiply(b, 0x0d) ^ multiply(x, 0x09);
        }
        assert(state@ =~= spec);
    }

    /// Copies the 16 bytes of `buffer` that start at `start`.
    fn load_block(buffer: &[u8], start: usize) -> (block: AesState)
        requires
            start + 16 <= buffer@.len(),
        ensures
            block@ == buffer@.subrange(start as int, start + 16),
    {
        let mut block = [0u8; 16];
        let len = buffer.len();
        for m in 0..16
            invariant
                len == buffer@.len(),
                start + 16 <= buffer@.len(),
                forall|j: int| 0 <= j < m ==> block[j] == buffer@[start + j],
        {
            block[m] = buffer[start + m];
        }
        assert(block@ =~= buffer@.subrange(start as int, start + 16));
        block
    }

    fn append_block(output: &mut Vec<u8>, block: &AesState)
        ensures
            final(output)@ == old(output)@ + block@,
    {
        for m in 0..16
            invariant
                output@ == old(output)@ + block@.subrange(0, m as int),
        {
            output.push(block[m]);
            assert(output@ =~= old(output)@ + block@.subrange(0, m + 1));
        }
        assert(block@.subrange(0, 16) =~= block@);
    }

    /// The initialization vector or counter seed that prefixes a message.
    fn read_initialization_vector(&self, buffer: &[u8]) -> (iv: AesState)
        requires
            buffer@.len() >= 16,
        ensures
            iv@ == buffer@.subrange(0, 16),
    {
        Self::load_block(buffer, 0)
    }

    /// XORs `block` with `iv`, or with the stored initialization vector where none is given.
    fn xor_with_initialization_vector(&self, block: &mut AesState, iv: Option<&AesState>)
        ensures
            final(block)@ == xor_block(
                old(block)@,
                match iv {
                    Some(v) => v@,
                    None => self.initialization_vector@,
                },
            ),
    {
        let vector = match iv {
            Some(v) => *v,
            None => self.initialization_vector,
        };
        for m in 0..16
            invariant
                forall|j: int| 0 <= j < m ==> block[j] == old(block)[j] ^ vector[j],
                forall|j: int| m <= j < 16 ==> block[j] == old(block)[j],
        {
            block[m] = block[m] ^ vector[m];
        }
        assert(block@ =~= xor_block(old(block)@, vector@));
    }

    #[verifier::spinoff_prover]
    fn ecb_encrypt(&self, buffer: &[u8]) -> (output: Vec<u8>)
        requires
            buffer@.len() % 16 == 0,
        ensures
            output@ == ecb_encrypt_spec(self.round_keys@, self.size.rounds(), buffer@),
    {
        let ghost spec = ecb_encrypt_spec(self.round_keys@, self.size.rounds(), buffer@);
        let mut output: Vec<u8> = Vec::new();
        let len = buffer.len();
        let blocks = len / 16;
        for i in 0..blocks
            invariant
                len == buffer@.len(),
                16 * blocks == buffer@.len(),
                spec == ecb_encrypt_spec(self.round_keys@, self.size.rounds(), buffer@),
                output@.len() == 16 * i,
                forall|m: int| 0 <= m < 16 * i ==> output@[m] == spec[m],
        {
            let block = Self::load_block(buffer, 16 * i);
            let ciphered = self.cipher(&block);
            assert forall|m: int| 0 <= m < 16 implies #[trigger] spec[16 * i + m] == ciphered[m] by {
                assert((16 * i + m) / 16 == i && (16 * i + m) % 16 == m);
            }
            Self::append_block(&mut output, &ciphered);
        }
        assert(output@ =~= spec);
        output
    }

    #[verifier::spinoff_prover]
    fn ecb_decrypt(&self, buffer: &[u8]) -> (output: Vec<u8>)
        requires
            buffer@.len() % 16 == 0,
        ensures
            output@ == ecb_decrypt_spec(self.round_keys@, self.size.rounds(), buffer@),
    {
        let ghost spec = ecb_decrypt_spec(self.round_keys@, self.size.rounds(), buffer@);
        let mut output: Vec<u8> = Vec::new();
        let len = buffer.len();
        let blocks = len / 16;
        for i in 0..blocks
            invariant
                len == buffer@.len(),
                16 * blocks == buffer@.len(),
                spec == ecb_decrypt_spec(self.round_keys@, self.size.rounds(), buffer@),
                output@.len() == 16 * i,
                forall|m: int| 0 <= m < 16 * i ==> output@[m] == spec[m],
        {
            let block = Self::load_block(buffer, 16 * i);
            let deciphered = self.inverted_cipher(&block);
            assert forall|m: int| 0 <= m < 16 implies #[trigger] spec[16 * i + m] == deciphered[m] by {
                assert((16 * i + m) / 16 == i && (16 * i + m) % 16 == m);
            }
            Self::append_block(&mut output, &deciphered);
        }
        assert(output@ =~= spec);
        output
    }

    #[verifier::spinoff_prover]
    /// CBC with the stored initialization vector, which prefixes the output.
    fn cbc_encrypt(&self, buffer: &[u8]) -> (output: Vec<u8>)
        requires
            buffer@.len() % 16 == 0,
        ensures
            output@ == cbc_encrypt_spec(
                self.round_keys@,
                self.size.rounds(),
                self.initialization_vector@,
                buffer@,
            ),
    {
        let ghost rk = self.round_keys@;
        let ghost nr = self.size.rounds();
        let iv = self.initialization_vector;
        let ghost spec = cbc_encrypt_spec(rk, nr, iv@, buffer@);
        let mut output: Vec<u8> = Vec::new();
        Self::append_block(&mut output, &iv);
        assert forall|m: int| 0 <= m < 16 implies output@[m] == spec[m] by {}
        let mut chain = iv;
        let len = buffer.len();
        let blocks = len / 16;
        for i in 0..blocks
            invariant
                len == buffer@.len(),
                16 * blocks == buffer@.len(),
                rk == self.round_keys@,
                nr == self.size.rounds(),
                spec == cbc_encrypt_spec(rk, nr, iv@, buffer@),
                output@.len() == 16 + 16 * i,
                forall|m: int| 0 <= m < 16 + 16 * i ==> output@[m] == spec[m],
                chain@ == if i == 0 {
                    iv@
                } else {
                    cbc_block(rk, nr, iv@, buffer@, (i - 1) as nat)
                },
        {
            let mut block = Self::load_block(buffer, 16 * i);
            self.xor_with_initialization_vector(&mut block, Some(&chain));
            let ciphered = self.cipher(&block);
            assert(ciphered@ == cbc_block(rk, nr, iv@, buffer@, i as nat));
            assert forall|m: int| 0 <= m < 16 implies #[trigger] spec[16 + 16 * i + m] == ciphered[m] by {
                assert((16 * i + m) / 16 == i && (16 * i + m) % 16 == m);
            }
            Self::append_block(&mut output, &ciphered);
            chain = ciphered;
        }
        assert(output@ =~= spec);
        output
    }

    #[verifier::spinoff_prover]
    /// CBC decryption of a message prefixed by its initialization vector; the
    /// last ciphertext block (or the prefix) is kept as the stored vector.
    fn cbc_decrypt(&mut self, buffer: &[u8]) -> (output: Vec<u8>)
        requires
            buffer@.len() >= 16,
            buffer@.len() % 16 == 0,
        ensures
            output@ == cbc_decrypt_spec(old(self)@.round_keys, old(self)@.size.rounds(), buffer@),
            final(self)@ == (AesView { iv: buffer@.subrange(buffer@.len() - 16, buffer@.len() as int), ..old(self)@ }),
    {
        proof {
            use_type_invariant(&*self);
        }
        let ghost rk = self.round_keys@;
        let ghost nr = self.size.rounds();
        let ghost spec = cbc_decrypt_spec(rk, nr, buffer@);
        let ghost body = buffer@.subrange(16, buffer@.len() as int);
        let mut chain = self.read_initialization_vector(buffer);
        let mut output: Vec<u8> = Vec::new();
        let len = buffer.len();
        let blocks = (len - 16) / 16;
        for i in 0..blocks
            invariant
                len == buffer@.len(),
                16 * blocks + 16 == buffer@.len(),
                rk == self.round_keys@,
                nr == self.size.rounds(),
                body == buffer@.subrange(16, buffer@.len() as int),
                spec == cbc_decrypt_spec(rk, nr, buffer@),
                output@.len() == 16 * i,
                forall|m: int| 0 <= m < 16 * i ==> output@[m] == spec[m],
                chain@ == buffer@.subrange(16 * i, 16 * i + 16),
        {
            let block = Self::load_block(buffer, 16 + 16 * i);
            assert(block@ =~= block_at(body, i as int));
            let mut plain = self.inverted_cipher(&block);
            self.xor_with_initialization_vector(&mut plain, Some(&chain));
            assert forall|m: int| 0 <= m < 16 implies #[trigger] spec[16 * i + m] == plain[m] by {
                assert((16 * i + m) / 16 == i && (16 * i + m) % 16 == m);
            }
            Self::append_block(&mut output, &plain);
            chain = block;
        }
        assert(output@ =~= spec);
        self.initialization_vector = chain;
        output
    }

    /// Big-endian increment of a 128-bit counter, wrapping to zero.
    #[verifier::spinoff_prover]
    fn increment_counter(counter: &mut AesState)
        ensures
            final(counter)@ == increment(old(counter)@),
    {
        let ghost start = counter@;
        let mut k: usize = 16;
        let mut carry = true;
        while k > 0
            invariant
                k <= 16,
                start == old(counter)@,
                start.len() == 16,
                carry == carries_into(start, k - 1),
                forall|m: int| k <= m < 16 ==> counter[m] == increment(start)[m],
                forall|m: int| 0 <= m < k ==> counter[m] == start[m],
            decreases k,
        {
            let i = k - 1;
            assert(carries_into(start, i - 1) == (carry && start[i as int] == 255)) by {
                if carry && start[i as int] == 255 {
                    assert forall|m: int| i - 1 < m < 16 implies start[m] == 255 by {
                        if m > i {
                            assert(carries_into(start, i as int));
                        }
                    }
                }
            }
            let ghost expected = increment(start)[i as int];
            if carry {
                if counter[i] == 255 {
                    counter[i] = 0;
                } else {
                    counter[i] = counter[i] + 1;
                    carry = false;
                }
            }
            assert(counter[i as int] == expected);
            k = i;
        }
        assert(counter@ =~= increment(start));
    }

    #[verifier::spinoff_prover]
    /// Appends the bytes of `data` after the first `skip`, XORed with the
    /// keystream of the counter seed `seed`.
    fn ctr_xor(&self, seed: &AesState, data: &[u8], skip: usize, output: &mut Vec<u8>)
        requires
            skip <= data@.len(),
        ensures
            final(output)@ == old(output)@ + Seq::new(
                (data@.len() - skip) as nat,
                |k: int| data@[skip + k] ^ ctr_keystream(self.round_keys@, self.size.rounds(), seed@, k),
            ),
    {
        let ghost target = Seq::new(
            (data@.len() - skip) as nat,
            |k: int| data@[skip + k] ^ ctr_keystream(self.round_keys@, self.size.rounds(), seed@, k),
        );
        let total = data.len();
        let len = total - skip;
        let blocks = if len % 16 == 0 {
            len / 16
        } else {
            len / 16 + 1
        };
        let mut counter = *seed;
        let mut done: usize = 0;
        for b in 0..blocks
            invariant
                total == data@.len(),
                len == total - skip,
                skip <= total,
                16 * blocks >= len,
                16 * blocks < len + 16,
                target == Seq::new(
                    (data@.len() - skip) as nat,
                    |k: int| data@[skip + k] ^ ctr_keystream(self.round_keys@, self.size.rounds(), seed@, k),
                ),
                counter@ == counter_at(seed@, b as nat),
                done == if 16 * b <= len {
                    16 * b
                } else {
                    len as int
                },
                output@ == old(output)@ + target.subrange(0, done as int),
        {
            let keystream = self.cipher(&counter);
            let remaining = len - done;
            let take = if remaining < 16 {
                remaining
            } else {
                16
            };
            for m in 0..take
                invariant
                    total == data@.len(),
                    len == total - skip,
                    done + take <= len,
                    take <= 16,
                    done == 16 * b,
                    keystream@ == cipher_spec(self.round_keys@, self.size.rounds(), counter@),
                    counter@ == counter_at(seed@, b as nat),
                    target == Seq::new(
                        (data@.len() - skip) as nat,
                        |k: int| data@[skip + k] ^ ctr_keystream(self.round_keys@, self.size.rounds(), seed@, k),
                    ),
                    output@ == old(output)@ + target.subrange(0, done + m),
            {
                assert((done + m) / 16 == b && (done + m) % 16 == m);
                output.push(data[skip + done + m] ^ keystream[m]);
                assert(output@ =~= old(output)@ + target.subrange(0, done + m + 1));
            }
            done = done + take;
            Self::increment_counter(&mut counter);
        }
        assert(target.subrange(0, done as int) =~= target);
    }

    /// CTR with the stored initialization vector as counter seed, which prefixes the output.
    fn ctr_encrypt(&self, buffer: &[u8]) -> (output: Vec<u8>)
        ensures
            output@ == ctr_encrypt_spec(
                self.round_keys@,
                self.size.rounds(),
                self.initialization_vector@,
                buffer@,
            ),
    {
        let seed = self.initialization_vector;
        let mut output: Vec<u8> = Vec::new();
        Self::append_block(&mut output, &seed);
        self.ctr_xor(&seed, buffer, 0, &mut output);
        assert(output@ =~= ctr_encrypt_spec(self.round_keys@, self.size.rounds(), seed@, buffer@));
        output
    }

    /// CTR decryption of a message prefixed by its counter seed.
    fn ctr_decrypt(&self, buffer: &[u8]) -> (output: Vec<u8>)
        requires
            buffer@.len() >= 16,
        ensures
            output@ == ctr_decrypt_spec(self.round_keys@, self.size.rounds(), buffer@),
    {
        let seed = self.read_initialization_vector(buffer);
        let mut output: Vec<u8> = Vec::new();
        self.ctr_xor(&seed, buffer, 16, &mut output);
        assert(output@ =~= ctr_decrypt_spec(self.round_keys@, self.size.rounds(), buffer@));
        output
    }

    /// Stores a fresh random initialization vector.
    fn generate_initialization_vector(&mut self)
        ensures
            final(self)@ == (AesView { iv: final(self)@.iv, ..old(self)@ }),
    {
        proof {
            use_type_invariant(&*self);
        }
        self.initialization_vector = random_bytes();
    }

    /// Stores `iv` as the initialization vector.
    fn set_initialization_vector(&mut self, iv: &AesState)
        ensures
            final(self)@ == (AesView { iv: iv@, ..old(self)@ }),
    {
        proof {
            use_type_invariant(&*self);
        }
        self.initialization_vector = *iv;
    }

    /// Appends zero bytes up to a multiple of 16.
    fn pad(input: &mut Vec<u8>)
        ensures
            final(input)@ == zero_padded(old(input)@),
    {
        let len = input.len();
        if len % 16 != 0 {
            let missing = 16 - len % 16;
            for k in 0..missing
                invariant
                    input@ == old(input)@ + Seq::new(k as nat, |m: int| 0u8),
            {
                input.push(0);
                assert(input@ =~= old(input)@ + Seq::new((k + 1) as nat, |m: int| 0u8));
            }
        }
        assert(input@ =~= zero_padded(old(input)@));
    }

    /// Encrypts with the stored initialization vector.
    fn encrypt_current(&self, input: &mut Vec<u8>, output: &mut Vec<u8>)
        ensures
            final(input)@ == self@.prepared(old(input)@),
            final(output)@ == self@.encryption(self@.iv, old(input)@),
    {
        match self.mode {
            AesMode::CBC => {
                Self::pad(input);
                *output = self.cbc_encrypt(input.as_slice());
            },
            AesMode::ECB => {
                Self::pad(input);
                *output = self.ecb_encrypt(input.as_slice());
            },
            AesMode::CTR => {
                *output = self.ctr_encrypt(input.as_slice());
            },
        }
    }

    /// Encrypts `input` with `iv` as initialization vector or counter seed,
    /// which is then the stored one; ECB ignores `iv`.
    pub fn encrypt_with_iv(&mut self, input: &mut Vec<u8>, output: &mut Vec<u8>, iv: [u8; 16])
        ensures
            final(self)@ == (if old(self)@.mode == AesMode::ECB {
                old(self)@
            } else {
                AesView { iv: iv@, ..old(self)@ }
            }),
            final(input)@ == old(self)@.prepared(old(input)@),
            final(output)@ == old(self)@.encryption(iv@, old(input)@),
    {
        if self.mode != AesMode::ECB {
            self.set_initialization_vector(&iv);
        }
        self.encrypt_current(input, output);
    }

    #[verifier::spinoff_prover]
    /// Whether `key` starts with the `size.key_bytes()` round-key bytes that
    /// begin at `round * size.key_bytes()`.
    pub fn test_round_key(&self, key: &[u8], round: usize) -> (r: bool)
        requires
            key@.len() >= self@.size.key_bytes(),
            (round + 1) * self@.size.key_bytes() <= 256,
        ensures
            r == (key@.subrange(0, self@.size.key_bytes() as int) == self@.round_keys.subrange(
                round * self@.size.key_bytes(),
                (round + 1) * self@.size.key_bytes(),
            )),
    {
        let key_bytes: usize = match self.size {
            AesSize::S128 => 16,
            AesSize::S192 => 24,
            AesSize::S256 => 32,
        };
        assert((round + 1) * key_bytes == round * key_bytes + key_bytes) by (nonlinear_arith);
        let start = round * key_bytes;
        let ghost mine = key@.subrange(0, key_bytes as int);
        let ghost theirs = self.round_keys@.subrange(start as int, start + key_bytes);
        for i in 0..key_bytes
            invariant
                key_bytes == self@.size.key_bytes(),
                key_bytes <= key@.len(),
                start + key_bytes <= 256,
                start == round * self@.size.key_bytes(),
                start + key_bytes == (round + 1) * self@.size.key_bytes(),
                mine == key@.subrange(0, key_bytes as int),
                theirs == self.round_keys@.subrange(start as int, start + key_bytes),
                forall|m: int| 0 <= m < i ==> mine[m] == theirs[m],
        {
            if key[i] != self.round_keys[start + i] {
                assert(mine[i as int] != theirs[i as int]);
                assert(mine != theirs);
                return false;
            }
        }
        assert(mine =~= theirs);
        true
    }

    /// The `size.rounds() + 1` round keys, 16 bytes each.
    pub fn round_keys(&self) -> (keys: Vec<[u8; 16]>)
        ensures
            keys@.len() == self@.size.rounds() + 1,
            forall|r: int|
                0 <= r < keys@.len() ==> #[trigger] keys@[r]@ == self@.round_keys.subrange(16 * r, 16 * r + 16),
    {
        let count = self.num_rounds() + 1;
        let mut keys: Vec<[u8; 16]> = Vec::new();
        for r in 0..count
            invariant
                count == self@.size.rounds() + 1,
                count <= 15,
                keys@.len() == r,
                forall|q: int|
                    0 <= q < r ==> #[trigger] keys@[q]@ == self@.round_keys.subrange(16 * q, 16 * q + 16),
        {
            let block = Self::load_block(self.round_keys.as_slice(), 16 * r);
            keys.push(block);
        }
        keys
    }

    /// Expands the first `size.key_words()` words of `key` into the round keys.
    fn key_expansion(key: &[u8; 32], size: AesSize) -> (round_keys: [u8; 256])
        ensures
            forall|k: int|
                0 <= k < 16 * (size.rounds() + 1) ==> round_keys[k] == size.schedule(key@)[k],
    {
        match size {
            AesSize::S128 => expand_key(key, 4, 10),
            AesSize::S192 => expand_key(key, 6, 12),
            AesSize::S256 => expand_key(key, 8, 14),
        }
    }
}

impl Encryption for AESContext {
    /// Expands the key again.
    fn initialize_context(&mut self)
        ensures
            final(self)@ == (AesView { round_keys: final(self)@.round_keys, ..old(self)@ }),
            final(self)@.keyed(),
    {
        self.round_keys = Self::key_expansion(&self.key, self.size);
    }

    /// Pads `input` for ECB and CBC, draws a fresh initialization vector or
    /// counter seed for CBC and CTR, and replaces `output` with the message.
    fn encrypt(&mut self, input: &mut Vec<u8>, output: &mut Vec<u8>) -> (r: Result<(), CryptoError>)
        ensures
            aes_encrypted(old(self)@, final(self)@, old(input)@, final(input)@, final(output)@, r),
            final(self)@.keyed(),
    {
        if self.mode != AesMode::ECB {
            self.generate_initialization_vector();
        }
        proof {
            use_type_invariant(&*self);
        }
        self.encrypt_current(input, output);
        Ok(())
    }

    /// Replaces `output` with the plaintext of `input`; a message that the
    /// mode does not take is refused and nothing changes.
    fn decrypt(&mut self, input: &mut Vec<u8>, output: &mut Vec<u8>) -> (r: Result<(), CryptoError>)
        ensures
            final(input)@ == old(input)@,
            aes_decrypted(old(self)@, final(self)@, old(input)@, old(output)@, final(output)@, r),
    {
        let len = input.len();
        match self.mode {
            AesMode::ECB => {
                if len % 16 != 0 {
                    return Err(CryptoError::InputMisaligned);
                }
                *output = self.ecb_decrypt(input.as_slice());
            },
            AesMode::CBC => {
                if len < 16 {
                    return Err(CryptoError::InputTooShort);
                }
                if len % 16 != 0 {
                    return Err(CryptoError::InputMisaligned);
                }
                *output = self.cbc_decrypt(input.as_slice());
            },
            AesMode::CTR => {
                if len < 16 {
                    return Err(CryptoError::InputTooShort);
                }
                *output = self.ctr_decrypt(input.as_slice());
            },
        }
        Ok(())
    }

    /// Writes `key` over the front of the stored key and expands it again;
    /// a key longer than 32 bytes is refused and nothing changes.
    fn set_key(&mut self, key: &[u8]) -> (r: Result<(), CryptoError>)
        ensures
            aes_key_set(old(self)@, final(self)@, key@, r),
    {
        proof {
            use_type_invariant(&*self);
        }
        let len = key.len();
        if len > 32 {
            return Err(CryptoError::KeyLength);
        }
        let mut bytes = self.key;
        for k in 0..len
            invariant
                len == key@.len(),
                len <= 32,
                forall|m: int| 0 <= m < k ==> bytes[m] == key@[m],
                forall|m: int| k <= m < 32 ==> bytes[m] == old(self).key[m],
        {
            bytes[k] = key[k];
        }
        assert(bytes@ =~= key@ + old(self)@.key.subrange(len as int, 32));
        let round_keys = Self::key_expansion(&bytes, self.size);
        let (mode, size, initialization_vector) = (self.mode, self.size, self.initialization_vector);
        *self = AESContext { mode, size, key: bytes, round_keys, initialization_vector };
        Ok(())
    }
}

} // verus!
