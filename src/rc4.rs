//! RC4 over a table as long as the key, rescheduled before every message.
use crate::cipher::{CryptoError, Encryption};
use crate::random::random_bytes;
use vstd::prelude::*;

verus! {

/// Length of an RC4 key, and of the permutation table.
pub const KEY_SIZE_BYTES: usize = 32;

/// The table with entries `a` and `b` exchanged.
pub open spec fn swap(s: Seq<u8>, a: int, b: int) -> Seq<u8> {
    s.update(a, s[b]).update(b, s[a])
}

/// The table and index `j` after the first `n` steps of key scheduling.
pub open spec fn schedule_steps(key: Seq<u8>, n: nat) -> (Seq<u8>, int)
    decreases n,
{
    if n == 0 {
        (Seq::new(32, |i: int| i as u8), 0)
    } else {
        let prev = schedule_steps(key, (n - 1) as nat);
        let i = n - 1;
        let j = (prev.1 + prev.0[i] + key[i]) % 32;
        (swap(prev.0, i, j), j)
    }
}

/// The permutation that key scheduling derives from the key.
pub open spec fn scheduled_table(key: Seq<u8>) -> Seq<u8> {
    schedule_steps(key, 32).0
}

/// The table and the indices `i`, `j` after `n` keystream steps.
pub open spec fn stream_state(key: Seq<u8>, n: nat) -> (Seq<u8>, int, int)
    decreases n,
{
    if n == 0 {
        (scheduled_table(key), 0, 0)
    } else {
        let prev = stream_state(key, (n - 1) as nat);
        let i = (prev.1 + 1) % 32;
        let j = (prev.2 + prev.0[i]) % 32;
        (swap(prev.0, i, j), i, j)
    }
}

/// Keystream byte `n`, counted from the start of a message.
pub open spec fn keystream_byte(key: Seq<u8>, n: nat) -> u8 {
    let st = stream_state(key, n + 1);
    st.0[(st.0[st.1] + st.0[st.2]) % 32]
}

/// `data` XORed with the keystream of `key`.
pub open spec fn rc4_apply(key: Seq<u8>, data: Seq<u8>) -> Seq<u8> {
    Seq::new(data.len(), |k: int| data[k] ^ keystream_byte(key, k as nat))
}

/// Applying the keystream twice gives the data back.
pub proof fn lemma_rc4_involution(key: Seq<u8>, data: Seq<u8>)
    ensures
        rc4_apply(key, rc4_apply(key, data)) == data,
{
    assert forall|k: int| 0 <= k < data.len() implies rc4_apply(key, rc4_apply(key, data))[k]
        == data[k] by {
        let (x, y) = (data[k], keystream_byte(key, k as nat));
        assert((x ^ y) ^ y == x) by (bit_vector);
    }
    assert(rc4_apply(key, rc4_apply(key, data)) =~= data);
}

/// What encryption and decryption do: `input` XORed with the keystream goes
/// over the front of the output buffer, which must be at least as long.
pub open spec fn rc4_applied(
    before: Rc4View,
    after: Rc4View,
    input: Seq<u8>,
    out_before: Seq<u8>,
    out_after: Seq<u8>,
    r: Result<(), CryptoError>,
) -> bool {
    if out_before.len() < input.len() {
        &&& r == Err::<(), CryptoError>(CryptoError::OutputTooShort)
        &&& out_after == out_before
        &&& after == before
    } else {
        &&& r is Ok
        &&& out_after == rc4_apply(before.key, input) + out_before.subrange(
            input.len() as int,
            out_before.len() as int,
        )
        &&& after == (Rc4View {
            table: stream_state(before.key, input.len()).0,
            i: stream_state(before.key, input.len()).1,
            j: stream_state(before.key, input.len()).2,
            ..before
        })
    }
}

/// What replacing the key does: a key of exactly 32 bytes replaces it; any
/// other is refused and nothing changes.
pub open spec fn rc4_key_set(before: Rc4View, after: Rc4View, key: Seq<u8>, r: Result<(), CryptoError>) -> bool {
    if key.len() == 32 {
        r is Ok && after == (Rc4View { key: key, ..before })
    } else {
        r == Err::<(), CryptoError>(CryptoError::KeyLength) && after == before
    }
}

/// An RC4 key.
#[derive(Debug)]
pub struct Rc4Key {
    key: [u8; KEY_SIZE_BYTES],
}

impl View for Rc4Key {
    type V = Seq<u8>;

    closed spec fn view(&self) -> Seq<u8> {
        self.key@
    }
}

impl Rc4Key {
    pub fn new(key: [u8; KEY_SIZE_BYTES]) -> (r: Rc4Key)
        ensures
            r@ == key@,
    {
        Rc4Key { key }
    }
}

/// An RC4 cipher: key, permutation table and stream indices.
#[derive(Debug)]
pub struct Rc4State {
    s: [u8; KEY_SIZE_BYTES],
    i: usize,
    j: usize,
    key: Rc4Key,
}

/// What an [`Rc4State`] holds, as mathematics.
pub struct Rc4View {
    /// 32 bytes.
    pub key: Seq<u8>,
    pub table: Seq<u8>,
    pub i: int,
    pub j: int,
}

impl View for Rc4State {
    type V = Rc4View;

    closed spec fn view(&self) -> Rc4View {
        Rc4View { key: self.key@, table: self.s@, i: self.i as int, j: self.j as int }
    }
}

impl Rc4State {
    /// A cipher with a random key.
    pub fn new() -> (r: Self)
        ensures
            r@.key.len() == 32,
            r@.i == 0,
            r@.j == 0,
    {
        let mut new = Self { s: [0;KEY_SIZE_BYTES], i: 0, j: 0, key: Rc4Key::new([0;KEY_SIZE_BYTES]) };
        new.initialize();
        new
    }

    /// Draws a new random key.
    pub fn initialize(&mut self)
        ensures
            final(self)@ == (Rc4View { key: final(self)@.key, ..old(self)@ }),
            final(self)@.key.len() == 32,
    {
        self.generate_key();
    }

    /// Draws a new random key.
    pub fn generate_key(&mut self)
        ensures
            final(self)@ == (Rc4View { key: final(self)@.key, ..old(self)@ }),
            final(self)@.key.len() == 32,
    {
        let key: [u8; KEY_SIZE_BYTES] = random_bytes();
        self.key = Rc4Key::new(key);
    }

    /// Resets the table to the permutation derived from the key, and both indices to 0.
    fn key_scheduling(&mut self)
        ensures
            final(self)@ == (Rc4View {
                table: scheduled_table(old(self)@.key),
                i: 0,
                j: 0,
                ..old(self)@
            }),
    {
        for i in 0..KEY_SIZE_BYTES
            invariant
                forall|m: int| 0 <= m < i ==> self.s[m] == m as u8,
                self.key@ == old(self).key@,
        {
            self.s[i] = i as u8;
        }
        assert(self.s@ =~= schedule_steps(self.key@, 0).0);
        let mut j: usize = 0;
        for i in 0..KEY_SIZE_BYTES
            invariant
                self.key@ == old(self).key@,
                self.key@.len() == 32,
                j < 32,
                (self.s@, j as int) == schedule_steps(self.key@, i as nat),
        {
            j = (j + self.s[i] as usize + self.key.key[i] as usize) % KEY_SIZE_BYTES;
            let t = self.s[i];
            self.s[i] = self.s[j];
            self.s[j] = t;
            assert(self.s@ =~= schedule_steps(self.key@, (i + 1) as nat).0);
        }
        self.i = 0;
        self.j = 0;
    }

    /// Reschedules from the key, then returns the first `len` keystream bytes.
    fn prga(&mut self, len: usize) -> (keystream: Vec<u8>)
        ensures
            keystream@ == Seq::new(len as nat, |k: int| keystream_byte(old(self)@.key, k as nat)),
            final(self)@ == (Rc4View {
                table: stream_state(old(self)@.key, len as nat).0,
                i: stream_state(old(self)@.key, len as nat).1,
                j: stream_state(old(self)@.key, len as nat).2,
                ..old(self)@
            }),
    {
        self.key_scheduling();
        let ghost key = self.key@;
        let mut keystream: Vec<u8> = Vec::new();
        for n in 0..len
            invariant
                key == old(self)@.key,
                self.key@ == key,
                self.i < 32,
                self.j < 32,
                (self.s@, self.i as int, self.j as int) == stream_state(key, n as nat),
                keystream@ == Seq::new(n as nat, |k: int| keystream_byte(key, k as nat)),
        {
            self.i = (self.i + 1) % KEY_SIZE_BYTES;
            self.j = (self.j + self.s[self.i] as usize) % KEY_SIZE_BYTES;
            let t = self.s[self.i];
            self.s[self.i] = self.s[self.j];
            self.s[self.j] = t;
            assert(self.s@ =~= stream_state(key, (n + 1) as nat).0);
            let k = self.s[(self.s[self.i] as usize + self.s[self.j] as usize) % KEY_SIZE_BYTES];
            keystream.push(k);
            assert(keystream@ =~= Seq::new((n + 1) as nat, |k: int| keystream_byte(key, k as nat)));
        }
        keystream
    }
}

impl Encryption for Rc4State {
    /// Draws a new random key.
    fn initialize_context(&mut self)
        ensures
            final(self)@ == (Rc4View { key: final(self)@.key, ..old(self)@ }),
            final(self)@.key.len() == 32,
    {
        self.initialize();
    }

    /// Writes `input` XORed with the keystream over the front of `output`;
    /// refused where `output` is shorter than `input`.
    fn encrypt(&mut self, input: &mut Vec<u8>, output: &mut Vec<u8>) -> (r: Result<(), CryptoError>)
        ensures
            final(input)@ == old(input)@,
            rc4_applied(old(self)@, final(self)@, old(input)@, old(output)@, final(output)@, r),
    {
        let len = input.len();
        if output.len() < len {
            return Err(CryptoError::OutputTooShort);
        }
        let keystream = self.prga(len);
        let ghost target = rc4_apply(old(self)@.key, input@) + old(output)@.subrange(len as int, old(output)@.len() as int);
        for k in 0..len
            invariant
                len == input@.len(),
                len <= output@.len(),
                output@.len() == old(output)@.len(),
                keystream@ == Seq::new(len as nat, |m: int| keystream_byte(old(self)@.key, m as nat)),
                target == rc4_apply(old(self)@.key, input@) + old(output)@.subrange(len as int, old(output)@.len() as int),
                forall|m: int| 0 <= m < k ==> output@[m] == target[m],
                forall|m: int| k <= m < output@.len() ==> output@[m] == old(output)@[m],
        {
            output[k] = input[k] ^ keystream[k];
        }
        assert(output@ =~= target);
        Ok(())
    }

    /// The same as encrypting: the keystream is XORed in again.
    fn decrypt(&mut self, input: &mut Vec<u8>, output: &mut Vec<u8>) -> (r: Result<(), CryptoError>)
        ensures
            final(input)@ == old(input)@,
            rc4_applied(old(self)@, final(self)@, old(input)@, old(output)@, final(output)@, r),
    {
        self.encrypt(input, output)
    }

    /// Takes a key of exactly 32 bytes; any other length is refused and the
    /// key stays as it was.
    fn set_key(&mut self, key: &[u8]) -> (r: Result<(), CryptoError>)
        ensures
            rc4_key_set(old(self)@, final(self)@, key@, r),
    {
        if key.len() != KEY_SIZE_BYTES {
            return Err(CryptoError::KeyLength);
        }
        let mut bytes = [0u8; KEY_SIZE_BYTES];
        for k in 0..KEY_SIZE_BYTES
            invariant
                key@.len() == 32,
                forall|m: int| 0 <= m < k ==> bytes[m] == key@[m],
        {
            bytes[k] = key[k];
        }
        assert(bytes@ =~= key@);
        self.key = Rc4Key::new(bytes);
        Ok(())
    }
}

} // verus!
