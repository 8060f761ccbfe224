//! The interface that both ciphers offer, and the context that holds one of them.
use crate::aes::{aes_decrypted, aes_encrypted, aes_key_set, AESContext, AesMode, AesSize};
use crate::config::EncryptionInfo;
use crate::rc4::{rc4_applied, rc4_key_set, Rc4State};
use vstd::prelude::*;

verus! {

/// Why a cipher operation was refused; the operation then changed nothing.
#[derive(Clone, Copy, Debug, PartialEq, Eq, Structural)]
pub enum CryptoError {
    /// A key of a length that the cipher does not take.
    KeyLength,
    /// An output buffer shorter than the input.
    OutputTooShort,
    /// A message shorter than its 16-byte prefix.
    InputTooShort,
    /// A message whose ciphertext is not a whole number of 16-byte blocks.
    InputMisaligned,
}

/// The operations that the client driver performs on a cipher.
pub trait Encryption {
    /// Derives the internal state that the cipher works from.
    fn initialize_context(&mut self);

    /// Encrypts `input` into `output`; a block cipher may first pad `input`.
    fn encrypt(&mut self, input: &mut Vec<u8>, output: &mut Vec<u8>) -> Result<(), CryptoError>;

    /// Decrypts `input` into `output`.
    fn decrypt(&mut self, input: &mut Vec<u8>, output: &mut Vec<u8>) -> Result<(), CryptoError>;

    /// Replaces the key.
    fn set_key(&mut self, key: &[u8]) -> Result<(), CryptoError>;
}

/// The one cipher that a context holds.
pub enum Cipher {
    Aes(AESContext),
    Rc4(Rc4State),
}

/// The handle that the client driver holds: one cipher of either kind, used
/// through [`Encryption`].
pub struct EncryptionContext {
    pub context: Cipher,
}

/// The AES mode that an encryption type selects.
pub open spec fn mode_of(enc_type: EncryptionInfo) -> AesMode {
    match enc_type {
        EncryptionInfo::AesCbc => AesMode::CBC,
        EncryptionInfo::AesCtr => AesMode::CTR,
        _ => AesMode::ECB,
    }
}

/// The AES key size of a key of `len` bytes (16, 24 or 32).
pub open spec fn size_of_key(len: nat) -> AesSize {
    if len == 16 {
        AesSize::S128
    } else if len == 24 {
        AesSize::S192
    } else {
        AesSize::S256
    }
}

/// What encrypting does to a context: `input` and `padded` are the input
/// buffer before and after, `out_before` and `out_after` the output buffer.
pub open spec fn context_encrypted(
    before: EncryptionContext,
    after: EncryptionContext,
    input: Seq<u8>,
    padded: Seq<u8>,
    out_before: Seq<u8>,
    out_after: Seq<u8>,
    r: Result<(), CryptoError>,
) -> bool {
    match before.context {
        Cipher::Aes(a) => after.context matches Cipher::Aes(b) && aes_encrypted(a@, b@, input, padded, out_after, r),
        Cipher::Rc4(c) => after.context matches Cipher::Rc4(d) && padded == input && rc4_applied(
            c@,
            d@,
            input,
            out_before,
            out_after,
            r,
        ),
    }
}

/// What decrypting `input` does to a context; `out_before` and `out_after`
/// are the output buffer before and after.
pub open spec fn context_decrypted(
    before: EncryptionContext,
    after: EncryptionContext,
    input: Seq<u8>,
    out_before: Seq<u8>,
    out_after: Seq<u8>,
    r: Result<(), CryptoError>,
) -> bool {
    match before.context {
        Cipher::Aes(a) => after.context matches Cipher::Aes(b) && aes_decrypted(a@, b@, input, out_before, out_after, r),
        Cipher::Rc4(c) => after.context matches Cipher::Rc4(d) && rc4_applied(c@, d@, input, out_before, out_after, r),
    }
}

impl EncryptionContext {
    pub fn new(context: Cipher) -> (r: EncryptionContext)
        ensures
            r.context == context,
    {
        EncryptionContext { context }
    }

    /// The context that `enc_type` selects, keyed with `key`: AES in the
    /// selected mode, its key size given by the key's length (16, 24 or 32
    /// bytes), or RC4 with a 32-byte key. Any other length is refused.
    pub fn from_selection(enc_type: EncryptionInfo, key: &[u8]) -> (r: Result<EncryptionContext, CryptoError>)
        ensures
            enc_type == EncryptionInfo::Rc4 ==> if key@.len() == 32 {
                &&& r matches Ok(c)
                &&& c.context matches Cipher::Rc4(state)
                &&& state@.key == key@
            } else {
                r matches Err(CryptoError::KeyLength)
            },
            enc_type != EncryptionInfo::Rc4 ==> if key@.len() == 16 || key@.len() == 24 || key@.len() == 32 {
                &&& r matches Ok(c)
                &&& c.context matches Cipher::Aes(aes)
                &&& aes@.mode == mode_of(enc_type)
                &&& aes@.size == size_of_key(key@.len())
                &&& aes@.key.subrange(0, key@.len() as int) == key@
                &&& aes@.keyed()
            } else {
                r matches Err(CryptoError::KeyLength)
            },
    {
        let len = key.len();
        match enc_type {
            EncryptionInfo::Rc4 => {
                let mut state = Rc4State::new();
                match state.set_key(key) {
                    Ok(()) => Ok(EncryptionContext::new(Cipher::Rc4(state))),
                    Err(e) => Err(e),
                }
            },
            _ => {
                let mode = match enc_type {
                    EncryptionInfo::AesCbc => AesMode::CBC,
                    EncryptionInfo::AesCtr => AesMode::CTR,
                    _ => AesMode::ECB,
                };
                let size = if len == 16 {
                    AesSize::S128
                } else if len == 24 {
                    AesSize::S192
                } else if len == 32 {
                    AesSize::S256
                } else {
                    return Err(CryptoError::KeyLength);
                };
                let aes = AESContext::new(mode, size, Some(key));
                assert(aes@.key.subrange(0, len as int) =~= key@);
                Ok(EncryptionContext::new(Cipher::Aes(aes)))
            },
        }
    }
}

impl Encryption for EncryptionContext {
    /// AES expands its key again; RC4 draws a new random key.
    fn initialize_context(&mut self)
        ensures
            match old(self).context {
                Cipher::Aes(a) => final(self).context matches Cipher::Aes(b) && b@.keyed() && b@
                    == (crate::aes::AesView { round_keys: b@.round_keys, ..a@ }),
                Cipher::Rc4(c) => final(self).context matches Cipher::Rc4(d) && d@.key.len() == 32
                    && d@ == (crate::rc4::Rc4View { key: d@.key, ..c@ }),
            },
    {
        match &mut self.context {
            Cipher::Aes(a) => a.initialize_context(),
            Cipher::Rc4(c) => c.initialize_context(),
        }
    }

    fn encrypt(&mut self, input: &mut Vec<u8>, output: &mut Vec<u8>) -> (r: Result<(), CryptoError>)
        ensures
            context_encrypted(*old(self), *final(self), old(input)@, final(input)@, old(output)@, final(output)@, r),
    {
        match &mut self.context {
            Cipher::Aes(a) => a.encrypt(input, output),
            Cipher::Rc4(c) => c.encrypt(input, output),
        }
    }

    fn decrypt(&mut self, input: &mut Vec<u8>, output: &mut Vec<u8>) -> (r: Result<(), CryptoError>)
        ensures
            final(input)@ == old(input)@,
            context_decrypted(*old(self), *final(self), old(input)@, old(output)@, final(output)@, r),
    {
        match &mut self.context {
            Cipher::Aes(a) => a.decrypt(input, output),
            Cipher::Rc4(c) => c.decrypt(input, output),
        }
    }

    fn set_key(&mut self, key: &[u8]) -> (r: Result<(), CryptoError>)
        ensures
            match old(self).context {
                Cipher::Aes(a) => final(self).context matches Cipher::Aes(b) && aes_key_set(a@, b@, key@, r),
                Cipher::Rc4(c) => final(self).context matches Cipher::Rc4(d) && rc4_key_set(c@, d@, key@, r),
            },
    {
        match &mut self.context {
            Cipher::Aes(a) => a.set_key(key),
            Cipher::Rc4(c) => c.set_key(key),
        }
    }
}

} // verus!
