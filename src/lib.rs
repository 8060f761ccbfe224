//! A symmetric cipher engine for an encrypted line-based chat client: AES
//! (128-, 192- and 256-bit keys; ECB, CBC and CTR) and RC4, behind one
//! interface, with their behaviour stated as mathematics and proved.
//!
//! - `field`, `sbox`: GF(2^8) arithmetic and the substitution boxes.
//! - `block`, `schedule`, `modes`: the AES block transform, key schedule and
//!   modes of operation as spec functions, with their inverse laws.
//! - `aes`, `rc4`: the two ciphers.
//! - `cipher`: the common interface and the context that holds either cipher.
//! - `config`: the command line.
//! - `session`: the decisions of the reader and input loops.
pub mod field;
pub mod sbox;
pub mod block;
pub mod schedule;
pub mod modes;
pub mod aes;
pub mod rc4;
pub mod cipher;
pub mod config;
pub(crate) mod random;
pub mod session;
