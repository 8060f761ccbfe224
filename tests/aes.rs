use kryptos::aes::{AESContext, AesMode, AesSize};
use kryptos::cipher::{Cipher, CryptoError, Encryption, EncryptionContext};
use kryptos::field::{multiply, x_time};
use kryptos::sbox::{get_sbox_inverted, get_sbox_number};

fn hex(s: &str) -> Vec<u8> {
    (0..s.len()).step_by(2).map(|i| u8::from_str_radix(&s[i..i + 2], 16).unwrap()).collect()
}

fn context(mode: AesMode, size: AesSize, key: &str) -> AESContext {
    let key = hex(key);
    AESContext::new(mode, size, Some(&key))
}

fn encrypt_block(size: AesSize, key: &str, plain: &str) -> Vec<u8> {
    let mut ctx = context(AesMode::ECB, size, key);
    let mut input = hex(plain);
    let mut output = Vec::new();
    assert_eq!(ctx.encrypt(&mut input, &mut output), Ok(()));
    output
}

const KEY_128: &str = "2b7e151628aed2a6abf7158809cf4f3c";
const KEY_192: &str = "8e73b0f7da0e6452c810f32b809079e562f8ead2522c6b7b";
const KEY_256: &str = "603deb1015ca71be2b73aef0857d77811f352c073b6108d72d9810a30914dff4";

#[test]
fn known_answer_aes128_ecb() {
    let out = encrypt_block(AesSize::S128, KEY_128, "6bc1bee22e409f96e93d7e117393172a");
    assert_eq!(out, hex("3ad77bb40d7a3660a89ecaf32466ef97"));
}

#[test]
fn known_answer_fips197_all_sizes() {
    let plain = "00112233445566778899aabbccddeeff";
    assert_eq!(
        encrypt_block(AesSize::S128, "000102030405060708090a0b0c0d0e0f", plain),
        hex("69c4e0d86a7b0430d8cdb78070b4c55a")
    );
    assert_eq!(
        encrypt_block(AesSize::S192, "000102030405060708090a0b0c0d0e0f1011121314151617", plain),
        hex("dda97ca4864cdfe06eaf70a0ec0d7191")
    );
    assert_eq!(
        encrypt_block(
            AesSize::S256,
            "000102030405060708090a0b0c0d0e0f101112131415161718191a1b1c1d1e1f",
            plain
        ),
        hex("8ea2b7ca516745bfeafc49904b496089")
    );
}

#[test]
fn ecb_decrypts_known_answer() {
    let mut ctx = context(AesMode::ECB, AesSize::S128, KEY_128);
    let mut input = hex("3ad77bb40d7a3660a89ecaf32466ef97");
    let mut output = Vec::new();
    assert_eq!(ctx.decrypt(&mut input, &mut output), Ok(()));
    assert_eq!(output, hex("6bc1bee22e409f96e93d7e117393172a"));
}

#[test]
fn cbc_known_answer_with_given_iv() {
    let mut ctx = context(AesMode::CBC, AesSize::S128, KEY_128);
    let mut input = hex("6bc1bee22e409f96e93d7e117393172aae2d8a571e03ac9c9eb76fac45af8e51");
    let mut output = Vec::new();
    let iv: [u8; 16] = hex("000102030405060708090a0b0c0d0e0f").try_into().unwrap();
    ctx.encrypt_with_iv(&mut input, &mut output, iv);
    let mut expected = iv.to_vec();
    expected.extend(hex("7649abac8119b246cee98e9b12e9197d5086cb9b507219ee95db113a917678b2"));
    assert_eq!(output, expected);
}

#[test]
fn ctr_known_answer_with_given_seed() {
    let mut ctx = context(AesMode::CTR, AesSize::S128, KEY_128);
    let mut input = hex("6bc1bee22e409f96e93d7e117393172aae2d8a571e03ac9c9eb76fac45af8e51");
    let mut output = Vec::new();
    let seed: [u8; 16] = hex("f0f1f2f3f4f5f6f7f8f9fafbfcfdfeff").try_into().unwrap();
    ctx.encrypt_with_iv(&mut input, &mut output, seed);
    let mut expected = seed.to_vec();
    expected.extend(hex("874d6191b620e3261bef6864990db6ce9806f66b7970fdff8617187bb9fffdff"));
    assert_eq!(output, expected);
}

#[test]
fn ctr_counter_wraps_around() {
    let mut ctx = context(AesMode::CTR, AesSize::S128, KEY_128);
    let mut input = vec![0u8; 32];
    let mut output = Vec::new();
    ctx.encrypt_with_iv(&mut input, &mut output, [0xff; 16]);
    // The second keystream block enciphers the all-zero counter.
    let mut ecb = context(AesMode::ECB, AesSize::S128, KEY_128);
    let mut zero = vec![0u8; 16];
    let mut block = Vec::new();
    ecb.encrypt(&mut zero, &mut block).unwrap();
    assert_eq!(&output[32..48], &block[..]);
}

fn round_trip(mode: AesMode, size: AesSize, key: &str, plain: &[u8]) {
    let mut ctx = context(mode, size, key);
    let mut input = plain.to_vec();
    let mut sent = Vec::new();
    ctx.encrypt(&mut input, &mut sent).unwrap();
    let mut received = Vec::new();
    assert_eq!(ctx.decrypt(&mut sent, &mut received), Ok(()));
    assert_eq!(received, input);
    if let AesMode::CTR = mode {
        assert_eq!(received, plain.to_vec());
    } else {
        assert_eq!(&received[..plain.len()], plain);
        assert!(received[plain.len()..].iter().all(|b| *b == 0));
    }
}

#[test]
fn round_trip_all_modes_and_sizes() {
    let plain: Vec<u8> = (0u8..48).collect();
    for mode in [AesMode::ECB, AesMode::CBC, AesMode::CTR] {
        round_trip(mode, AesSize::S128, KEY_128, &plain);
        round_trip(mode, AesSize::S192, KEY_192, &plain);
        round_trip(mode, AesSize::S256, KEY_256, &plain);
    }
}

#[test]
fn round_trip_unaligned_and_empty() {
    for mode in [AesMode::ECB, AesMode::CBC, AesMode::CTR] {
        round_trip(mode, AesSize::S128, KEY_128, b"hello, world");
        round_trip(mode, AesSize::S256, KEY_256, b"");
        round_trip(mode, AesSize::S192, KEY_192, &[7u8; 33]);
    }
}

#[test]
fn block_modes_pad_input_with_zeros() {
    let mut ctx = context(AesMode::CBC, AesSize::S128, KEY_128);
    let mut input = b"abc".to_vec();
    let mut output = Vec::new();
    ctx.encrypt(&mut input, &mut output).unwrap();
    let mut expected = b"abc".to_vec();
    expected.resize(16, 0);
    assert_eq!(input, expected);
    assert_eq!(output.len(), 32);
}

#[test]
fn ctr_preserves_length() {
    for len in [0usize, 1, 5, 15, 16, 17, 21, 40] {
        let mut ctx = context(AesMode::CTR, AesSize::S128, KEY_128);
        let mut input = vec![0x42u8; len];
        let mut output = Vec::new();
        ctx.encrypt(&mut input, &mut output).unwrap();
        assert_eq!(output.len(), len + 16);
        assert_eq!(input.len(), len);
    }
}

#[test]
fn cbc_and_ctr_prefixes_differ_between_messages() {
    for mode in [AesMode::CBC, AesMode::CTR] {
        let mut ctx = context(mode, AesSize::S128, KEY_128);
        let mut first = Vec::new();
        let mut second = Vec::new();
        ctx.encrypt(&mut b"same text".to_vec(), &mut first).unwrap();
        ctx.encrypt(&mut b"same text".to_vec(), &mut second).unwrap();
        assert_ne!(&first[..16], &second[..16]);
        assert_ne!(first, second);
    }
}

#[test]
fn ecb_equal_blocks_give_equal_ciphertext() {
    let mut ctx = context(AesMode::ECB, AesSize::S192, KEY_192);
    let mut input = [b"sixteen byte blk".to_vec(), b"sixteen byte blk".to_vec()].concat();
    let mut output = Vec::new();
    ctx.encrypt(&mut input, &mut output).unwrap();
    assert_eq!(output.len(), 32);
    assert_eq!(&output[..16], &output[16..]);
    let mut again = Vec::new();
    ctx.encrypt(&mut input, &mut again).unwrap();
    assert_eq!(output, again);
}

#[test]
fn key_schedule_has_one_round_key_per_round_plus_one() {
    assert_eq!(context(AesMode::ECB, AesSize::S128, KEY_128).round_keys().len(), 11);
    assert_eq!(context(AesMode::ECB, AesSize::S192, KEY_192).round_keys().len(), 13);
    assert_eq!(context(AesMode::ECB, AesSize::S256, KEY_256).round_keys().len(), 15);
}

#[test]
fn key_schedule_matches_fips197_expansion() {
    let ctx = context(AesMode::ECB, AesSize::S128, KEY_128);
    let keys = ctx.round_keys();
    assert_eq!(keys[0].to_vec(), hex(KEY_128));
    assert_eq!(keys[1].to_vec(), hex("a0fafe1788542cb123a339392a6c7605"));
    assert_eq!(keys[10].to_vec(), hex("d014f9a8c9ee2589e13f0cc8b6630ca6"));
    assert!(ctx.test_round_key(&hex("d014f9a8c9ee2589e13f0cc8b6630ca6"), 10));
    assert!(ctx.test_round_key(&hex(KEY_128), 0));
    assert!(!ctx.test_round_key(&hex(KEY_128), 1));
    let wide = context(AesMode::ECB, AesSize::S256, KEY_256);
    assert_eq!(wide.round_keys()[14].to_vec(), hex("fe4890d1e6188d0b046df344706c631e"));
}

#[test]
fn decrypt_rejects_malformed_messages() {
    let mut cbc = context(AesMode::CBC, AesSize::S128, KEY_128);
    let mut out = vec![9u8];
    assert_eq!(cbc.decrypt(&mut vec![0u8; 10], &mut out), Err(CryptoError::InputTooShort));
    assert_eq!(cbc.decrypt(&mut vec![0u8; 20], &mut out), Err(CryptoError::InputMisaligned));
    assert_eq!(out, vec![9u8]);
    let mut ecb = context(AesMode::ECB, AesSize::S128, KEY_128);
    assert_eq!(ecb.decrypt(&mut vec![0u8; 15], &mut out), Err(CryptoError::InputMisaligned));
    let mut ctr = context(AesMode::CTR, AesSize::S128, KEY_128);
    assert_eq!(ctr.decrypt(&mut vec![0u8; 3], &mut out), Err(CryptoError::InputTooShort));
    let mut empty = Vec::new();
    assert_eq!(ctr.decrypt(&mut vec![0u8; 16], &mut empty), Ok(()));
    assert!(empty.is_empty());
}

#[test]
fn aes_set_key_rekeys_and_rejects_long_keys() {
    let mut ctx = context(AesMode::ECB, AesSize::S128, "000102030405060708090a0b0c0d0e0f");
    assert_eq!(ctx.set_key(&[0u8; 33]), Err(CryptoError::KeyLength));
    assert_eq!(ctx.set_key(&hex(KEY_128)), Ok(()));
    let mut input = hex("6bc1bee22e409f96e93d7e117393172a");
    let mut output = Vec::new();
    ctx.encrypt(&mut input, &mut output).unwrap();
    assert_eq!(output, hex("3ad77bb40d7a3660a89ecaf32466ef97"));
}

#[test]
fn random_key_context_round_trips() {
    let mut ctx = AESContext::new(AesMode::CBC, AesSize::S256, None);
    let mut input = b"random key".to_vec();
    let mut sent = Vec::new();
    ctx.encrypt(&mut input, &mut sent).unwrap();
    let mut received = Vec::new();
    ctx.decrypt(&mut sent, &mut received).unwrap();
    assert_eq!(received, input);
}

#[test]
fn context_dispatches_to_aes() {
    let mut ctx = EncryptionContext::new(Cipher::Aes(context(AesMode::ECB, AesSize::S128, KEY_128)));
    let mut input = hex("6bc1bee22e409f96e93d7e117393172a");
    let mut output = Vec::new();
    ctx.encrypt(&mut input, &mut output).unwrap();
    assert_eq!(output, hex("3ad77bb40d7a3660a89ecaf32466ef97"));
    let mut back = Vec::new();
    ctx.decrypt(&mut output, &mut back).unwrap();
    assert_eq!(back, input);
}

#[test]
fn field_arithmetic_examples() {
    assert_eq!(x_time(0x57), 0xae);
    assert_eq!(x_time(0xae), 0x47);
    assert_eq!(multiply(0x57, 0x13), 0xfe);
    assert_eq!(multiply(0x57, 0x02), 0xae);
    assert_eq!(multiply(0x01, 0x0e), 0x0e);
    assert_eq!(multiply(0x00, 0x0b), 0x00);
}

#[test]
fn sbox_lookups() {
    assert_eq!(get_sbox_number(0x53), 0xed);
    assert_eq!(get_sbox_inverted(0xed), 0x53);
    assert_eq!(get_sbox_number(0x00), 0x63);
    for x in 0..=255u8 {
        assert_eq!(get_sbox_inverted(get_sbox_number(x)), x);
    }
}
