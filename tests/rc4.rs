use kryptos::cipher::{Cipher, CryptoError, Encryption, EncryptionContext};
use kryptos::rc4::{Rc4Key, Rc4State, KEY_SIZE_BYTES};

fn keyed() -> Rc4State {
    let mut state = Rc4State::new();
    let key: Vec<u8> = (0u8..32).collect();
    assert_eq!(state.set_key(&key), Ok(()));
    state
}

#[test]
fn rc4_known_output() {
    let mut state = keyed();
    let mut input = b"hello".to_vec();
    let mut output = vec![0u8; 5];
    assert_eq!(state.encrypt(&mut input, &mut output), Ok(()));
    assert_eq!(output, vec![0x78, 0x77, 0x7b, 0x78, 0x76]);
    let mut zeros = vec![0u8; 8];
    let mut stream = vec![0u8; 8];
    state.encrypt(&mut zeros, &mut stream).unwrap();
    assert_eq!(stream, vec![0x10, 0x12, 0x17, 0x14, 0x19, 0x18, 0x05, 0x1a]);
}

#[test]
fn rc4_encrypting_twice_restores_plaintext() {
    let mut state = keyed();
    let mut plain = b"attack at dawn".to_vec();
    let mut cipher = vec![0u8; plain.len()];
    state.encrypt(&mut plain, &mut cipher).unwrap();
    assert_ne!(cipher, plain);
    let mut back = vec![0u8; plain.len()];
    state.encrypt(&mut cipher, &mut back).unwrap();
    assert_eq!(back, plain);
    let mut again = vec![0u8; plain.len()];
    state.decrypt(&mut cipher, &mut again).unwrap();
    assert_eq!(again, plain);
}

#[test]
fn rc4_output_longer_than_input_keeps_tail() {
    let mut state = keyed();
    let mut input = b"hello".to_vec();
    let mut output = vec![0xaau8; 8];
    state.encrypt(&mut input, &mut output).unwrap();
    assert_eq!(output, vec![0x78, 0x77, 0x7b, 0x78, 0x76, 0xaa, 0xaa, 0xaa]);
}

#[test]
fn rc4_short_output_is_refused() {
    let mut state = keyed();
    let mut input = b"hello".to_vec();
    let mut output = vec![1u8, 2];
    assert_eq!(state.encrypt(&mut input, &mut output), Err(CryptoError::OutputTooShort));
    assert_eq!(output, vec![1u8, 2]);
}

#[test]
fn rc4_wrong_length_key_is_rejected() {
    let mut state = keyed();
    assert_eq!(state.set_key(&[7u8; 31]), Err(CryptoError::KeyLength));
    assert_eq!(state.set_key(&[7u8; 33]), Err(CryptoError::KeyLength));
    assert_eq!(state.set_key(&[]), Err(CryptoError::KeyLength));
    let mut input = b"hello".to_vec();
    let mut output = vec![0u8; 5];
    state.encrypt(&mut input, &mut output).unwrap();
    assert_eq!(output, vec![0x78, 0x77, 0x7b, 0x78, 0x76]);
}

#[test]
fn rc4_context_dispatch() {
    let mut ctx = EncryptionContext::new(Cipher::Rc4(Rc4State::new()));
    let key = [3u8; KEY_SIZE_BYTES];
    assert_eq!(ctx.set_key(&key), Ok(()));
    let mut plain = b"line".to_vec();
    let mut sent = vec![0u8; 4];
    ctx.encrypt(&mut plain, &mut sent).unwrap();
    let mut back = vec![0u8; 4];
    ctx.decrypt(&mut sent, &mut back).unwrap();
    assert_eq!(back, plain);
}

#[test]
fn rc4_key_wrapper_builds() {
    let _key = Rc4Key::new([0u8; KEY_SIZE_BYTES]);
    let mut state = Rc4State::new();
    state.initialize();
    state.generate_key();
    let mut input = vec![1u8, 2, 3];
    let mut output = vec![0u8; 3];
    assert_eq!(state.encrypt(&mut input, &mut output), Ok(()));
}
