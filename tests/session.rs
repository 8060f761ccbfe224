use kryptos::aes::{AESContext, AesMode, AesSize};
use kryptos::cipher::{Cipher, CryptoError, EncryptionContext};
use kryptos::rc4::Rc4State;
use kryptos::session::{next_read_action, receive, send, ReadAction, ReadEvent};

fn aes_context(mode: AesMode) -> EncryptionContext {
    EncryptionContext::new(Cipher::Aes(AESContext::new(mode, AesSize::S128, Some(&[5u8; 16]))))
}

#[test]
fn read_events_map_to_actions() {
    assert!(matches!(next_read_action(ReadEvent::WouldBlock), ReadAction::Retry));
    assert!(matches!(next_read_action(ReadEvent::Closed), ReadAction::Exit));
    assert!(matches!(next_read_action(ReadEvent::Failed), ReadAction::Exit));
    match next_read_action(ReadEvent::Received(vec![1, 2, 3])) {
        ReadAction::Decrypt(bytes) => assert_eq!(bytes, vec![1, 2, 3]),
        _ => panic!("expected bytes to decrypt"),
    }
}

#[test]
fn empty_line_sends_nothing() {
    let mut ctx = aes_context(AesMode::CBC);
    assert!(send(&mut ctx, b"").is_none());
}

#[test]
fn sent_line_is_received_back() {
    for mode in [AesMode::ECB, AesMode::CBC, AesMode::CTR] {
        let mut ctx = aes_context(mode);
        let sent = send(&mut ctx, b"hi there").unwrap().unwrap();
        let plain = receive(&mut ctx, sent).unwrap();
        assert_eq!(&plain[..8], b"hi there");
    }
    let mut rc4 = EncryptionContext::new(Cipher::Rc4(Rc4State::new()));
    let sent = send(&mut rc4, b"hi there").unwrap().unwrap();
    assert_eq!(sent.len(), 8);
    assert_eq!(receive(&mut rc4, sent).unwrap(), b"hi there".to_vec());
}

#[test]
fn malformed_message_is_reported() {
    let mut ctx = aes_context(AesMode::CTR);
    assert_eq!(receive(&mut ctx, vec![1, 2, 3]), Err(CryptoError::InputTooShort));
}
