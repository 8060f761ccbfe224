use kryptos::cipher::{Cipher, CryptoError, Encryption, EncryptionContext};
use kryptos::config::{parse_arguments, parse_port, ArgError, Command, EncryptionInfo, KeySize};

fn args(items: &[&str]) -> Vec<String> {
    items.iter().map(|s| s.to_string()).collect()
}

const KEY16: &str = "0123456789abcdef";
const KEY32: &str = "0123456789abcdef0123456789abcdef";

#[test]
fn help_and_version_short_circuit() {
    assert!(matches!(parse_arguments(&args(&["client", "--help"])), Ok(Command::Help)));
    assert!(matches!(parse_arguments(&args(&["client", "--version"])), Ok(Command::Version)));
    assert!(matches!(
        parse_arguments(&args(&["client", "--help", "1", "Rc4", KEY32])),
        Ok(Command::Help)
    ));
}

#[test]
fn argument_count_errors() {
    assert!(matches!(parse_arguments(&args(&["client"])), Err(ArgError::MissingArguments)));
    assert!(matches!(
        parse_arguments(&args(&["client", "127.0.0.1", "8080"])),
        Err(ArgError::MissingArguments)
    ));
    assert!(matches!(
        parse_arguments(&args(&["client", "a", "b", "c", "d", "e"])),
        Err(ArgError::TooManyArguments)
    ));
}

#[test]
fn port_errors() {
    assert!(matches!(
        parse_arguments(&args(&["client", "127.0.0.1", "http", "Rc4", KEY32])),
        Err(ArgError::InvalidPort)
    ));
    assert!(matches!(
        parse_arguments(&args(&["client", "127.0.0.1", "70000", "Rc4", KEY32])),
        Err(ArgError::InvalidPort)
    ));
    assert!(matches!(
        parse_arguments(&args(&["client", "127.0.0.1", "80", "Rc4", KEY32])),
        Err(ArgError::ReservedPort)
    ));
}

#[test]
fn encryption_type_and_key_errors() {
    assert!(matches!(
        parse_arguments(&args(&["client", "127.0.0.1", "8080", "Des", KEY32])),
        Err(ArgError::InvalidEncryptionType)
    ));
    assert!(matches!(
        parse_arguments(&args(&["client", "127.0.0.1", "8080", "AesCbc", "short"])),
        Err(ArgError::InvalidKeyLength(5))
    ));
}

#[test]
fn valid_command_line_gives_configuration() {
    match parse_arguments(&args(&["client", "10.0.0.1", "8080", "AesCtr", KEY16])) {
        Ok(Command::Run(config)) => {
            assert_eq!(config.ip, "10.0.0.1");
            assert_eq!(config.port, 8080);
            assert_eq!(config.enc_type, EncryptionInfo::AesCtr);
            assert_eq!(config.key, KEY16);
        }
        _ => panic!("expected a configuration"),
    }
    for (token, expected) in [
        ("AesCbc", EncryptionInfo::AesCbc),
        ("AesEcb", EncryptionInfo::AesEcb),
        ("Rc4", EncryptionInfo::Rc4),
    ] {
        match parse_arguments(&args(&["client", "h", "65535", token, KEY32])) {
            Ok(Command::Run(config)) => assert_eq!(config.enc_type, expected),
            _ => panic!("expected a configuration"),
        }
    }
}

#[test]
fn port_numbers() {
    assert_eq!(parse_port(b"8080"), Some(8080));
    assert_eq!(parse_port(b"+1024"), Some(1024));
    assert_eq!(parse_port(b"0"), Some(0));
    assert_eq!(parse_port(b"65535"), Some(65535));
    assert_eq!(parse_port(b"65536"), None);
    assert_eq!(parse_port(b"99999999999"), None);
    assert_eq!(parse_port(b""), None);
    assert_eq!(parse_port(b"+"), None);
    assert_eq!(parse_port(b"12a"), None);
    assert_eq!(parse_port(b"-1"), None);
}

#[test]
fn key_size_conversions() {
    assert_eq!(usize::from(KeySize::Size128), 128);
    assert_eq!(usize::from(KeySize::Size192), 192);
    let bits: usize = KeySize::Size256.into();
    assert_eq!(bits, 256);
    assert_eq!(KeySize::from(128usize), KeySize::Size128);
    assert_eq!(KeySize::from(192usize), KeySize::Size192);
    assert_eq!(KeySize::from(256usize), KeySize::Size256);
    assert_eq!(KeySize::from(7usize), KeySize::Size256);
}

#[test]
fn selection_builds_the_chosen_cipher() {
    let mut aes = EncryptionContext::from_selection(EncryptionInfo::AesCbc, &[1u8; 24]).unwrap();
    assert!(matches!(aes.context, Cipher::Aes(_)));
    let mut plain = b"over the wire".to_vec();
    let mut sent = Vec::new();
    aes.encrypt(&mut plain, &mut sent).unwrap();
    assert_eq!(sent.len(), 32);
    let mut back = Vec::new();
    aes.decrypt(&mut sent, &mut back).unwrap();
    assert_eq!(back, plain);

    let rc4 = EncryptionContext::from_selection(EncryptionInfo::Rc4, &[2u8; 32]).unwrap();
    assert!(matches!(rc4.context, Cipher::Rc4(_)));
}

#[test]
fn selection_rejects_wrong_key_lengths() {
    assert!(matches!(
        EncryptionContext::from_selection(EncryptionInfo::Rc4, &[2u8; 16]),
        Err(CryptoError::KeyLength)
    ));
    assert!(matches!(
        EncryptionContext::from_selection(EncryptionInfo::AesEcb, &[2u8; 20]),
        Err(CryptoError::KeyLength)
    ));
}
