//! The command line: `ip port encryption-type key`, or `--help`, or `--version`.
use vstd::prelude::*;
use vstd::utf8::encode_utf8;

verus! {

/// The cipher and mode that the command line selects.
#[derive(Clone, Copy, Debug, PartialEq, Eq, Structural)]
pub enum EncryptionInfo {
    AesCbc,
    AesCtr,
    AesEcb,
    Rc4,
}

/// An AES key size.
#[derive(Clone, Copy, Debug, PartialEq, Eq, Structural)]
pub enum KeySize {
    Size128,
    Size192,
    Size256,
}

pub open spec fn key_size_bits(size: KeySize) -> usize {
    match size {
        KeySize::Size128 => 128,
        KeySize::Size192 => 192,
        KeySize::Size256 => 256,
    }
}

/// 128 and 192 name their sizes; any other number gives the 256-bit size.
pub open spec fn key_size_of_bits(value: usize) -> KeySize {
    if value == 128 {
        KeySize::Size128
    } else if value == 192 {
        KeySize::Size192
    } else {
        KeySize::Size256
    }
}

impl From<KeySize> for usize {
    fn from(size: KeySize) -> (bits: usize) {
        match size {
            KeySize::Size128 => 128,
            KeySize::Size192 => 192,
            KeySize::Size256 => 256,
        }
    }
}

impl vstd::std_specs::convert::FromSpecImpl<KeySize> for usize {
    open spec fn obeys_from_spec() -> bool {
        true
    }

    open spec fn from_spec(size: KeySize) -> usize {
        key_size_bits(size)
    }
}

impl From<usize> for KeySize {
    fn from(value: usize) -> (size: KeySize) {
        match value {
            128 => KeySize::Size128,
            192 => KeySize::Size192,
            _ => KeySize::Size256,
        }
    }
}

impl vstd::std_specs::convert::FromSpecImpl<usize> for KeySize {
    open spec fn obeys_from_spec() -> bool {
        true
    }

    open spec fn from_spec(value: usize) -> KeySize {
        key_size_of_bits(value)
    }
}

/// What the client runs with.
pub struct KryptosConfig {
    pub enc_type: EncryptionInfo,
    pub key: String,
    pub port: u16,
    pub ip: String,
}

/// What the command line asks for.
pub enum Command {
    Run(KryptosConfig),
    Help,
    Version,
}

/// Why a command line was refused.
#[derive(Clone, Copy, Debug, PartialEq, Eq, Structural)]
pub enum ArgError {
    TooManyArguments,
    MissingArguments,
    /// The port is not a number from 0 to 65535.
    InvalidPort,
    /// The port is below 1024.
    ReservedPort,
    InvalidEncryptionType,
    /// The key is not 16, 24 or 32 bytes long; the length in bytes.
    InvalidKeyLength(usize),
}

/// The bytes of `--help`.
pub const HELP: [u8; 6] = [45, 45, 104, 101, 108, 112];

/// The bytes of `--version`.
pub const VERSION: [u8; 9] = [45, 45, 118, 101, 114, 115, 105, 111, 110];

/// The bytes of `AesCbc`.
pub const AES_CBC: [u8; 6] = [65, 101, 115, 67, 98, 99];

/// The bytes of `AesCtr`.
pub const AES_CTR: [u8; 6] = [65, 101, 115, 67, 116, 114];

/// The bytes of `AesEcb`.
pub const AES_ECB: [u8; 6] = [65, 101, 115, 69, 99, 98];

/// The bytes of `Rc4`.
pub const RC4: [u8; 3] = [82, 99, 52];

/// The UTF-8 bytes of a string.
pub open spec fn bytes_of(s: String) -> Seq<u8> {
    encode_utf8(s@)
}

/// An ASCII decimal digit.
pub open spec fn is_digit(b: u8) -> bool {
    48 <= b <= 57
}

/// The number that a run of decimal digits spells.
pub open spec fn digits_value(d: Seq<u8>) -> nat
    decreases d.len(),
{
    if d.len() == 0 {
        0
    } else {
        digits_value(d.drop_last()) * 10 + (d.last() - 48) as nat
    }
}

pub open spec fn all_digits(d: Seq<u8>) -> bool {
    forall|i: int| 0 <= i < d.len() ==> is_digit(#[trigger] d[i])
}

/// A port number without its optional leading `+` (byte 43).
pub open spec fn port_digits(text: Seq<u8>) -> Seq<u8> {
    if text.len() > 0 && text[0] == 43 {
        text.subrange(1, text.len() as int)
    } else {
        text
    }
}

/// The port that a text spells: an optional `+`, then one or more decimal
/// digits whose value is at most 65535.
pub open spec fn port_of(text: Seq<u8>) -> Option<u16> {
    let d = port_digits(text);
    if d.len() > 0 && all_digits(d) && digits_value(d) <= 65535 {
        Some(digits_value(d) as u16)
    } else {
        None
    }
}

/// The encryption type that a token names.
pub open spec fn encryption_of(token: Seq<u8>) -> Option<EncryptionInfo> {
    if token == AES_CBC@ {
        Some(EncryptionInfo::AesCbc)
    } else if token == AES_CTR@ {
        Some(EncryptionInfo::AesCtr)
    } else if token == AES_ECB@ {
        Some(EncryptionInfo::AesEcb)
    } else if token == RC4@ {
        Some(EncryptionInfo::Rc4)
    } else {
        None
    }
}

/// The outcome for five arguments whose second is neither `--help` nor `--version`.
pub open spec fn configured(args: Seq<String>, r: Result<Command, ArgError>) -> bool {
    match port_of(bytes_of(args[2])) {
        None => r == Err::<Command, ArgError>(ArgError::InvalidPort),
        Some(port) => if port < 1024 {
            r == Err::<Command, ArgError>(ArgError::ReservedPort)
        } else {
            match encryption_of(bytes_of(args[3])) {
                None => r == Err::<Command, ArgError>(ArgError::InvalidEncryptionType),
                Some(enc_type) => {
                    let n = bytes_of(args[4]).len();
                    if n == 16 || n == 24 || n == 32 {
                        &&& r matches Ok(Command::Run(c))
                        &&& c.enc_type == enc_type
                        &&& c.port == port
                        &&& c.ip@ == args[1]@
                        &&& c.key@ == args[4]@
                    } else {
                        r == Err::<Command, ArgError>(ArgError::InvalidKeyLength(n as usize))
                    }
                },
            }
        },
    }
}

fn bytes_equal(a: &[u8], b: &[u8]) -> (r: bool)
    ensures
        r == (a@ == b@),
{
    let n = a.len();
    if n != b.len() {
        return false;
    }
    for i in 0..n
        invariant
            n == a@.len(),
            n == b@.len(),
            forall|m: int| 0 <= m < i ==> a@[m] == b@[m],
    {
        if a[i] != b[i] {
            return false;
        }
    }
    assert(a@ =~= b@);
    true
}

/// Reads a port number; see [`port_of`].
pub fn parse_port(text: &[u8]) -> (r: Option<u16>)
    ensures
        r == port_of(text@),
{
    let n = text.len();
    let start: usize = if n > 0 && text[0] == 43 {
        1
    } else {
        0
    };
    let ghost d = port_digits(text@);
    assert(d =~= text@.subrange(start as int, n as int));
    if start >= n {
        return None;
    }
    // The value read so far, held at 65536 once it is larger.
    let mut value: u32 = 0;
    for i in start..n
        invariant
            n == text@.len(),
            start < n,
            d == text@.subrange(start as int, n as int),
            d == port_digits(text@),
            forall|m: int| start <= m < i ==> is_digit(text@[m]),
            value == if digits_value(text@.subrange(start as int, i as int)) < 65536 {
                digits_value(text@.subrange(start as int, i as int))
            } else {
                65536
            },
    {
        let c = text[i];
        if c < 48 || c > 57 {
            assert(!is_digit(d[i - start]));
            assert(!all_digits(d));
            return None;
        }
        assert(text@.subrange(start as int, i + 1).drop_last() =~= text@.subrange(start as int, i as int));
        let next = value * 10 + (c - 48) as u32;
        value = if next > 65536 {
            65536
        } else {
            next
        };
    }
    assert(all_digits(d)) by {
        assert forall|m: int| 0 <= m < d.len() implies is_digit(#[trigger] d[m]) by {
            assert(d[m] == text@[start + m]);
        }
    }
    assert(text@.subrange(start as int, n as int) == d);
    if value > 65535 {
        None
    } else {
        Some(value as u16)
    }
}

/// Decides what the command line asks for, in the order: too many
/// arguments, too few, `--help`, `--version`, too few for a run, port,
/// encryption type, key length.
pub fn parse_arguments(args: &Vec<String>) -> (r: Result<Command, ArgError>)
    ensures
        args@.len() > 5 ==> r == Err::<Command, ArgError>(ArgError::TooManyArguments),
        args@.len() < 2 ==> r == Err::<Command, ArgError>(ArgError::MissingArguments),
        2 <= args@.len() <= 5 ==> {
            if bytes_of(args@[1]) == HELP@ {
                r matches Ok(Command::Help)
            } else if bytes_of(args@[1]) == VERSION@ {
                r matches Ok(Command::Version)
            } else if args@.len() < 5 {
                r == Err::<Command, ArgError>(ArgError::MissingArguments)
            } else {
                configured(args@, r)
            }
        },
{
    let count = args.len();
    if count > 5 {
        return Err(ArgError::TooManyArguments);
    }
    if count < 2 {
        return Err(ArgError::MissingArguments);
    }
    let first = args[1].as_str().as_bytes();
    if bytes_equal(first, HELP.as_slice()) {
        return Ok(Command::Help);
    }
    if bytes_equal(first, VERSION.as_slice()) {
        return Ok(Command::Version);
    }
    if count < 5 {
        return Err(ArgError::MissingArguments);
    }
    let port = match parse_port(args[2].as_str().as_bytes()) {
        None => {
            return Err(ArgError::InvalidPort);
        },
        Some(p) => p,
    };
    if port < 1024 {
        return Err(ArgError::ReservedPort);
    }
    let token = args[3].as_str().as_bytes();
    let enc_type = if bytes_equal(token, AES_CBC.as_slice()) {
        EncryptionInfo::AesCbc
    } else if bytes_equal(token, AES_CTR.as_slice()) {
        EncryptionInfo::AesCtr
    } else if bytes_equal(token, AES_ECB.as_slice()) {
        EncryptionInfo::AesEcb
    } else if bytes_equal(token, RC4.as_slice()) {
        EncryptionInfo::Rc4
    } else {
        return Err(ArgError::InvalidEncryptionType);
    };
    let key_len = args[4].as_str().as_bytes().len();
    if key_len != 16 && key_len != 24 && key_len != 32 {
        return Err(ArgError::InvalidKeyLength(key_len));
    }
    Ok(Command::Run(KryptosConfig { enc_type, key: args[4].clone(), port, ip: args[1].clone() }))
}

} // verus!
