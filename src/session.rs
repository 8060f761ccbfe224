//! The decisions of the client's two loops: the socket reader and the
//! console input. The loops themselves, with their I/O and locks, run
//! outside the library.
use crate::cipher::{context_decrypted, context_encrypted, CryptoError, Encryption, EncryptionContext};
use vstd::prelude::*;

verus! {

/// What one non-blocking read of the socket gave.
pub enum ReadEvent {
    /// Some bytes.
    Received(Vec<u8>),
    /// Nothing yet.
    WouldBlock,
    /// The peer closed the connection.
    Closed,
    /// A read error.
    Failed,
}

/// What the reader does next.
pub enum ReadAction {
    /// Decrypt and show these bytes.
    Decrypt(Vec<u8>),
    /// Wait and read again.
    Retry,
    /// End the process with a failure.
    Exit,
}

/// `n` zero bytes.
pub open spec fn zeros(n: nat) -> Seq<u8> {
    Seq::new(n, |i: int| 0u8)
}

/// Received bytes are decrypted; "would block" is no error and is retried;
/// a closed connection or a read error ends the process.
pub fn next_read_action(event: ReadEvent) -> (action: ReadAction)
    ensures
        match event {
            ReadEvent::Received(bytes) => action matches ReadAction::Decrypt(b) && b@ == bytes@,
            ReadEvent::WouldBlock => action matches ReadAction::Retry,
            _ => action matches ReadAction::Exit,
        },
{
    match event {
        ReadEvent::Received(bytes) => ReadAction::Decrypt(bytes),
        ReadEvent::WouldBlock => ReadAction::Retry,
        ReadEvent::Closed => ReadAction::Exit,
        ReadEvent::Failed => ReadAction::Exit,
    }
}

/// Decrypts a received message into a buffer as long as the message.
pub fn receive(context: &mut EncryptionContext, message: Vec<u8>) -> (r: Result<Vec<u8>, CryptoError>)
    ensures
        match r {
            Ok(plain) => context_decrypted(*old(context), *final(context), message@, message@, plain@, Ok(())),
            Err(e) => context_decrypted(
                *old(context),
                *final(context),
                message@,
                message@,
                message@,
                Err(e),
            ),
        },
{
    let mut input = message;
    let mut output = input.clone();
    assert(output@ == input@);
    match context.decrypt(&mut input, &mut output) {
        Ok(()) => Ok(output),
        Err(e) => Err(e),
    }
}

/// Encrypts a console line (already trimmed) into the bytes to send, into a
/// buffer of zeros as long as the line; an empty line sends nothing.
pub fn send(context: &mut EncryptionContext, line: &[u8]) -> (r: Option<Result<Vec<u8>, CryptoError>>)
    ensures
        line@.len() == 0 ==> r is None && *final(context) == *old(context),
        line@.len() > 0 ==> exists|padded: Seq<u8>, out: Seq<u8>, res: Result<(), CryptoError>|
            {
                &&& #[trigger] context_encrypted(
                    *old(context),
                    *final(context),
                    line@,
                    padded,
                    zeros(line@.len()),
                    out,
                    res,
                )
                &&& match r {
                    Some(Ok(sent)) => res is Ok && out == sent@,
                    Some(Err(e)) => res == Err::<(), CryptoError>(e),
                    None => false,
                }
            },
{
    let len = line.len();
    if len == 0 {
        return None;
    }
    let mut input: Vec<u8> = Vec::new();
    let mut output: Vec<u8> = Vec::new();
    for i in 0..len
        invariant
            len == line@.len(),
            input@ == line@.subrange(0, i as int),
            output@ == zeros(i as nat),
    {
        input.push(line[i]);
        output.push(0);
        assert(input@ =~= line@.subrange(0, i + 1));
        assert(output@ =~= zeros((i + 1) as nat));
    }
    assert(input@ =~= line@);
    let r = context.encrypt(&mut input, &mut output);
    assert(context_encrypted(*old(context), *context, line@, input@, zeros(len as nat), output@, r));
    match r {
        Ok(()) => Some(Ok(output)),
        Err(e) => Some(Err(e)),
    }
}

} // verus!
