use crate::error::Error;
use crate::frame::{frame, read_frame, unframe, write_frame, Unframed};
use crate::tape::{InputTape, OutputTape};
use bincode::Options;
use vstd::prelude::*;

verus! {

/// The error of the `bincode` crate, `bincode::ErrorKind`. The library
/// carries it from the codec to the place where it becomes an [`Error`] and
/// never looks inside.
#[verifier::external_type_specification]
#[verifier::external_body]
pub struct ExErrorKind(bincode::ErrorKind);

/// Calls `bincode::Options::serialize` on `bincode::options()` set to big
/// endian and to fixed-width integers. Nothing is claimed about the bytes
/// that come back or about when the call fails: both rest with the value's
/// own `Serialize`.
#[verifier::external_body]
fn codec_serialize<T: serde::Serialize>(value: &T) -> (r: Result<Vec<u8>, Box<bincode::ErrorKind>>) {
    bincode::options().with_big_endian().with_fixint_encoding().serialize(value)
}

/// Calls `bincode::Options::deserialize` on `bincode::options()` set to big
/// endian and to fixed-width integers; bytes left over behind the value are
/// an error there. Nothing is claimed about the value that comes back or
/// about when the call fails: both rest with the type's own `Deserialize`.
#[verifier::external_body]
fn codec_deserialize<T: serde::de::DeserializeOwned>(bytes: &[u8]) -> (r: Result<
    T,
    Box<bincode::ErrorKind>,
>) {
    bincode::options().with_big_endian().with_fixint_encoding().deserialize(bytes)
}

/// Turns what the codec handed back into a result of this library: a value
/// passes through as it is, and whatever the codec reported becomes
/// `failure`.
pub fn settle<T>(outcome: Result<T, Box<bincode::ErrorKind>>, failure: Error) -> (r: Result<
    T,
    Error,
>)
    ensures
        match outcome {
            Ok(value) => r == Ok::<T, Error>(value),
            Err(_) => r == Err::<T, Error>(failure),
        },
{
    match outcome {
        Ok(value) => Ok(value),
        Err(_) => Err(failure),
    }
}

/// Encodes `value` with the codec.
///
/// The bytes are the codec's to choose. The only failure is
/// [`Error::Encode`].
pub fn encode<T: serde::Serialize>(value: &T) -> (r: Result<Vec<u8>, Error>)
    ensures
        r matches Err(e) ==> e == Error::Encode,
{
    settle(codec_serialize(value), Error::Encode)
}

/// Decodes a message body with the codec.
///
/// The value is the codec's to choose. The only failure is
/// [`Error::Decode`].
pub fn decode<T: serde::de::DeserializeOwned>(body: &[u8]) -> (r: Result<T, Error>)
    ensures
        r matches Err(e) ==> e == Error::Decode,
{
    settle(codec_deserialize(body), Error::Decode)
}

/// Encodes `value` and writes it as one message.
///
/// On success the tape has grown by the wire form of some body: a header
/// that announces the body's length, a newline, the body. Which body is the
/// codec's choice; [`write_frame`] says what is written for a given one.
/// When the codec cannot encode the value the call fails with
/// [`Error::Encode`] and nothing is written.
pub fn write<T: serde::Serialize>(output: &mut OutputTape, value: &T) -> (r: Result<(), Error>)
    ensures
        match r {
            Ok(_) => exists|body: Seq<u8>|
                body.len() <= usize::MAX && final(output)@ == old(output)@ + #[trigger] frame(body),
            Err(e) => e == Error::Encode && final(output)@ == old(output)@,
        },
{
    let body = match encode(value) {
        Ok(body) => body,
        Err(e) => {
            return Err(e);
        },
    };
    write_frame(output, body.as_slice());
    assert(body@.len() == body.len());
    Ok(())
}

/// Reads one message and decodes its body.
///
/// The message is taken off the tape as [`read_frame`] does it, with the
/// same failures. Where a whole message is there, it is taken and no byte
/// behind it, and its body goes to the codec: the result is the value that
/// the codec makes of it, or [`Error::Decode`].
pub fn read<T: serde::de::DeserializeOwned>(input: &mut InputTape) -> (r: Result<T, Error>)
    ensures
        match unframe(old(input)@) {
            Unframed::Message { body, rest } => {
                &&& final(input)@ == rest
                &&& r matches Err(e) ==> e == Error::Decode
            },
            Unframed::NoHeader => {
                &&& r == Err::<T, Error>(Error::ChannelExhausted)
                &&& final(input)@.len() == 0
            },
            Unframed::BadHeader { rest } => {
                &&& r == Err::<T, Error>(Error::HeaderDecode)
                &&& final(input)@ == rest
            },
            Unframed::Truncated => {
                &&& r == Err::<T, Error>(Error::TruncatedInput)
                &&& final(input)@.len() == 0
            },
        },
{
    let body = match read_frame(input) {
        Ok(body) => body,
        Err(e) => {
            return Err(e);
        },
    };
    decode(body.as_slice())
}

} // verus!
