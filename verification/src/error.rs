use vstd::prelude::*;

verus! {

/// Why a read or a write did not complete.
///
/// Every failure is handed to the caller as one of these values; nothing is
/// retried. After a failed read the bytes already taken from the tape stay
/// taken.
#[derive(Debug, Clone, Copy, PartialEq, Eq, Structural)]
pub enum Error {
    /// The input ran out before a raw transfer or a header line was
    /// complete. A blocking host would have kept the caller waiting instead.
    ChannelExhausted,
    /// The header line is not a decimal length.
    HeaderDecode,
    /// The input ran out before the body that the header announced was
    /// complete.
    TruncatedInput,
    /// The bytes are not an encoding of the requested value: a body that the
    /// codec rejects, or a line of text that is not UTF-8.
    Decode,
    /// The codec cannot represent the value.
    Encode,
    /// The trimmed line does not follow the text grammar of the requested
    /// type.
    Parse,
}

impl Error {
    /// A sentence that describes the failure.
    pub fn to_string(&self) -> (text: String)
        ensures
            text@ == self.description()@,
    {
        match self {
            Error::ChannelExhausted => "the input ended before the read was complete".to_owned(),
            Error::HeaderDecode => "the length header is not a decimal number".to_owned(),
            Error::TruncatedInput => "the input ended inside the message body".to_owned(),
            Error::Decode => "the bytes do not decode to the requested value".to_owned(),
            Error::Encode => "the value cannot be encoded".to_owned(),
            Error::Parse => "the text does not parse as the requested type".to_owned(),
        }
    }

    /// The text of [`Error::to_string`].
    pub open spec fn description(&self) -> &'static str {
        match self {
            Error::ChannelExhausted => "the input ended before the read was complete",
            Error::HeaderDecode => "the length header is not a decimal number",
            Error::TruncatedInput => "the input ended inside the message body",
            Error::Decode => "the bytes do not decode to the requested value",
            Error::Encode => "the value cannot be encoded",
            Error::Parse => "the text does not parse as the requested type",
        }
    }
}

} // verus!
