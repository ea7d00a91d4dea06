use crate::decimal::{
    decimal, decimal_digits, header_value, is_digit, lemma_decimal, lemma_header_of_decimal,
    parse_decimal,
};
use crate::error::Error;
use crate::tape::{InputTape, OutputTape};
use crate::transfer::{
    lemma_first_behind_line, lemma_no_first_index, read_n, read_until, write_vec,
};
use vstd::prelude::*;

verus! {

/// The byte that ends a header line.
pub const NEWLINE: u8 = 0x0A;

/// The wire form of a message with the given body: the body's length in
/// decimal digits, a newline, the body.
pub open spec fn frame(body: Seq<u8>) -> Seq<u8> {
    decimal(body.len()) + seq![NEWLINE] + body
}

/// What reading one message off the front of an input comes to.
pub enum Unframed {
    /// A whole message, and the input behind it.
    Message { body: Seq<u8>, rest: Seq<u8> },
    /// The input holds no newline, so no header line.
    NoHeader,
    /// The header line is malformed; `rest` is the input behind that line.
    BadHeader { rest: Seq<u8> },
    /// The input behind the header line is shorter than the header says.
    Truncated,
}

/// Reads one message off the front of `s`.
///
/// The header line is what stands before the first newline. Where it
/// announces a length, the body is that many bytes behind the newline.
pub open spec fn unframe(s: Seq<u8>) -> Unframed {
    match s.index_of_first(NEWLINE) {
        None => Unframed::NoHeader,
        Some(i) => match header_value(s.take(i)) {
            None => Unframed::BadHeader { rest: s.skip(i + 1) },
            Some(n) => if s.len() - (i + 1) < n {
                Unframed::Truncated
            } else {
                Unframed::Message { body: s.subrange(i + 1, i + 1 + n), rest: s.skip(i + 1 + n) }
            },
        },
    }
}

/// The digits of a length hold no newline.
pub proof fn lemma_header_holds_no_newline(n: nat)
    ensures
        !decimal(n).contains(NEWLINE),
{
    lemma_decimal(n);
    if decimal(n).contains(NEWLINE) {
        let j = choose|j: int| 0 <= j < decimal(n).len() && decimal(n)[j] == NEWLINE;
        assert(is_digit(decimal(n)[j]));
    }
}

/// In the wire form of a message the header line ends at the first newline,
/// holds no newline itself, and announces exactly the length of the body
/// that follows it.
pub proof fn lemma_header_counts_body(body: Seq<u8>)
    requires
        body.len() <= usize::MAX,
    ensures
        frame(body).index_of_first(NEWLINE) == Some(decimal(body.len()).len() as int),
        !decimal(body.len()).contains(NEWLINE),
        frame(body).take(decimal(body.len()).len() as int) == decimal(body.len()),
        header_value(decimal(body.len())) == Some(body.len()),
        frame(body).skip(decimal(body.len()).len() as int + 1) == body,
{
    lemma_header_holds_no_newline(body.len());
    lemma_header_of_decimal(body.len());
    lemma_first_behind_line(decimal(body.len()), NEWLINE, body);
}

/// Framing and then unframing gives the body back, and leaves what stood
/// behind the message untouched.
pub proof fn lemma_unframe_frame(body: Seq<u8>, rest: Seq<u8>)
    requires
        body.len() <= usize::MAX,
    ensures
        unframe(frame(body) + rest) == (Unframed::Message { body, rest }),
{
    let header = decimal(body.len());
    let wire = frame(body) + rest;
    let i = header.len() as int;
    lemma_header_holds_no_newline(body.len());
    lemma_header_of_decimal(body.len());
    assert(wire == header + seq![NEWLINE] + (body + rest));
    lemma_first_behind_line(header, NEWLINE, body + rest);
    assert(wire.subrange(i + 1, i + 1 + body.len()) == body);
    assert(wire.skip(i + 1 + body.len()) == rest);
}

/// No proper prefix of a message's wire form is decided: up to the newline
/// the header line is still open, and behind it the body is still short. So
/// a reader that stops as soon as it can has taken the whole message.
pub proof fn lemma_frame_needs_every_byte(body: Seq<u8>, k: int)
    requires
        body.len() <= usize::MAX,
        0 <= k < frame(body).len(),
    ensures
        unframe(frame(body).take(k)) is NoHeader || unframe(frame(body).take(k)) is Truncated,
{
    let header = decimal(body.len());
    let part = frame(body).take(k);
    let i = header.len() as int;
    lemma_header_holds_no_newline(body.len());
    lemma_header_of_decimal(body.len());
    if k <= i {
        assert(!part.contains(NEWLINE)) by {
            if part.contains(NEWLINE) {
                let j = choose|j: int| 0 <= j < part.len() && part[j] == NEWLINE;
                assert(header[j] == NEWLINE);
            }
        }
        lemma_no_first_index(part, NEWLINE);
    } else {
        let behind = body.take(k - i - 1);
        assert(part == header + seq![NEWLINE] + behind);
        lemma_first_behind_line(header, NEWLINE, behind);
    }
}

/// A malformed header line costs that line and its newline, and no byte of
/// what stands behind them.
pub proof fn lemma_malformed_header_costs_its_line(header: Seq<u8>, rest: Seq<u8>)
    requires
        !header.contains(NEWLINE),
        header_value(header) is None,
    ensures
        unframe(header + seq![NEWLINE] + rest) == (Unframed::BadHeader { rest }),
{
    lemma_first_behind_line(header, NEWLINE, rest);
}

/// Writes one message: the length of `body` in decimal digits, a newline,
/// then `body`.
pub fn write_frame(output: &mut OutputTape, body: &[u8])
    ensures
        final(output)@ == old(output)@ + frame(body@),
{
    let mut header = decimal_digits(body.len());
    header.push(NEWLINE);
    let _ = write_vec(output, header.as_slice());
    let _ = write_vec(output, body);
    assert(output@ == old(output)@ + frame(body@));
}

/// Reads one message and returns its body.
///
/// The header line is read up to its newline, then exactly as many bytes as
/// it announces. A malformed header fails the call before any byte behind
/// the header line is taken. A tape that ends early is taken whole.
pub fn read_frame(input: &mut InputTape) -> (r: Result<Vec<u8>, Error>)
    ensures
        match unframe(old(input)@) {
            Unframed::Message { body, rest } => {
                &&& r matches Ok(v)
                &&& v@ == body
                &&& final(input)@ == rest
            },
            Unframed::NoHeader => {
                &&& r == Err::<Vec<u8>, Error>(Error::ChannelExhausted)
                &&& final(input)@.len() == 0
            },
            Unframed::BadHeader { rest } => {
                &&& r == Err::<Vec<u8>, Error>(Error::HeaderDecode)
                &&& final(input)@ == rest
            },
            Unframed::Truncated => {
                &&& r == Err::<Vec<u8>, Error>(Error::TruncatedInput)
                &&& final(input)@.len() == 0
            },
        },
{
    let header = match read_until(input, NEWLINE) {
        Ok(line) => line,
        Err(_) => {
            return Err(Error::ChannelExhausted);
        },
    };
    let n: usize = match parse_decimal(header.as_slice()) {
        Some(n) => n,
        None => {
            return Err(Error::HeaderDecode);
        },
    };
    let ghost i = old(input)@.index_of_first(NEWLINE).unwrap();
    let ghost behind = input@;
    proof {
        old(input)@.index_of_first_ensures(NEWLINE);
        assert(behind.len() == old(input)@.len() - (i + 1));
    }
    match read_n(input, n) {
        Ok(body) => {
            assert(body@ == old(input)@.subrange(i + 1, i + 1 + n));
            assert(input@ == old(input)@.skip(i + 1 + n));
            Ok(body)
        },
        Err(_) => Err(Error::TruncatedInput),
    }
}

} // verus!
