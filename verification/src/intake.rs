use crate::decimal::{header_value, parse_decimal};
use crate::error::Error;
use crate::frame::{unframe, Unframed, NEWLINE};
use crate::transfer::{lemma_first_behind_line, lemma_no_first_index, lemma_push_keeps_out};
use vstd::prelude::*;

verus! {

/// A read up to a sentinel byte that is handed its input one byte at a time.
///
/// What a scan stands for is a pair: the byte it waits for,
/// [`Scan::sentinel`], and the bytes it has taken, [`Scan::seen`]. Every
/// contract below is stated over the two.
///
/// It is for a caller that fetches each byte from a blocking host: ask
/// [`Scan::wants_byte`], fetch, hand the byte to [`Scan::accept`], and stop
/// asking the host as soon as the answer is no.
pub struct Scan {
    sentinel: u8,
    taken: Vec<u8>,
    closed: bool,
}

impl Scan {
    /// No sentinel stands among the bytes kept.
    #[verifier::type_invariant]
    spec fn inv(&self) -> bool {
        !self.taken@.contains(self.sentinel)
    }

    /// The byte that ends the read.
    pub closed spec fn sentinel(&self) -> u8 {
        self.sentinel
    }

    /// Every byte taken so far, in order, the sentinel included once it has
    /// come.
    pub closed spec fn seen(&self) -> Seq<u8> {
        if self.closed {
            self.taken@.push(self.sentinel)
        } else {
            self.taken@
        }
    }

    /// A read that ends at the first `sentinel`.
    pub fn until(sentinel: u8) -> (scan: Self)
        ensures
            scan.sentinel() == sentinel,
            scan.seen() == Seq::<u8>::empty(),
    {
        let taken: Vec<u8> = Vec::new();
        Scan { sentinel, taken, closed: false }
    }

    /// Whether the read still needs a byte: it does until the sentinel has
    /// come. Once it has, the sentinel is the last byte taken and the only
    /// one of its kind.
    pub fn wants_byte(&self) -> (wants: bool)
        ensures
            wants == !self.seen().contains(self.sentinel()),
            !wants ==> self.seen().index_of_first(self.sentinel()) == Some(self.seen().len() - 1),
    {
        proof {
            use_type_invariant(self);
            self.lemma_seen();
        }
        !self.closed
    }

    /// Hands the read its next byte. A read that is complete takes no more:
    /// the byte is left aside.
    pub fn accept(&mut self, byte: u8)
        ensures
            final(self).sentinel() == old(self).sentinel(),
            final(self).seen() == if old(self).seen().contains(old(self).sentinel()) {
                old(self).seen()
            } else {
                old(self).seen().push(byte)
            },
    {
        proof {
            use_type_invariant(&*self);
            self.lemma_seen();
        }
        if self.closed {
        } else if byte == self.sentinel {
            self.closed = true;
        } else {
            // The buffer grows outside the scan and is put back whole, so
            // that the scan is in order at every step.
            proof {
                lemma_push_keeps_out(self.taken@, byte, self.sentinel);
            }
            let mut taken: Vec<u8> = Vec::new();
            core::mem::swap(&mut self.taken, &mut taken);
            taken.push(byte);
            core::mem::swap(&mut self.taken, &mut taken);
        }
    }

    /// Ends the read and returns the bytes that came before the sentinel, or
    /// all that came where the sentinel has not.
    pub fn into_bytes(self) -> (bytes: Vec<u8>)
        ensures
            !bytes@.contains(self.sentinel()),
            match self.seen().index_of_first(self.sentinel()) {
                Some(i) => bytes@ == self.seen().take(i),
                None => bytes@ == self.seen(),
            },
    {
        proof {
            use_type_invariant(&self);
            self.lemma_seen();
        }
        self.taken
    }

    /// Where the sentinel stands among the bytes taken: at the end, once the
    /// read is closed, and nowhere before that.
    proof fn lemma_seen(&self)
        requires
            self.inv(),
        ensures
            self.closed <==> self.seen().contains(self.sentinel),
            self.closed ==> self.seen().index_of_first(self.sentinel) == Some(
                self.taken@.len() as int,
            ),
            self.closed ==> self.seen().take(self.taken@.len() as int) == self.taken@,
            !self.closed ==> self.seen().index_of_first(self.sentinel) is None,
    {
        let s = self.seen();
        if self.closed {
            assert(s == self.taken@ + seq![self.sentinel] + Seq::<u8>::empty());
            lemma_first_behind_line(self.taken@, self.sentinel, Seq::<u8>::empty());
        } else {
            lemma_no_first_index(s, self.sentinel);
        }
    }
}

/// Where a [`FrameReader`] stands.
#[derive(Debug, Clone, Copy, PartialEq, Eq, Structural)]
enum Phase {
    /// Inside the header line.
    Header,
    /// Behind a header line that announces `need` bytes of body.
    Body { need: usize },
    /// Behind a malformed header line.
    Rejected,
}

/// A read of one message that is handed its input one byte at a time.
///
/// It is for a caller that fetches each byte from a blocking host: ask
/// [`FrameReader::wants_byte`], fetch, hand the byte to
/// [`FrameReader::accept`], and call [`FrameReader::finish`] as soon as the
/// answer is no. The reader then has taken one whole message and not a byte
/// more, or a malformed header line and not a byte more.
pub struct FrameReader {
    line: Vec<u8>,
    phase: Phase,
    body: Vec<u8>,
}

impl FrameReader {
    /// What the reader holds of the header line and of the body agrees with
    /// where it stands.
    #[verifier::type_invariant]
    spec fn inv(&self) -> bool {
        &&& !self.line@.contains(NEWLINE)
        &&& match self.phase {
            Phase::Header => self.body@.len() == 0,
            Phase::Body { need } => header_value(self.line@) == Some(need as nat)
                && self.body@.len() <= need,
            Phase::Rejected => header_value(self.line@) is None && self.body@.len() == 0,
        }
    }

    /// Every byte taken so far, in order.
    pub closed spec fn seen(&self) -> Seq<u8> {
        match self.phase {
            Phase::Header => self.line@,
            _ => self.line@ + seq![NEWLINE] + self.body@,
        }
    }

    /// A reader that has taken nothing yet.
    pub fn new() -> (reader: Self)
        ensures
            reader.seen() == Seq::<u8>::empty(),
    {
        let line: Vec<u8> = Vec::new();
        let body: Vec<u8> = Vec::new();
        FrameReader { line, phase: Phase::Header, body }
    }

    /// Whether the reader still needs a byte: it does while the header line
    /// has not ended, and then while the body is shorter than announced.
    pub fn wants_byte(&self) -> (wants: bool)
        ensures
            wants == (unframe(self.seen()) is NoHeader || unframe(self.seen()) is Truncated),
    {
        proof {
            use_type_invariant(self);
            self.lemma_seen();
        }
        match self.phase {
            Phase::Header => true,
            Phase::Body { need } => self.body.len() < need,
            Phase::Rejected => false,
        }
    }

    /// Hands the reader its next byte. A reader that needs no byte takes
    /// none: the byte is left aside.
    pub fn accept(&mut self, byte: u8)
        ensures
            final(self).seen() == ({
                let before = old(self).seen();
                if unframe(before) is NoHeader || unframe(before) is Truncated {
                    before.push(byte)
                } else {
                    before
                }
            }),
    {
        proof {
            use_type_invariant(&*self);
            self.lemma_seen();
        }
        match self.phase {
            Phase::Header => {
                if byte == NEWLINE {
                    self.phase = match parse_decimal(self.line.as_slice()) {
                        Some(need) => Phase::Body { need },
                        None => Phase::Rejected,
                    };
                    assert(self.seen() == old(self).seen().push(byte));
                } else {
                    // The line grows outside the reader and is put back
                    // whole, so that the reader is in order at every step.
                    proof {
                        lemma_push_keeps_out(self.line@, byte, NEWLINE);
                    }
                    let mut line: Vec<u8> = Vec::new();
                    core::mem::swap(&mut self.line, &mut line);
                    line.push(byte);
                    core::mem::swap(&mut self.line, &mut line);
                }
            },
            Phase::Body { need } => {
                if self.body.len() < need {
                    let mut body: Vec<u8> = Vec::new();
                    core::mem::swap(&mut self.body, &mut body);
                    body.push(byte);
                    core::mem::swap(&mut self.body, &mut body);
                    assert(self.seen() == old(self).seen().push(byte));
                }
            },
            Phase::Rejected => {},
        }
    }

    /// Ends the read.
    ///
    /// A reader that has taken a whole message returns its body. One that
    /// has taken a malformed header line fails with [`Error::HeaderDecode`].
    /// One that is cut short fails as a tape that ends there would: with
    /// [`Error::ChannelExhausted`] inside the header line, with
    /// [`Error::TruncatedInput`] inside the body. In no case has the reader
    /// taken a byte behind the message or behind the malformed line.
    pub fn finish(self) -> (r: Result<Vec<u8>, Error>)
        ensures
            match unframe(self.seen()) {
                Unframed::Message { body, rest } => {
                    &&& r matches Ok(v)
                    &&& v@ == body
                    &&& rest.len() == 0
                },
                Unframed::NoHeader => r == Err::<Vec<u8>, Error>(Error::ChannelExhausted),
                Unframed::BadHeader { rest } => {
                    &&& r == Err::<Vec<u8>, Error>(Error::HeaderDecode)
                    &&& rest.len() == 0
                },
                Unframed::Truncated => r == Err::<Vec<u8>, Error>(Error::TruncatedInput),
            },
    {
        proof {
            use_type_invariant(&self);
            self.lemma_seen();
        }
        match self.phase {
            Phase::Header => Err(Error::ChannelExhausted),
            Phase::Body { need } => {
                if self.body.len() < need {
                    Err(Error::TruncatedInput)
                } else {
                    Ok(self.body)
                }
            },
            Phase::Rejected => Err(Error::HeaderDecode),
        }
    }

    /// What the bytes taken so far come to as a message, phase by phase.
    proof fn lemma_seen(&self)
        requires
            self.inv(),
        ensures
            self.phase is Header ==> unframe(self.seen()) is NoHeader,
            self.phase is Rejected ==> unframe(self.seen()) == (Unframed::BadHeader {
                rest: Seq::<u8>::empty(),
            }),
            self.phase matches Phase::Body { need } ==> unframe(self.seen()) == if self.body@.len()
                < need {
                Unframed::Truncated
            } else {
                Unframed::Message { body: self.body@, rest: Seq::<u8>::empty() }
            },
    {
        let s = self.seen();
        if self.phase is Header {
            lemma_no_first_index(s, NEWLINE);
        } else {
            let i = self.line@.len() as int;
            lemma_first_behind_line(self.line@, NEWLINE, self.body@);
            if self.phase is Rejected {
                assert(s.skip(i + 1) == Seq::<u8>::empty());
            }
            if self.phase is Body {
                let n = self.body@.len() as int;
                if n == self.phase->need {
                    assert(s.subrange(i + 1, i + 1 + n) == self.body@);
                    assert(s.skip(i + 1 + n) == Seq::<u8>::empty());
                }
            }
        }
    }
}

} // verus!
