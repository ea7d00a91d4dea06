use crate::error::Error;
use std::collections::VecDeque;
use vstd::prelude::*;

verus! {

/// The reading end of a byte channel.
///
/// It holds the bytes that have reached the program and have not been read
/// yet, oldest first. Its view is that sequence. A read takes the oldest
/// byte for good: there is no peeking and no way back.
#[derive(Debug, Clone)]
pub struct InputTape {
    pending: VecDeque<u8>,
}

impl View for InputTape {
    type V = Seq<u8>;

    closed spec fn view(&self) -> Seq<u8> {
        self.pending@
    }
}

impl InputTape {
    /// A tape with nothing to read.
    pub fn new() -> (tape: Self)
        ensures
            tape@ == Seq::<u8>::empty(),
    {
        InputTape { pending: VecDeque::new() }
    }

    /// A tape that will hand out `bytes` in order.
    pub fn from_bytes(bytes: &[u8]) -> (tape: Self)
        ensures
            tape@ == bytes@,
    {
        let mut tape = InputTape::new();
        tape.supply_all(bytes);
        tape
    }

    /// Appends one byte behind those that wait to be read.
    pub fn supply(&mut self, byte: u8)
        ensures
            final(self)@ == old(self)@.push(byte),
    {
        self.pending.push_back(byte);
    }

    /// Appends `bytes`, in order, behind those that wait to be read.
    pub fn supply_all(&mut self, bytes: &[u8])
        ensures
            final(self)@ == old(self)@ + bytes@,
    {
        let mut i: usize = 0;
        while i < bytes.len()
            invariant
                i <= bytes.len(),
                self@ == old(self)@ + bytes@.take(i as int),
            decreases bytes.len() - i,
        {
            self.pending.push_back(bytes[i]);
            i += 1;
            assert(bytes@.take(i as int) == bytes@.take(i - 1).push(bytes@[i - 1]));
        }
        assert(bytes@.take(i as int) == bytes@);
    }

    /// How many bytes wait to be read.
    pub fn len(&self) -> (n: usize)
        ensures
            n == self@.len(),
    {
        self.pending.len()
    }

    /// Takes the next byte, or `None` when the tape is empty.
    pub fn read_byte(&mut self) -> (byte: Option<u8>)
        ensures
            match byte {
                Some(b) => {
                    &&& old(self)@.len() > 0
                    &&& b == old(self)@[0]
                    &&& final(self)@ == old(self)@.skip(1)
                },
                None => old(self)@.len() == 0 && final(self)@ == old(self)@,
            },
    {
        self.pending.pop_front()
    }

    /// Fills `buf` from the tape, front to back, and returns its length.
    ///
    /// When the tape holds fewer bytes than `buf` has room for, all of them
    /// go to the front of `buf`, the rest of `buf` keeps what it held, and
    /// the call fails with [`Error::ChannelExhausted`].
    pub fn read(&mut self, buf: &mut [u8]) -> (r: Result<usize, Error>)
        ensures
            final(buf)@.len() == old(buf)@.len(),
            old(self)@.len() >= old(buf)@.len() ==> {
                &&& r == Ok::<usize, Error>(old(buf)@.len() as usize)
                &&& final(buf)@ == old(self)@.take(old(buf)@.len() as int)
                &&& final(self)@ == old(self)@.skip(old(buf)@.len() as int)
            },
            old(self)@.len() < old(buf)@.len() ==> {
                &&& r == Err::<usize, Error>(Error::ChannelExhausted)
                &&& final(buf)@ == old(self)@ + old(buf)@.skip(old(self)@.len() as int)
                &&& final(self)@.len() == 0
            },
    {
        let n: usize = buf.len();
        let mut i: usize = 0;
        while i < n
            invariant
                i <= n,
                n == buf@.len(),
                n == old(buf)@.len(),
                i <= old(self)@.len(),
                self@ == old(self)@.skip(i as int),
                buf@ == old(self)@.take(i as int) + old(buf)@.skip(i as int),
            decreases n - i,
        {
            match self.pending.pop_front() {
                None => {
                    assert(old(self)@.take(i as int) == old(self)@);
                    return Err(Error::ChannelExhausted);
                },
                Some(b) => {
                    buf[i] = b;
                    i += 1;
                    assert(self@ == old(self)@.skip(i as int));
                    assert(buf@ == old(self)@.take(i as int) + old(buf)@.skip(i as int));
                },
            }
        }
        assert(old(buf)@.skip(n as int) == Seq::<u8>::empty());
        Ok(n)
    }
}

/// The writing end of a byte channel.
///
/// It holds every byte written so far, oldest first. Its view is that
/// sequence. A write appends and never fails.
#[derive(Debug, Clone)]
pub struct OutputTape {
    emitted: Vec<u8>,
}

impl View for OutputTape {
    type V = Seq<u8>;

    closed spec fn view(&self) -> Seq<u8> {
        self.emitted@
    }
}

impl OutputTape {
    /// A tape on which nothing has been written.
    pub fn new() -> (tape: Self)
        ensures
            tape@ == Seq::<u8>::empty(),
    {
        OutputTape { emitted: Vec::new() }
    }

    /// Emits one byte.
    pub fn write_byte(&mut self, byte: u8)
        ensures
            final(self)@ == old(self)@.push(byte),
    {
        self.emitted.push(byte);
    }

    /// Emits the bytes of `buf`, in order, and returns how many there were.
    pub fn write(&mut self, buf: &[u8]) -> (r: Result<usize, Error>)
        ensures
            r == Ok::<usize, Error>(buf.len()),
            final(self)@ == old(self)@ + buf@,
    {
        let mut i: usize = 0;
        while i < buf.len()
            invariant
                i <= buf.len(),
                self@ == old(self)@ + buf@.take(i as int),
            decreases buf.len() - i,
        {
            self.emitted.push(buf[i]);
            i += 1;
            assert(buf@.take(i as int) == buf@.take(i - 1).push(buf@[i - 1]));
        }
        assert(buf@.take(i as int) == buf@);
        Ok(buf.len())
    }

    /// Everything written so far.
    pub fn as_slice(&self) -> (bytes: &[u8])
        ensures
            bytes@ == self@,
    {
        self.emitted.as_slice()
    }

    /// Gives up the tape for the bytes written on it.
    pub fn into_bytes(self) -> (bytes: Vec<u8>)
        ensures
            bytes@ == self@,
    {
        self.emitted
    }
}

} // verus!
