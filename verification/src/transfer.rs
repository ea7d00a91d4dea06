use crate::error::Error;
use crate::tape::{InputTape, OutputTape};
use vstd::prelude::*;

verus! {

/// The first `b` of `s` stands at `i` when `s[i]` is `b` and nothing before
/// it is.
pub proof fn lemma_first_index(s: Seq<u8>, b: u8, i: int)
    requires
        0 <= i < s.len(),
        s[i] == b,
        forall|j: int| 0 <= j < i ==> s[j] != b,
    ensures
        s.index_of_first(b) == Some(i),
{
    s.index_of_first_ensures(b);
    assert(s.contains(b));
}

/// A sequence without `b` has no first `b`.
pub proof fn lemma_no_first_index(s: Seq<u8>, b: u8)
    requires
        !s.contains(b),
    ensures
        s.index_of_first(b) is None,
{
    s.index_of_first_ensures(b);
}

/// Where a line without `b` is followed by a `b`, the first `b` of the whole
/// stands right behind the line, and splits the whole into the line and what
/// follows.
pub proof fn lemma_first_behind_line(line: Seq<u8>, b: u8, rest: Seq<u8>)
    requires
        !line.contains(b),
    ensures
        (line + seq![b] + rest).contains(b),
        (line + seq![b] + rest).index_of_first(b) == Some(line.len() as int),
        (line + seq![b] + rest).take(line.len() as int) == line,
        (line + seq![b] + rest).skip(line.len() as int + 1) == rest,
{
    let whole = line + seq![b] + rest;
    let i = line.len() as int;
    assert forall|j: int| 0 <= j < i implies whole[j] != b by {
        assert(whole[j] == line[j]);
    }
    assert(whole[i] == b);
    lemma_first_index(whole, b, i);
    assert(whole.take(i) == line);
    assert(whole.skip(i + 1) == rest);
}

/// A sequence without `c` is still without it after a byte other than `c` is
/// pushed onto it.
pub proof fn lemma_push_keeps_out(s: Seq<u8>, b: u8, c: u8)
    requires
        !s.contains(c),
        b != c,
    ensures
        !s.push(b).contains(c),
{
    if s.push(b).contains(c) {
        let j = choose|j: int| 0 <= j < s.push(b).len() && s.push(b)[j] == c;
        assert(s[j] == c);
    }
}

/// Reads bytes up to the first `c`.
///
/// The bytes before that `c` are returned, in order. The `c` itself is taken
/// from the tape and dropped, and nothing behind it is touched. When the
/// tape holds no `c`, all of it is taken and the call fails with
/// [`Error::ChannelExhausted`].
pub fn read_until(input: &mut InputTape, c: u8) -> (r: Result<Vec<u8>, Error>)
    ensures
        match old(input)@.index_of_first(c) {
            Some(i) => {
                &&& r matches Ok(v)
                &&& v@ == old(input)@.take(i)
                &&& final(input)@ == old(input)@.skip(i + 1)
            },
            None => r == Err::<Vec<u8>, Error>(Error::ChannelExhausted) && final(input)@.len() == 0,
        },
        r matches Ok(v) ==> !v@.contains(c) && old(input)@ == v@ + seq![c] + final(input)@,
{
    let mut result: Vec<u8> = Vec::new();
    loop
        invariant
            old(input)@ == result@ + input@,
            !result@.contains(c),
        decreases input@.len(),
    {
        match input.read_byte() {
            None => {
                proof {
                    assert(old(input)@ == result@);
                    lemma_no_first_index(old(input)@, c);
                }
                return Err(Error::ChannelExhausted);
            },
            Some(b) => {
                if b == c {
                    proof {
                        assert(old(input)@ == result@ + seq![c] + input@);
                        lemma_first_behind_line(result@, c, input@);
                    }
                    return Ok(result);
                }
                proof {
                    lemma_push_keeps_out(result@, b, c);
                }
                result.push(b);
                assert(old(input)@ == result@ + input@);
            },
        }
    }
}

/// Reads exactly `n` bytes.
///
/// The next `n` bytes are returned, in order. When the tape holds fewer than
/// `n`, all of it is taken and the call fails with
/// [`Error::ChannelExhausted`].
pub fn read_n(input: &mut InputTape, n: usize) -> (r: Result<Vec<u8>, Error>)
    ensures
        n <= old(input)@.len() ==> {
            &&& r matches Ok(v)
            &&& v@ == old(input)@.take(n as int)
            &&& final(input)@ == old(input)@.skip(n as int)
        },
        n > old(input)@.len() ==> {
            &&& r == Err::<Vec<u8>, Error>(Error::ChannelExhausted)
            &&& final(input)@.len() == 0
        },
        r matches Ok(v) ==> v@.len() == n,
{
    let mut result: Vec<u8> = Vec::new();
    let mut i: usize = 0;
    while i < n
        invariant
            i <= n,
            result@.len() == i,
            old(input)@ == result@ + input@,
        decreases n - i,
    {
        match input.read_byte() {
            None => {
                return Err(Error::ChannelExhausted);
            },
            Some(b) => {
                result.push(b);
                i += 1;
                assert(old(input)@ == result@ + input@);
            },
        }
    }
    assert(result@ == old(input)@.take(n as int));
    assert(input@ == old(input)@.skip(n as int));
    Ok(result)
}

/// Writes the bytes of `v`, in order.
pub fn write_vec(output: &mut OutputTape, v: &[u8]) -> (r: Result<(), Error>)
    ensures
        r == Ok::<(), Error>(()),
        final(output)@ == old(output)@ + v@,
{
    let mut i: usize = 0;
    while i < v.len()
        invariant
            i <= v.len(),
            output@ == old(output)@ + v@.take(i as int),
        decreases v.len() - i,
    {
        output.write_byte(v[i]);
        i += 1;
        assert(v@.take(i as int) == v@.take(i - 1).push(v@[i - 1]));
    }
    assert(v@.take(i as int) == v@);
    Ok(())
}

} // verus!
