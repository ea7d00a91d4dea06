use crate::error::Error;
use crate::frame::NEWLINE;
use crate::tape::{InputTape, OutputTape};
use crate::transfer::{read_until, write_vec};
use vstd::prelude::*;
use vstd::string::StringSliceAdditionalSpecFns;
use vstd::utf8::{
    is_char_boundary, is_char_boundary_iff_not_is_continuation_byte,
    is_char_boundary_start_end_of_seq, pop_first_scalar, valid_utf8, valid_utf8_split,
};

verus! {

/// `b` is ASCII whitespace: a space, or one of the controls from horizontal
/// tab (0x09) to carriage return (0x0D).
pub open spec fn is_space(b: u8) -> bool {
    b == 0x20 || 0x09 <= b <= 0x0D
}

/// `s` without the whitespace at its front.
pub open spec fn trim_start(s: Seq<u8>) -> Seq<u8>
    decreases s.len(),
{
    if s.len() > 0 && is_space(s[0]) {
        trim_start(s.drop_first())
    } else {
        s
    }
}

/// `s` without the whitespace at its end.
pub open spec fn trim_end(s: Seq<u8>) -> Seq<u8>
    decreases s.len(),
{
    if s.len() > 0 && is_space(s.last()) {
        trim_end(s.drop_last())
    } else {
        s
    }
}

/// `s` without the whitespace at its front and at its end.
pub open spec fn trim(s: Seq<u8>) -> Seq<u8> {
    trim_end(trim_start(s))
}

/// Trimming the front drops exactly the run of whitespace that leads `s`.
pub proof fn lemma_trim_start(s: Seq<u8>, k: int)
    requires
        0 <= k <= s.len(),
        forall|j: int| 0 <= j < k ==> is_space(s[j]),
        k == s.len() || !is_space(s[k]),
    ensures
        trim_start(s) == s.skip(k),
    decreases k,
{
    if k == 0 {
        assert(s.skip(0) == s);
    } else {
        let t = s.drop_first();
        assert forall|j: int| 0 <= j < k - 1 implies is_space(t[j]) by {
            assert(t[j] == s[j + 1]);
        }
        lemma_trim_start(t, k - 1);
        assert(t.skip(k - 1) == s.skip(k));
    }
}

/// Trimming the end drops exactly the run of whitespace that closes `s`.
pub proof fn lemma_trim_end(s: Seq<u8>, k: int)
    requires
        0 <= k <= s.len(),
        forall|j: int| k <= j < s.len() ==> is_space(s[j]),
        k == 0 || !is_space(s[k - 1]),
    ensures
        trim_end(s) == s.take(k),
    decreases s.len() - k,
{
    if k == s.len() {
        assert(s.take(k) == s);
    } else {
        let t = s.drop_last();
        assert forall|j: int| k <= j < t.len() implies is_space(t[j]) by {
            assert(t[j] == s[j]);
        }
        lemma_trim_end(t, k);
        assert(t.take(k) == s.take(k));
    }
}

/// In valid UTF-8 a run of ASCII bytes at the front ends on a character
/// boundary.
proof fn lemma_boundary_behind_ascii(bytes: Seq<u8>, k: int)
    requires
        valid_utf8(bytes),
        0 <= k <= bytes.len(),
        forall|j: int| 0 <= j < k ==> bytes[j] <= 0x7f,
    ensures
        is_char_boundary(bytes, k),
    decreases k,
{
    if k > 0 {
        assert(bytes[0] <= 0x7f);
        let rest = pop_first_scalar(bytes);
        assert(rest == bytes.subrange(1, bytes.len() as int));
        assert forall|j: int| 0 <= j < k - 1 implies rest[j] <= 0x7f by {
            assert(rest[j] == bytes[j + 1]);
        }
        lemma_boundary_behind_ascii(rest, k - 1);
    }
}

/// Whether `b` is ASCII whitespace.
fn is_space_byte(b: u8) -> (r: bool)
    ensures
        r == is_space(b),
{
    b == 0x20 || (0x09 <= b && b <= 0x0D)
}

/// Decodes a line as UTF-8 text and trims it.
///
/// Succeeds exactly on the lines that are valid UTF-8, with the text whose
/// bytes are the line without the ASCII whitespace at its front and at its
/// end. Every other line fails with [`Error::Decode`].
pub fn line_text(line: &[u8]) -> (r: Result<&str, Error>)
    ensures
        match r {
            Ok(text) => valid_utf8(line@) && text.spec_bytes() == trim(line@),
            Err(e) => !valid_utf8(line@) && e == Error::Decode,
        },
{
    let whole = match core::str::from_utf8(line) {
        Ok(s) => s,
        Err(_) => {
            return Err(Error::Decode);
        },
    };
    let n: usize = line.len();
    let mut start: usize = 0;
    while start < n && is_space_byte(line[start])
        invariant
            start <= n,
            n == line@.len(),
            forall|j: int| 0 <= j < start ==> is_space(line@[j]),
        decreases n - start,
    {
        start += 1;
    }
    let mut end: usize = n;
    while end > start && is_space_byte(line[end - 1])
        invariant
            start <= end <= n,
            n == line@.len(),
            forall|j: int| end <= j < n ==> is_space(line@[j]),
        decreases end,
    {
        end -= 1;
    }
    let ghost tail_bytes = line@.skip(start as int);
    proof {
        lemma_trim_start(line@, start as int);
        assert forall|j: int| end - start <= j < tail_bytes.len() implies is_space(
            tail_bytes[j],
        ) by {
            assert(tail_bytes[j] == line@[j + start]);
        }
        lemma_trim_end(tail_bytes, end - start);
        assert(tail_bytes.take(end - start) == line@.subrange(start as int, end as int));
        lemma_boundary_behind_ascii(line@, start as int);
        valid_utf8_split(line@, start as int);
        assert(tail_bytes == line@.subrange(start as int, n as int));
        if end < n {
            assert(is_space(tail_bytes[end - start]));
            is_char_boundary_iff_not_is_continuation_byte(tail_bytes, end - start);
        } else {
            is_char_boundary_start_end_of_seq(tail_bytes);
        }
    }
    let (_, tail) = whole.split_at(start);
    let (text, _) = tail.split_at(end - start);
    assert(text.spec_bytes() == trim(line@));
    Ok(text)
}

/// Calls `str::parse`, which hands the text to `T`'s own `FromStr`. Nothing
/// is claimed about which texts parse or to what: that is `T`'s grammar.
#[verifier::external_body]
fn parse_text<T: core::str::FromStr>(text: &str) -> (r: Option<T>) {
    text.parse::<T>().ok()
}

/// Reads a line as a value of type `T`.
///
/// The line is decoded as UTF-8 and trimmed as [`line_text`] does it, and
/// the text goes to `T`'s parser. A line that is not UTF-8 fails with
/// [`Error::Decode`]; a text that `T` does not accept fails with
/// [`Error::Parse`].
pub fn parse_line<T: core::str::FromStr>(line: &[u8]) -> (r: Result<T, Error>)
    ensures
        !valid_utf8(line@) ==> r == Err::<T, Error>(Error::Decode),
        valid_utf8(line@) ==> (r matches Err(e) ==> e == Error::Parse),
{
    let text = match line_text(line) {
        Ok(text) => text,
        Err(e) => {
            return Err(e);
        },
    };
    match parse_text::<T>(text) {
        Some(value) => Ok(value),
        None => Err(Error::Parse),
    }
}

/// Reads one line from the tape as a value of type `T`.
///
/// The line is what stands before the first newline; it is taken together
/// with that newline, and nothing behind it. It is then read as
/// [`parse_line`] does it. A tape without a newline is taken whole and fails
/// the call with [`Error::ChannelExhausted`].
pub fn read_line<T: core::str::FromStr>(input: &mut InputTape) -> (r: Result<T, Error>)
    ensures
        match old(input)@.index_of_first(NEWLINE) {
            Some(i) => {
                &&& final(input)@ == old(input)@.skip(i + 1)
                &&& !valid_utf8(old(input)@.take(i)) ==> r == Err::<T, Error>(Error::Decode)
                &&& valid_utf8(old(input)@.take(i)) ==> (r matches Err(e) ==> e == Error::Parse)
            },
            None => {
                &&& r == Err::<T, Error>(Error::ChannelExhausted)
                &&& final(input)@.len() == 0
            },
        },
{
    let line = match read_until(input, NEWLINE) {
        Ok(line) => line,
        Err(e) => {
            return Err(e);
        },
    };
    parse_line::<T>(line.as_slice())
}

/// Writes the UTF-8 bytes of `s` and then one newline.
pub fn println(output: &mut OutputTape, s: &str)
    ensures
        final(output)@ == old(output)@ + s.spec_bytes() + seq![NEWLINE],
{
    let _ = write_vec(output, s.as_bytes());
    output.write_byte(NEWLINE);
    assert(output@ == old(output)@ + s.spec_bytes() + seq![NEWLINE]);
}

} // verus!
