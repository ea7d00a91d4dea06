use vstd::prelude::*;

verus! {

/// The byte `'0'`.
pub const ZERO: u8 = 0x30;

/// The byte `'9'`.
pub const NINE: u8 = 0x39;

/// `b` is one of the ASCII digits `'0'` to `'9'`.
pub open spec fn is_digit(b: u8) -> bool {
    ZERO <= b <= NINE
}

/// Every byte of `s` is an ASCII digit.
pub open spec fn all_digits(s: Seq<u8>) -> bool {
    forall|i: int| 0 <= i < s.len() ==> is_digit(#[trigger] s[i])
}

/// What the digit `b` counts for; 0 for a byte that is no digit.
pub open spec fn digit_value(b: u8) -> nat {
    if is_digit(b) {
        (b - ZERO) as nat
    } else {
        0
    }
}

/// The number that the digits `s` spell in base ten, most significant first.
pub open spec fn digits_value(s: Seq<u8>) -> nat
    decreases s.len(),
{
    if s.len() == 0 {
        0
    } else {
        10 * digits_value(s.drop_last()) + digit_value(s.last())
    }
}

/// The shortest way to write `n` in ASCII digits: no leading zero, and `"0"`
/// for zero.
pub open spec fn decimal(n: nat) -> Seq<u8>
    decreases n,
{
    if n < 10 {
        seq![(ZERO + n) as u8]
    } else {
        decimal(n / 10).push((ZERO + n % 10) as u8)
    }
}

/// The length that a header line announces, if the line is well formed.
///
/// A well-formed line is one or more ASCII digits that spell a number no
/// larger than `usize::MAX`. Leading zeros are read as digits. Anything else
/// (an empty line, a sign, a space, a letter, a byte outside ASCII, a number
/// too large) is malformed.
pub open spec fn header_value(s: Seq<u8>) -> Option<nat> {
    if s.len() > 0 && all_digits(s) && digits_value(s) <= usize::MAX {
        Some(digits_value(s))
    } else {
        None
    }
}

/// One more digit at the end multiplies the value by ten and adds the digit.
pub proof fn lemma_value_step(s: Seq<u8>, k: int)
    requires
        0 <= k < s.len(),
    ensures
        digits_value(s.take(k + 1)) == 10 * digits_value(s.take(k)) + digit_value(s[k]),
{
    assert(s.take(k + 1).drop_last() == s.take(k));
}

/// A prefix of a digit string never spells more than the whole string.
pub proof fn lemma_value_prefix(s: Seq<u8>, k: int)
    requires
        0 <= k <= s.len(),
    ensures
        digits_value(s.take(k)) <= digits_value(s),
    decreases s.len() - k,
{
    if k == s.len() {
        assert(s.take(k) == s);
    } else {
        lemma_value_step(s, k);
        lemma_value_prefix(s, k + 1);
    }
}

/// The canonical digits of `n` are digits only, at least one of them, with
/// no leading zero unless `n` is zero, and they spell `n`.
pub proof fn lemma_decimal(n: nat)
    ensures
        decimal(n).len() >= 1,
        all_digits(decimal(n)),
        digits_value(decimal(n)) == n,
        decimal(n)[0] == ZERO <==> n == 0,
        n == 0 ==> decimal(n).len() == 1,
    decreases n,
{
    if n < 10 {
        let s = decimal(n);
        assert(s.drop_last() == Seq::<u8>::empty());
        assert(digits_value(s.drop_last()) == 0);
    } else {
        lemma_decimal(n / 10);
        let s = decimal(n);
        assert(s.drop_last() == decimal(n / 10));
        assert(s[0] == decimal(n / 10)[0]);
    }
}

/// Reading back the canonical digits of a length gives that length.
pub proof fn lemma_header_of_decimal(n: nat)
    requires
        n <= usize::MAX,
    ensures
        header_value(decimal(n)) == Some(n),
{
    lemma_decimal(n);
}

/// Writes `n` in ASCII decimal digits, without leading zeros.
pub fn decimal_digits(n: usize) -> (digits: Vec<u8>)
    ensures
        digits@ == decimal(n as nat),
    decreases n,
{
    if n < 10 {
        let mut digits: Vec<u8> = Vec::new();
        digits.push(ZERO + n as u8);
        assert(digits@ == seq![(ZERO + n) as u8]);
        digits
    } else {
        let mut digits = decimal_digits(n / 10);
        digits.push(ZERO + (n % 10) as u8);
        digits
    }
}

/// Reads a header line as a length.
///
/// Returns the number that the line spells where the line is one or more
/// ASCII digits and the number fits in `usize`, and `None` for every other
/// line.
pub fn parse_decimal(bytes: &[u8]) -> (r: Option<usize>)
    ensures
        match r {
            Some(n) => header_value(bytes@) == Some(n as nat),
            None => header_value(bytes@) is None,
        },
{
    if bytes.len() == 0 {
        return None;
    }
    let mut acc: usize = 0;
    let mut i: usize = 0;
    assert(bytes@.take(0) == Seq::<u8>::empty());
    while i < bytes.len()
        invariant
            i <= bytes.len(),
            all_digits(bytes@.take(i as int)),
            acc == digits_value(bytes@.take(i as int)),
        decreases bytes.len() - i,
    {
        let b: u8 = bytes[i];
        proof {
            lemma_value_step(bytes@, i as int);
            lemma_value_prefix(bytes@, i + 1);
        }
        if b < ZERO || b > NINE {
            assert(!is_digit(bytes@[i as int]));
            return None;
        }
        let digit: usize = (b - ZERO) as usize;
        let tens: usize = match acc.checked_mul(10) {
            Some(t) => t,
            None => {
                return None;
            },
        };
        acc = match tens.checked_add(digit) {
            Some(v) => v,
            None => {
                return None;
            },
        };
        i += 1;
        assert forall|j: int| 0 <= j < i implies is_digit(#[trigger] bytes@.take(i as int)[j]) by {
            if j < i - 1 {
                assert(bytes@.take(i as int)[j] == bytes@.take(i - 1)[j]);
            }
        }
    }
    assert(bytes@.take(i as int) == bytes@);
    Some(acc)
}

} // verus!
