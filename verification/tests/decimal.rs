use tape_io::decimal::{decimal_digits, parse_decimal};

#[test]
fn decimal_digits_has_no_leading_zeros() {
    assert_eq!(decimal_digits(0), b"0".to_vec());
    assert_eq!(decimal_digits(7), b"7".to_vec());
    assert_eq!(decimal_digits(10), b"10".to_vec());
    assert_eq!(decimal_digits(4096), b"4096".to_vec());
    assert_eq!(decimal_digits(1_000_000), b"1000000".to_vec());
}

#[test]
fn decimal_digits_agrees_with_the_standard_rendering() {
    for n in [0usize, 1, 9, 10, 11, 99, 100, 101, 12345, 65535, 65536, usize::MAX - 1, usize::MAX] {
        assert_eq!(decimal_digits(n), n.to_string().into_bytes());
    }
}

#[test]
fn parse_decimal_reads_plain_digits() {
    assert_eq!(parse_decimal(b"0"), Some(0));
    assert_eq!(parse_decimal(b"4"), Some(4));
    assert_eq!(parse_decimal(b"12"), Some(12));
    assert_eq!(parse_decimal(b"18446"), Some(18446));
}

#[test]
fn parse_decimal_reads_leading_zeros_as_digits() {
    assert_eq!(parse_decimal(b"007"), Some(7));
    assert_eq!(parse_decimal(b"000"), Some(0));
    assert_eq!(parse_decimal(b"0000000000000000000000000000000000012"), Some(12));
}

#[test]
fn parse_decimal_rejects_a_sign() {
    assert_eq!(parse_decimal(b"+5"), None);
    assert_eq!(parse_decimal(b"+000"), None);
    assert_eq!(parse_decimal(b"+"), None);
    assert_eq!(parse_decimal(b"-5"), None);
    assert_eq!(parse_decimal(b"5+"), None);
}

#[test]
fn parse_decimal_rejects_what_is_no_number() {
    for bad in [
        &b""[..],
        b"+",
        b"-1",
        b"-0",
        b"++1",
        b"1+",
        b"12x",
        b"x12",
        b" 12",
        b"12 ",
        b"1 2",
        b"1_000",
        b"0x10",
        b"1.5",
        b"12\r",
        b"\xff",
        b"1\xc3\xa9",
        b"\xd9\xa3",
    ] {
        assert_eq!(parse_decimal(bad), None);
    }
}

#[test]
fn parse_decimal_stops_at_the_largest_length() {
    let max = usize::MAX.to_string();
    assert_eq!(parse_decimal(max.as_bytes()), Some(usize::MAX));
    let mut over = max.clone().into_bytes();
    let last = over.len() - 1;
    over[last] += 1;
    assert_eq!(parse_decimal(&over), None);
    let mut longer = max.into_bytes();
    longer.push(b'0');
    assert_eq!(parse_decimal(&longer), None);
    assert_eq!(parse_decimal(b"99999999999999999999999999999999999999999"), None);
}

#[test]
fn parse_decimal_agrees_with_the_standard_parser_on_unsigned_text() {
    for text in ["0", "1", "-1", "", "+", "00", "9999", "12a", " 1", "18446744073709551615", "18446744073709551616", "340282366920938463463374607431768211456"] {
        assert_eq!(parse_decimal(text.as_bytes()), text.parse::<usize>().ok());
    }
}

#[test]
fn parse_decimal_reads_back_decimal_digits() {
    for n in [0usize, 1, 9, 10, 42, 255, 256, 1 << 20, usize::MAX] {
        assert_eq!(parse_decimal(&decimal_digits(n)), Some(n));
    }
}
