use email_classifier::numbers::{decimal_string, parse_u32, NumberError};

#[test]
fn decimals_are_written_without_leading_zeros() {
    for n in [0u64, 1, 9, 10, 99, 100, 1451, u32::MAX as u64, u64::MAX] {
        assert_eq!(decimal_string(n), n.to_string());
        assert_eq!(parse_u32(&decimal_string(n)).ok(), u32::try_from(n).ok());
    }
}

#[test]
fn numbers_are_read_as_the_standard_library_does() {
    let texts = [
        "", "+", "-", "0", "+0", "-0", "007", "42", "+42", "4294967295", "4294967296",
        "99999999999999999999", "1x", "x1", " 1", "1 ", "1.5", "++1", "99999999999x",
        "4294967296x", "\u{661}", "1_000",
    ];
    for text in texts {
        match (parse_u32(text), text.parse::<u32>()) {
            (Ok(a), Ok(b)) => assert_eq!(a, b, "{text:?}"),
            (Err(a), Err(b)) => assert_eq!(a.message(), b.to_string(), "{text:?}"),
            (a, b) => panic!("{text:?}: {a:?} and {b:?}"),
        }
    }
    assert_eq!(parse_u32(""), Err(NumberError::Empty));
    assert_eq!(parse_u32("+"), Err(NumberError::InvalidDigit));
    assert_eq!(parse_u32("4294967296"), Err(NumberError::TooLarge));
}
