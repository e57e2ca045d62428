use desktop2fa::app_error::AppError;
use desktop2fa::decimal::{decimal_chars, parse_unsigned, zero_padded_chars};
use desktop2fa::text::{optional_text, trim};

#[test]
fn trims_unicode_whitespace() {
    assert_eq!(trim("  a b \t\n"), "a b");
    assert_eq!(trim("\u{3000}x\u{a0}"), "x");
    assert_eq!(trim("   "), "");
    assert_eq!(trim(""), "");
}

#[test]
fn optional_text_drops_blank_values() {
    assert_eq!(optional_text(Some("  hi ".into())).as_deref(), Some("hi"));
    assert_eq!(optional_text(Some(" \t ".into())), None);
    assert_eq!(optional_text(None), None);
}

#[test]
fn parses_unsigned_numerals() {
    assert_eq!(parse_unsigned("0", 100), Some(0));
    assert_eq!(parse_unsigned("+42", 100), Some(42));
    assert_eq!(parse_unsigned("100", 100), Some(100));
    assert_eq!(parse_unsigned("101", 100), None);
    assert_eq!(parse_unsigned("", 100), None);
    assert_eq!(parse_unsigned("+", 100), None);
    assert_eq!(parse_unsigned("-1", 100), None);
    assert_eq!(parse_unsigned("1x", 100), None);
    assert_eq!(parse_unsigned(" 1", 100), None);
    assert_eq!(parse_unsigned("18446744073709551615", u64::MAX), Some(u64::MAX));
    assert_eq!(parse_unsigned("18446744073709551616", u64::MAX), None);
    assert_eq!(parse_unsigned("4294967296", u32::MAX as u64), None);
}

#[test]
fn writes_numerals() {
    let s = |v: Vec<char>| v.into_iter().collect::<String>();
    assert_eq!(s(decimal_chars(0)), "0");
    assert_eq!(s(decimal_chars(9)), "9");
    assert_eq!(s(decimal_chars(1234567890)), "1234567890");
    assert_eq!(s(decimal_chars(u128::MAX)), u128::MAX.to_string());
    assert_eq!(s(zero_padded_chars(42, 6)), "000042");
    assert_eq!(s(zero_padded_chars(1234567, 6)), "1234567");
    assert_eq!(s(zero_padded_chars(0, 0)), "0");
}

#[test]
fn numerals_round_trip() {
    for n in [0u64, 7, 10, 99, 100, 65535, u32::MAX as u64, u64::MAX] {
        let text: String = decimal_chars(n as u128).into_iter().collect();
        assert_eq!(parse_unsigned(&text, u64::MAX), Some(n));
    }
}

#[test]
fn command_texts_for_errors() {
    assert_eq!(AppError::Validation("Bad input".into()).into_command(), "Bad input");
    assert_eq!(AppError::NotFound("account".into()).into_command(), "Could not find account");
    assert_eq!(AppError::SecureStore("x".into()).into_command(), "Secure storage is unavailable: x");
    assert_eq!(AppError::Persistence("y".into()).into_command(), "Persistence failed: y");
    assert_eq!(AppError::Window("z".into()).into_command(), "Window operation failed: z");
    assert_eq!(AppError::Other("w".into()).into_command(), "Unexpected error: w");
    assert_eq!(
        AppError::Clipboard(arboard::Error::ContentNotAvailable).into_command(),
        format!("Clipboard error: {}", arboard::Error::ContentNotAvailable)
    );
}
