use game_lobby::decimal::{parse_decimal, usize_to_decimal};

#[test]
fn writes_decimal() {
    assert_eq!(usize_to_decimal(0), "0");
    assert_eq!(usize_to_decimal(7), "7");
    assert_eq!(usize_to_decimal(1234567890), "1234567890");
    assert_eq!(usize_to_decimal(usize::MAX), usize::MAX.to_string());
}

#[test]
fn reads_decimal_like_parse() {
    for text in ["0", "42", "+42", "007", "", "+", "-1", "12a", " 1", "18446744073709551615", "18446744073709551616"] {
        assert_eq!(parse_decimal(text), text.parse::<usize>().ok(), "text {:?}", text);
    }
}

#[test]
fn round_trip() {
    for n in [0usize, 1, 9, 10, 99, 100, 65535, usize::MAX] {
        assert_eq!(parse_decimal(&usize_to_decimal(n)), Some(n));
    }
}
