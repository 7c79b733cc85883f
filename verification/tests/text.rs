//! Texts: their order, and decimal numbers.
use iceberg_deletes::error::{Error, ErrorKind};
use iceberg_deletes::text::{
    compare_text, parse_i32, same_text, signed_text, unsigned_text, TextOrder,
};

#[test]
fn texts_are_ordered_by_scalar_values() {
    let sorted = ["", "a", "a\u{0}", "ab", "b", "\u{7f}", "\u{80}", "\u{7ff}", "\u{800}", "\u{d7ff}",
        "\u{e000}", "\u{ffff}", "\u{10000}", "\u{10ffff}"];
    for (i, a) in sorted.iter().enumerate() {
        for (j, b) in sorted.iter().enumerate() {
            let expected = if i < j {
                TextOrder::Before
            } else if i == j {
                TextOrder::Same
            } else {
                TextOrder::After
            };
            assert_eq!(compare_text(a, b), expected, "{a:?} {b:?}");
            assert_eq!(same_text(a, b), i == j);
        }
    }
}

#[test]
fn numbers_are_written_as_decimals() {
    for n in [0, 9, 10, 1234567890, u64::MAX] {
        assert_eq!(unsigned_text(n), format!("{n}"));
    }
    for n in [0, -1, 10, i64::MAX, i64::MIN] {
        assert_eq!(signed_text(n), format!("{n}"));
    }
}

#[test]
fn numbers_are_parsed_as_the_standard_library_does() {
    for text in ["", "+", "-", "0", "-0", "+7", "007", "2147483647", "2147483648", "-2147483648",
        "-2147483649", "1 ", " 1", "1_0", "0x1", "--1", "+-1", "99999999999999999999", "\u{661}"]
    {
        assert_eq!(parse_i32(text), text.parse::<i32>().ok(), "{text:?}");
    }
}

#[test]
fn written_numbers_parse_back() {
    for n in [0, 7, -7, 2147483545, 2147483546, i32::MAX, i32::MIN] {
        assert_eq!(parse_i32(&signed_text(n as i64)), Some(n));
    }
}

#[test]
fn errors_keep_their_kind_and_message() {
    let error = Error::new(ErrorKind::FeatureUnsupported, "m".to_string());
    assert_eq!(error.kind(), ErrorKind::FeatureUnsupported);
    assert_eq!(error.message(), "m");
}
