use s3pulse::digits::{
    decimal_text, hex_text, parse_unsigned, repeat_char, signed_text, zero_padded_text,
};
use s3pulse::text::{
    chars_of, contains_control, contains_text, is_blank, is_control, is_white_space, starts_with,
    text_eq, text_less, to_lower_ascii, to_upper_ascii, trim_text,
};
use s3pulse::uri::S3Uri;

const SAMPLES: [&str; 12] = [
    "",
    " ",
    "a",
    "ab",
    "b",
    "\u{e9}",
    "\u{1f600}",
    "\u{ffff}",
    "  padded\u{2003}text \n",
    "\u{a0}",
    "Z",
    "a\u{0}",
];

#[test]
fn characters_are_classified_as_by_the_standard_library() {
    for code in 0..=0x10ffffu32 {
        if let Some(c) = char::from_u32(code) {
            assert_eq!(is_white_space(c), c.is_whitespace(), "{code:x}");
            assert_eq!(is_control(c), c.is_control(), "{code:x}");
            assert_eq!(to_lower_ascii(c), c.to_ascii_lowercase());
            assert_eq!(to_upper_ascii(c), c.to_ascii_uppercase());
        }
    }
}

#[test]
fn texts_are_ordered_and_cut_as_by_the_standard_library() {
    for left in SAMPLES {
        assert_eq!(trim_text(left), left.trim());
        assert_eq!(is_blank(left), left.trim().is_empty());
        assert_eq!(contains_control(left), left.contains(char::is_control));
        for right in SAMPLES {
            assert_eq!(text_less(left, right), left < right);
            assert_eq!(text_eq(left, right), left == right);
            assert_eq!(starts_with(left, right), left.starts_with(right));
            assert_eq!(
                contains_text(&chars_of(left), &chars_of(right)),
                left.contains(right)
            );
        }
    }
}

#[test]
fn the_order_of_texts_is_strict_and_total() {
    for a in SAMPLES {
        assert!(!text_less(a, a));
        for b in SAMPLES {
            assert!(a == b || text_less(a, b) || text_less(b, a));
            for c in SAMPLES {
                assert!(!(text_less(a, b) && text_less(b, c)) || text_less(a, c));
            }
        }
    }
}

#[test]
fn numbers_are_written_as_by_the_standard_library() {
    for value in [0, 7, 10, 99, 100, 4_294_967_295, u64::MAX as u128, u128::MAX] {
        assert_eq!(decimal_text(value), value.to_string());
    }
    for value in [0, 9, 10, 15, 16, 0x1b, u32::MAX] {
        assert_eq!(hex_text(value), format!("{value:x}"));
    }
    for value in [0, -1, 42, i64::MIN, i64::MAX] {
        assert_eq!(signed_text(value), value.to_string());
    }
    assert_eq!(zero_padded_text(7, 2), "07");
    assert_eq!(zero_padded_text(123, 2), "123");
    assert_eq!(repeat_char(' ', 3), "   ");
    assert_eq!(repeat_char('x', 0), "");
}

#[test]
fn numbers_are_read_as_by_the_standard_library() {
    for text in [
        "0",
        "007",
        "+5",
        "+",
        "-1",
        "",
        "12a",
        " 1",
        "18446744073709551615",
        "18446744073709551616",
        "99999999999999999999999",
        "\u{661}",
    ] {
        assert_eq!(parse_unsigned(text), text.parse::<u64>().ok(), "{text}");
    }
}

#[test]
fn uris_are_written_and_read_back() {
    for text in ["s3://bucket", "s3://bucket/a//b/", "s3://bucket/%20 x"] {
        let uri = S3Uri::parse(text).unwrap();
        assert_eq!(uri.to_text(), text);
        assert_eq!(S3Uri::parse(&uri.to_text()).unwrap(), uri);
    }
    // A bare slash names the bucket itself, which is written without one.
    let root = S3Uri::parse("s3://bucket/").unwrap();
    assert_eq!(root.to_text(), "s3://bucket");
}
