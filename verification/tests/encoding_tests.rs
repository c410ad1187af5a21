use held::encoding::Utf8Encoding;

#[test]
fn width_of_ascii_is_one_per_char() {
    assert_eq!(Utf8Encoding::width("abc"), 3);
}

#[test]
fn width_of_empty_is_zero() {
    assert_eq!(Utf8Encoding::width(""), 0);
}

#[test]
fn two_byte_char_takes_one_column() {
    assert_eq!(Utf8Encoding::width("\u{e9}"), 1);
    assert_eq!(Utf8Encoding::width("\u{7ff}"), 1);
}

#[test]
fn wide_chars_take_two_columns() {
    assert_eq!(Utf8Encoding::width("\u{4e2d}"), 2);
    assert_eq!(Utf8Encoding::width("\u{ac00}"), 2);
    assert_eq!(Utf8Encoding::width("\u{ff21}"), 2);
    assert_eq!(Utf8Encoding::width("\u{1f600}"), 2);
    assert_eq!(Utf8Encoding::width("\u{20000}"), 2);
}

#[test]
fn narrow_chars_of_three_or_four_bytes_take_one_column() {
    assert_eq!(Utf8Encoding::width("\u{800}"), 1);
    assert_eq!(Utf8Encoding::width("\u{ff71}"), 1);
    assert_eq!(Utf8Encoding::width("\u{303f}"), 1);
    assert_eq!(Utf8Encoding::width("\u{10348}"), 1);
}

#[test]
fn width_adds_up_over_concatenation() {
    let a = "ab\u{4e2d}";
    let b = "\u{ff71}\u{1f600}";
    assert_eq!(Utf8Encoding::width(&format!("{}{}", a, b)), Utf8Encoding::width(a) + Utf8Encoding::width(b));
}

#[test]
fn width_sums_over_mixed_text() {
    assert_eq!(Utf8Encoding::width("a\u{e9}\u{4e2d}\u{1f600}"), 6);
}

#[test]
fn emoji_and_wide_symbols_take_two_columns() {
    assert_eq!(Utf8Encoding::width("\u{1f680}"), 2);
    assert_eq!(Utf8Encoding::width("\u{1fa70}"), 2);
    assert_eq!(Utf8Encoding::width("\u{231a}"), 2);
    assert_eq!(Utf8Encoding::width("\u{3000}"), 2);
}

#[test]
fn narrow_symbols_take_one_column() {
    assert_eq!(Utf8Encoding::width("\u{2500}"), 1);
    assert_eq!(Utf8Encoding::width("\u{2192}"), 1);
    assert_eq!(Utf8Encoding::width("\u{ff61}"), 1);
    assert_eq!(Utf8Encoding::width("\u{1f6c6}"), 1);
}
