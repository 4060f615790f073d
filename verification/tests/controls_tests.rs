use conway::controls::{format_count, parse_count, InputField};

#[test]
fn parse_accepts_plain_decimals() {
    assert_eq!(parse_count("0"), Some(0));
    assert_eq!(parse_count("42"), Some(42));
    assert_eq!(parse_count("007"), Some(7));
    assert_eq!(parse_count("4294967295"), Some(4294967295));
}

#[test]
fn parse_accepts_one_leading_plus() {
    assert_eq!(parse_count("+7"), Some(7));
    assert_eq!(parse_count("+0"), Some(0));
    assert_eq!(parse_count("++7"), None);
}

#[test]
fn parse_rejects_garbage() {
    assert_eq!(parse_count(""), None);
    assert_eq!(parse_count("+"), None);
    assert_eq!(parse_count("-3"), None);
    assert_eq!(parse_count("4a"), None);
    assert_eq!(parse_count(" 1"), None);
    assert_eq!(parse_count("1 "), None);
    assert_eq!(parse_count("1.5"), None);
}

#[test]
fn parse_rejects_values_out_of_range() {
    assert_eq!(parse_count("99999999999999999999999999"), None);
    // 2^64: too large for usize on any supported target.
    assert_eq!(parse_count("18446744073709551616"), None);
}

#[test]
fn format_is_canonical_decimal() {
    assert_eq!(format_count(0), "0");
    assert_eq!(format_count(7), "7");
    assert_eq!(format_count(10), "10");
    assert_eq!(format_count(105), "105");
    assert_eq!(format_count(4294967295), "4294967295");
}

#[test]
fn format_then_parse_round_trips() {
    for n in [0usize, 1, 9, 10, 99, 100, 12345, 4294967295] {
        assert_eq!(parse_count(&format_count(n)), Some(n));
    }
}

#[test]
fn input_field_adopts_valid_counts_canonically() {
    let mut field = InputField::new(1);
    assert_eq!(field.value, 1);
    assert_eq!(field.text, "1");

    field.update(String::from("12"));
    assert_eq!(field.value, 12);
    assert_eq!(field.text, "12");

    field.update(String::from("007"));
    assert_eq!(field.value, 7);
    assert_eq!(field.text, "7");

    field.update(String::from("+42"));
    assert_eq!(field.value, 42);
    assert_eq!(field.text, "42");
}

#[test]
fn input_field_keeps_garbage_text_and_resets_the_count() {
    let mut field = InputField::new(5);
    field.update(String::from("abc"));
    assert_eq!(field.value, 0);
    assert_eq!(field.text, "abc");

    field.update(String::from(""));
    assert_eq!(field.value, 0);
    assert_eq!(field.text, "");
}
