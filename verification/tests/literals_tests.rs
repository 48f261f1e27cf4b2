use emit::literals::render_slice_literal;
use emit::literals::{convert_escape_sequences, elide_element_type, emit_raw_string, parse_hex_u32};

#[test]
fn octal_escapes_become_hex() {
    assert_eq!(convert_escape_sequences("a\\101b"), "a\\x41b");
    assert_eq!(convert_escape_sequences("\\0"), "\\x00");
    assert_eq!(convert_escape_sequences("\\777"), "\\x1ff");
    assert_eq!(convert_escape_sequences("\\1234"), "\\x534");
}

#[test]
fn unicode_escapes_use_four_or_eight_digits() {
    assert_eq!(convert_escape_sequences("\\u{1F600}"), "\\U0001F600");
    assert_eq!(convert_escape_sequences("\\u{e9}"), "\\u00E9");
    assert_eq!(convert_escape_sequences("\\u{zz}x"), "\\u0000x");
    assert_eq!(convert_escape_sequences("\\u{41"), "\\u0041");
    assert_eq!(convert_escape_sequences("\\u{+41}"), "\\u0041");
    assert_eq!(convert_escape_sequences("\\u41"), "\\u41");
}

#[test]
fn other_escapes_pass_through_and_raw_breaks_are_escaped() {
    assert_eq!(convert_escape_sequences("\\\\"), "\\\\");
    assert_eq!(convert_escape_sequences("\\n"), "\\n");
    assert_eq!(convert_escape_sequences("a\nb"), "a\\nb");
    assert_eq!(convert_escape_sequences("a\rb"), "a\\rb");
    assert_eq!(convert_escape_sequences("\\q"), "\\q");
    assert_eq!(convert_escape_sequences("\\"), "\\");
    assert_eq!(convert_escape_sequences("plain"), "plain");
}

#[test]
fn hex_parsing_matches_unsigned_radix_parsing() {
    assert_eq!(parse_hex_u32("ff"), Some(255));
    assert_eq!(parse_hex_u32("+A"), Some(10));
    assert_eq!(parse_hex_u32("FFFFFFFF"), Some(u32::MAX));
    assert_eq!(parse_hex_u32("100000000"), None);
    assert_eq!(parse_hex_u32(""), None);
    assert_eq!(parse_hex_u32("+"), None);
    assert_eq!(parse_hex_u32("-1"), None);
    assert_eq!(parse_hex_u32("g"), None);
    for text in ["0", "1f", "+7", "deadBEEF", "-3", "x", ""] {
        assert_eq!(parse_hex_u32(text), u32::from_str_radix(text, 16).ok());
    }
}

#[test]
fn raw_strings_use_backticks_when_they_can() {
    assert_eq!(emit_raw_string("abc"), "`abc`");
    assert_eq!(emit_raw_string("a\nb"), "`a\nb`");
    assert_eq!(emit_raw_string("a`b"), "\"a`b\"");
    assert_eq!(emit_raw_string("a\"\\\r\n`"), "\"a\\\"\\\\\\r\\n`\"");
}

#[test]
fn element_types_are_elided_before_braces() {
    assert_eq!(elide_element_type("Point", "Point{X: 1}".to_string()), "{X: 1}");
    assert_eq!(elide_element_type("Point", "PointX{}".to_string()), "PointX{}");
    assert_eq!(elide_element_type("Point", "Point".to_string()), "Point");
    assert_eq!(elide_element_type("[]int", "[]int{1}".to_string()), "{1}");
}

#[test]
fn slice_literals_break_lines_when_wide() {
    assert_eq!(render_slice_literal("[]", "int", &Vec::new()), "[]int{}");
    assert_eq!(
        render_slice_literal("[]", "int", &vec!["1".to_string(), "2".to_string()]),
        "[]int{ 1, 2 }"
    );
    let wide = "x".repeat(31);
    assert_eq!(
        render_slice_literal("[2]", "string", &vec![wide.clone(), "b".to_string()]),
        format!("[2]string{{\n\t{},\n\tb,\n}}", wide)
    );
    assert_eq!(
        render_slice_literal("[]", "string", &vec![wide.clone()]),
        format!("[]string{{ {} }}", wide)
    );
}
