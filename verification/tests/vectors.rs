use multisig_processor::vectors::{parse_string_vectors, white_space};

#[test]
fn bytes_that_are_text_become_text() {
    assert_eq!(parse_string_vectors("[72, 105]"), "Hi");
    assert_eq!(parse_string_vectors("72,105"), "Hi");
    assert_eq!(parse_string_vectors("  [ 72 ,105 ]  "), "Hi");
    assert_eq!(parse_string_vectors("[+72,105]"), "Hi");
}

#[test]
fn nested_brackets_are_taken_off() {
    assert_eq!(parse_string_vectors("[[72, 105]]"), "Hi");
    assert_eq!(parse_string_vectors("[ [ [ 104, 101, 108, 108, 111 ] ] ]"), "hello");
}

#[test]
fn bytes_that_are_not_text_stay_as_written() {
    assert_eq!(parse_string_vectors("[255]"), "255");
    assert_eq!(parse_string_vectors("[195, 40]"), "195, 40");
}

#[test]
fn anything_else_stays_as_written() {
    assert_eq!(parse_string_vectors("hello"), "hello");
    assert_eq!(parse_string_vectors("  hello "), "hello");
    assert_eq!(parse_string_vectors("[256]"), "256");
    assert_eq!(parse_string_vectors("[1, x]"), "1, x");
    assert_eq!(parse_string_vectors("[-1]"), "-1");
    assert_eq!(parse_string_vectors("[1,,2]"), "1,,2");
    assert_eq!(parse_string_vectors(""), "");
    assert_eq!(parse_string_vectors("[]"), "");
}

#[test]
fn unpaired_brackets_are_left() {
    assert_eq!(parse_string_vectors("[72"), "[72");
    assert_eq!(parse_string_vectors("72]"), "72]");
    assert_eq!(parse_string_vectors("]72["), "]72[");
}

#[test]
fn text_around_the_brackets_is_dropped() {
    assert_eq!(parse_string_vectors("vec[72, 105]tail"), "Hi");
}

#[test]
fn white_space_is_unicode_white_space() {
    for c in ['\t', '\n', '\u{b}', '\u{c}', '\r', ' ', '\u{85}', '\u{a0}', '\u{1680}', '\u{2000}',
        '\u{200a}', '\u{2028}', '\u{2029}', '\u{202f}', '\u{205f}', '\u{3000}']
    {
        assert!(white_space(c));
        assert!(c.is_whitespace());
    }
    for c in ['a', '0', '\u{8}', '\u{e}', '\u{200b}', '\u{feff}', '\u{180e}'] {
        assert!(!white_space(c));
        assert!(!c.is_whitespace());
    }
    let mut c = '\u{0}';
    while c < '\u{4000}' {
        assert_eq!(white_space(c), c.is_whitespace());
        c = char::from_u32(c as u32 + 1).unwrap();
    }
}

fn listing(bytes: &[u8]) -> String {
    let printed = format!("{:?}", bytes);
    printed[1..printed.len() - 1].to_string()
}

#[test]
fn printed_byte_vectors_are_read_back() {
    for text in ["Hi", "hello, world", "☃ snow", "a", "0", " ", "[x]", "12, 13"] {
        let printed = format!("{:?}", text.as_bytes());
        assert_eq!(parse_string_vectors(&printed), text);
    }
    for byte in 0..=255u8 {
        let bytes = vec![byte];
        let printed = format!("{:?}", bytes);
        let expected = match std::str::from_utf8(&bytes) {
            Ok(text) => text.to_string(),
            Err(_) => listing(&bytes),
        };
        assert_eq!(parse_string_vectors(&printed), expected);
    }
    for bytes in [vec![0xff, 0x00, 0x41], vec![0xc3, 0x28], vec![200, 100, 9, 10, 99, 255]] {
        let printed = format!("{:?}", bytes);
        let left = parse_string_vectors(&printed);
        assert_eq!(left, listing(&bytes));
        let back: Vec<u8> = left.split(", ").map(|n| n.parse().unwrap()).collect();
        assert_eq!(back, bytes);
    }
    let none: Vec<u8> = vec![];
    assert_eq!(parse_string_vectors(&format!("{:?}", none)), "");
}
