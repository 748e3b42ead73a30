use rfw::text::{
    first_line_words, parse_number, push_decimal, push_left_aligned, push_right_aligned,
    split_text, to_chars, NumberError,
};

fn decimal(n: u64) -> String {
    let mut out = String::from("n=");
    push_decimal(&mut out, n);
    out
}

#[test]
fn numbers_are_written_in_decimal_and_read_back() {
    for n in [0, 7, 10, 99, 100, 65535, 1_000_000_007, u64::MAX] {
        assert_eq!(decimal(n), format!("n={n}"));
        assert_eq!(parse_number(&n.to_string(), u64::MAX), Ok(n));
    }
}

#[test]
fn numbers_are_read_as_std_reads_them() {
    for text in [
        "0", "00", "+0", "+65535", "65535", "65536", "065535", "", "+", "-", "-0", "++1", "1+",
        "1 ", " 1", "1_000", "0x10", "٣", "70000x", "7000x", "99999999999999999999999",
    ] {
        let ours = parse_number(text, 65535).map(|n| n as u16);
        assert_eq!(
            ours.map_err(|e| e.description().to_string()),
            text.parse::<u16>().map_err(|e| e.to_string()),
            "{text:?}"
        );
    }
    assert_eq!(parse_number("", 9), Err(NumberError::Empty));
    assert_eq!(parse_number("a", 9), Err(NumberError::InvalidDigit));
    assert_eq!(parse_number("10", 9), Err(NumberError::TooLarge));
    assert_eq!(parse_number("18446744073709551616", u64::MAX), Err(NumberError::TooLarge));
}

#[test]
fn splitting_and_joining_give_the_text_back() {
    for text in ["", ":", "a", "a:b", ":a::b:", "ä:→:x"] {
        let parts = split_text(text, ':');
        assert_eq!(parts, text.split(':').collect::<Vec<_>>());
        assert_eq!(parts.join(":"), text);
    }
}

#[test]
fn words_of_the_first_line() {
    assert_eq!(first_line_words("  a bc\td \n e"), ["a", "bc", "d"]);
    assert!(first_line_words("\nx").is_empty());
    assert!(first_line_words("").is_empty());
}

#[test]
fn texts_are_padded_to_a_width() {
    for text in ["", "abc", "äöü", "longer than that"] {
        let mut left = String::from("|");
        push_left_aligned(&mut left, text, 6);
        assert_eq!(left, format!("|{text:<6}"));
        let mut right = String::from("|");
        push_right_aligned(&mut right, text, 6);
        assert_eq!(right, format!("|{text:>6}"));
    }
}

#[test]
fn characters_of_a_text() {
    assert_eq!(to_chars("aä→"), vec!['a', 'ä', '→']);
}
