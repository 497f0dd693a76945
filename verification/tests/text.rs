use dstp_relay::text::{
    chars_of, joined, text_of, to_decimal, to_lower, to_signed_decimal, trim, trim_end,
};

#[test]
fn numbers_are_written_in_decimal() {
    assert_eq!(to_decimal(0), "0");
    assert_eq!(to_decimal(10), "10");
    assert_eq!(to_decimal(47834), "47834");
    assert_eq!(to_decimal(u64::MAX), u64::MAX.to_string());
}

#[test]
fn signed_numbers_are_written_in_decimal() {
    assert_eq!(to_signed_decimal(0), "0");
    assert_eq!(to_signed_decimal(-7), "-7");
    assert_eq!(to_signed_decimal(i64::MAX), i64::MAX.to_string());
    assert_eq!(to_signed_decimal(i64::MIN), i64::MIN.to_string());
}

#[test]
fn only_ascii_letters_are_lowered() {
    assert_eq!(to_lower("Content-LENGTH-\u{c4}"), "content-length-\u{c4}");
    assert_eq!(to_lower("@[`{"), "@[`{");
}

#[test]
fn runs_are_trimmed() {
    assert_eq!(trim_end("https://a.example///", '/'), "https://a.example");
    assert_eq!(trim_end("//", '/'), "");
    assert_eq!(trim_end("/a", '/'), "/a");
    assert_eq!(trim("\"\"a\"b\"", '"'), "a\"b");
    assert_eq!(trim("\"\"", '"'), "");
    assert_eq!(trim("", '"'), "");
}

#[test]
fn characters_and_pieces() {
    let chars = chars_of("a\u{e9}\u{1f600}b");
    assert_eq!(chars, vec!['a', '\u{e9}', '\u{1f600}', 'b']);
    assert_eq!(text_of(&chars, 1, 3), "\u{e9}\u{1f600}");
    assert_eq!(joined("ab", "cd"), "abcd");
}
