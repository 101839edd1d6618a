use sd::unescape::{escape_n_chars, unescape};

#[test]
fn test_unescape() {
    let test = |s: &str, name: &str, expected: &str| {
        assert_eq!(unescape(s), expected, "{name}: `{s}`");
    };

    test("", "empty", "");
    test("\\", "single backslash", "\\");
    test("\\\\", "two backslashes", "\\");
    test("\\n", "newline", "\n");
    test("\\t", "tab", "\t");
    test("\\r", "carriage return", "\r");
    test("\\\"", "escaped double quote", "\"");
    test("\\'", "escaped single quote", "'");
    test("\\\\", "escaped backslash", "\\");
    test("\\u0042", "unicode escape", "B");
    test("\\x41", "hex escape", "A");
    test("\\xG", "invalid hex escape", "\\xG");
    test("\\u00Z1", "invalid unicode escape", "\\u00Z1");
    test("a\\t\\xG\\n", "mixed valid and invalid escapes", "a\t\\xG\n");
    test("ab", "non-escape characters", "ab");
    test("\\u004", "incomplete escape sequence", "\\u004");
    test("a", "single characters", "a");
    test("\\t{", "issue #313", "\t{");
    test("\\t\\{", "issue #313", "\t\\{");
}

#[test]
fn round_trip_of_a_newline_and_of_a_backslash() {
    assert_eq!(unescape("\\n").as_bytes(), [b'\n']);
    assert_eq!(unescape("\\\\n").as_bytes(), [b'\\', b'n']);
}

#[test]
fn a_numeric_escape_takes_its_own_places_only() {
    assert_eq!(unescape("\\x41B"), "AB");
    assert_eq!(unescape("\\u0042C"), "BC");
    assert_eq!(unescape("\\x41BC"), "ABC");
    assert_eq!(unescape("\\u00e9!?"), "é!?");
    assert_eq!(unescape("\\x41\\n"), "A\n");
    assert_eq!(unescape("\\x41\\x42"), "AB");
    assert_eq!(unescape("\\x41"), "A");
}

#[test]
fn numeric_escapes_that_are_none() {
    assert_eq!(unescape("\\ud800"), "\\ud800");
    assert_eq!(unescape("\\uDFFF"), "\\uDFFF");
    assert_eq!(unescape("\\x4"), "\\x4");
    assert_eq!(unescape("\\x"), "\\x");
    assert_eq!(unescape("\\xé"), "\\xé");
    assert_eq!(unescape("\\x-1"), "\\x-1");
    assert_eq!(unescape("\\x++"), "\\x++");
    assert_eq!(unescape("\\q\\"), "\\q\\");
}

#[test]
fn a_plus_sign_may_start_the_number() {
    assert_eq!(unescape("\\x+a"), "\n");
    assert_eq!(unescape("\\u+0419"), "A9");
    assert_eq!(unescape("\\uffff"), "\u{ffff}");
    assert_eq!(unescape("\\xFf"), "\u{ff}");
}

#[test]
fn reading_a_number() {
    let rest: Vec<char> = "20ac".chars().collect();
    assert_eq!(escape_n_chars(&rest, 4), Some('€'));
    assert_eq!(escape_n_chars(&rest, 2), Some(' '));
    assert_eq!(escape_n_chars(&rest[..3], 4), None);
    assert_eq!(escape_n_chars(&rest, 0), None);
    let rest: Vec<char> = "+".chars().collect();
    assert_eq!(escape_n_chars(&rest, 1), None);
}
