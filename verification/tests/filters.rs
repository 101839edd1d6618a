use sd::filters::{
    process_filters1, Filter, Leftpad, LinePicker, RemoveNewlines, ReplacerLiteral,
    ReplacerRegex1, ReplacerRegex2,
};

const TEST_STR: &str = r#"skip
    foo
    bar
    baz
    skip
    skip"#;

#[test]
fn linepicker() {
    let out = LinePicker { start: 1, end: 3 }.process(TEST_STR);
    assert_eq!(out, "    foo\n    bar\n    baz\n");
}

#[test]
fn leftpad() {
    let out = Leftpad.process(TEST_STR);
    assert_eq!(out, "skip\nfoo\nbar\nbaz\nskip\nskip");
}

#[test]
fn chain() {
    let out = Leftpad.process(LinePicker { start: 1, end: 3 }.process(TEST_STR).as_str());
    assert_eq!(out, "foo\nbar\nbaz\n");
}

#[test]
fn thing() {
    let filters: Vec<Box<dyn Filter>> = vec![
        Box::new(Leftpad),
        Box::new(LinePicker { start: 1, end: 3 }),
        Box::new(ReplacerLiteral::new("foo", "bar".to_string(), 0).unwrap()),
        Box::new(ReplacerRegex1::new("baz", "bar".to_string(), 0).unwrap()),
        Box::new(RemoveNewlines),
    ];

    let out = process_filters1(TEST_STR.to_string(), filters);
    assert_eq!(out, "barbarbar");
}

#[test]
fn picking_lines_at_the_edges() {
    let text = "a\nb\nc";
    assert_eq!(LinePicker { start: 0, end: 0 }.process(text), "");
    assert_eq!(LinePicker { start: 0, end: 1 }.process(text), "a\n");
    assert_eq!(LinePicker { start: 2, end: 1 }.process(text), "c");
    assert_eq!(LinePicker { start: 2, end: 5 }.process(text), "c");
    assert_eq!(LinePicker { start: 3, end: 5 }.process(text), "");
    assert_eq!(LinePicker { start: 0, end: 9 }.process(text), text);
    assert_eq!(LinePicker { start: 1, end: 2 }.process("\n\n\n"), "\n\n");
    assert_eq!(LinePicker { start: 9, end: 9 }.process(""), "");
}

#[test]
fn trimming_takes_every_white_space() {
    assert_eq!(Leftpad.process(" \t\u{a0}\u{3000}x y \n\u{2003}z"), "x y \nz");
    assert_eq!(Leftpad.process("  \n  \n a"), "a");
    assert_eq!(Leftpad.process("\u{200b}a"), "\u{200b}a");
    assert_eq!(Leftpad.process("a\n\r\nb"), "a\nb");
    assert_eq!(Leftpad.process(""), "");
}

#[test]
fn joining_lines() {
    assert_eq!(RemoveNewlines.process("a\nb\r\nc\rd\r"), "abc\rd\r");
    assert_eq!(RemoveNewlines.process("\r\r\n\n"), "\r");
    assert_eq!(RemoveNewlines.process("a"), "a");
    assert_eq!(RemoveNewlines.process(""), "");
}

#[test]
fn replacing_filters() {
    let literal = ReplacerLiteral::new("a.c", "<$0>".to_string(), 0).unwrap();
    assert_eq!(literal.process("abc a.c a.c"), "abc <a.c> <a.c>");
    let first = ReplacerRegex2::new("a(.)c", "$1".to_string(), 1).unwrap();
    assert_eq!(first.process("abc a.c"), "b a.c");
    let all = ReplacerRegex1::new("a(.)c", "$1".to_string(), 0).unwrap();
    assert_eq!(all.process("abc a.c"), "b .");
    assert!(ReplacerRegex1::new("a(", String::new(), 0).is_none());
    assert!(ReplacerRegex2::new("a(", String::new(), 0).is_none());
    assert!(ReplacerLiteral::new("a(", String::new(), 0).is_some());
}

#[test]
fn no_filter_changes_nothing() {
    assert_eq!(process_filters1("a\n b".to_string(), vec![]), "a\n b");
}
