use sd::replacer::validate::{
    captures, find_cap_ref, find_cap_ref_braced, is_valid_cap_letter, validate_replace, ReplaceCaptureIter,
    Span,
};
use sd::Error;

#[test]
fn literal_dollar_sign() {
    let replace = "$$0";
    let mut cap_iter = ReplaceCaptureIter::new(replace);
    assert!(cap_iter.next().is_none());
}

#[test]
fn wacky_captures() {
    let replace = "$foo $1 $1invalid ${1}valid ${valid} $__${__weird__}${${__}";

    let mut cap_iter = ReplaceCaptureIter::new(replace);
    let expecteds = &[
        "foo",
        "1",
        "1invalid",
        "{1}",
        "{valid}",
        "__",
        "{__weird__}",
        "{${__}",
    ];
    for &expected in expecteds.iter() {
        let cap = cap_iter.next().unwrap();
        assert_eq!(expected, cap.name, "name didn't match");
        assert_eq!(expected, cap.span.slice(replace), "span didn't match");
    }
    assert!(cap_iter.next().is_none());
    assert!(cap_iter.next().is_none());
}

fn plain_stderr(replace: &str) -> String {
    let err = validate_replace(replace).unwrap_err();
    format!("error: {}\n", Error::InvalidReplaceCapture(err).message())
}

#[test]
fn ambiguous_replace_basic() {
    assert_eq!(
        plain_stderr("before $1bad after"),
        "error: The numbered capture group `$1` in the replacement text is ambiguous.\n\
         hint: Use curly braces to disambiguate it `${1}bad`.\n\
         before $1bad after\n        ^^^^\n"
    );
}

#[test]
fn ambiguous_replace_variable_width() {
    assert_eq!(
        plain_stderr("\r\n\t$1bad\r"),
        "error: The numbered capture group `$1` in the replacement text is ambiguous.\n\
         hint: Use curly braces to disambiguate it `${1}bad`.\n\
         ␍␊␉$1bad␍\n    ^^^^\n"
    );
}

#[test]
fn ambiguous_replace_multibyte_char() {
    assert_eq!(
        plain_stderr("😈$1bad😇"),
        "error: The numbered capture group `$1` in the replacement text is ambiguous.\n\
         hint: Use curly braces to disambiguate it `${1}bad`.\n\
         😈$1bad😇\n  ^^^^\n"
    );
}

#[test]
fn ambiguous_replace_issue_44() {
    assert_eq!(
        plain_stderr("$1Call $2($5, GetFM20ReturnKey(), $6)"),
        "error: The numbered capture group `$1` in the replacement text is ambiguous.\n\
         hint: Use curly braces to disambiguate it `${1}Call`.\n\
         $1Call $2($5, GetFM20ReturnKey(), $6)\n ^^^^^\n"
    );
}

#[test]
fn the_report_holds_the_template_the_span_and_the_digits() {
    let err = validate_replace("é $x $12ab_3 $1z").unwrap_err();
    assert_eq!(err.original_replace(), "é $x $12ab_3 $1z");
    assert_eq!(err.invalid_ident(), Span { start: 6, end: 13 });
    assert_eq!(err.invalid_ident().slice(err.original_replace()), "$12ab_3");
    assert_eq!(err.num_leading_digits(), 2);
    assert_eq!(
        err.message(),
        "The numbered capture group `$12` in the replacement text is ambiguous.\n\
         hint: Use curly braces to disambiguate it `${12}ab_3`.\n\
         é $x $12ab_3 $1z\n      ^^^^^^"
    );
}

#[test]
fn what_is_valid() {
    for ok in [
        "",
        "$",
        "$$",
        "$$0",
        "$$1a",
        "before ${1}bad after",
        "$1",
        "$12 $3.",
        "$1-a",
        "$1 a",
        "$a1",
        "$_1a",
        "${1a}",
        "${1a",
        "$1é",
        "$1$2",
        "a$",
        "${",
        "$}",
    ] {
        assert!(validate_replace(ok).is_ok(), "{:?}", ok);
    }
}

#[test]
fn what_is_ambiguous() {
    for (bad, start, end, digits) in [
        ("before $1bad after", 7, 12, 1),
        ("$1a", 0, 3, 1),
        ("$0_", 0, 3, 1),
        ("$$$1a", 2, 5, 1),
        ("${1a$1a", 4, 7, 1),
        ("$a $007x9", 3, 9, 3),
        ("${x}$2b$3c", 4, 7, 1),
        ("$1A", 0, 3, 1),
    ] {
        let err = validate_replace(bad).unwrap_err();
        assert_eq!(err.invalid_ident(), Span { start, end }, "{:?}", bad);
        assert_eq!(err.num_leading_digits(), digits, "{:?}", bad);
        assert_eq!(err.original_replace(), bad);
    }
}

#[test]
fn capture_letters() {
    for c in ['0', '9', 'a', 'z', 'A', 'Z', '_'] {
        assert!(is_valid_cap_letter(c));
    }
    for c in ['/', ':', '`', '{', '@', '[', '-', ' ', 'é', '$'] {
        assert!(!is_valid_cap_letter(c));
    }
}

#[test]
fn reading_one_reference() {
    let rest: Vec<char> = "ab_1-x".chars().collect();
    let cap = find_cap_ref(&rest, Span::start_at(7)).unwrap();
    assert_eq!(cap.name, "ab_1");
    assert_eq!(cap.span, Span { start: 7, end: 11 });
    let rest: Vec<char> = "-x".chars().collect();
    assert!(find_cap_ref(&rest, Span::start_at(7)).is_none());
    assert!(find_cap_ref(&[], Span::start_at(0)).is_none());

    let rest: Vec<char> = "{a é}}x".chars().collect();
    let cap = find_cap_ref_braced(&rest, Span::start_at(2)).unwrap();
    assert_eq!(cap.name, "{a é}");
    assert_eq!(cap.span, Span { start: 2, end: 8 });
    let rest: Vec<char> = "{a é".chars().collect();
    assert!(find_cap_ref_braced(&rest, Span::start_at(2)).is_none());
}

#[test]
fn spans() {
    let open = Span::start_at(3);
    assert_eq!(open.end_at(5), Span::new(3, 5));
    assert_eq!(open.end_offset(4), Span { start: 3, end: 7 });
    assert_eq!(Span::new(3, 7).len(), 4);
    assert_eq!(Span::new(2, 6).slice("é$1bad"), "$1ba");
}

#[test]
fn all_references_of_a_template() {
    let template = "é$a ${b é} $$c $1x$";
    let found = captures(template);
    let names: Vec<&str> = found.iter().map(|cap| cap.name.as_str()).collect();
    assert_eq!(names, ["a", "{b é}", "1x"]);
    let spans: Vec<(usize, usize)> = found.iter().map(|cap| (cap.span.start, cap.span.end)).collect();
    assert_eq!(spans, [(3, 4), (6, 12), (18, 20)]);
    for cap in &found {
        assert_eq!(cap.span.slice(template), cap.name);
    }
    assert!(captures("no reference: $$ $ ${").is_empty());
    assert!(captures("").is_empty());
}

#[test]
fn the_span_covers_the_whole_reference() {
    let template = "before $1bad after";
    let err = validate_replace(template).unwrap_err();
    assert_eq!(err.original_replace(), template);
    assert_eq!(err.invalid_ident(), Span { start: 7, end: 12 });
    assert_eq!(err.invalid_ident().slice(template), "$1bad");
    assert_eq!(err.num_leading_digits(), 1);
    assert!(validate_replace("before ${1}bad after").is_ok());
    assert!(validate_replace("$$0").is_ok());
}
