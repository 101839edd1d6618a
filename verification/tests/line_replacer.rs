use sd::filters::{
    process_filters2, FailableFilter, Filter, FilterWrapper, Leftpad, RemoveNewlines,
    ReplacerLiteral, ReplacerRegex1, ReplacerRegex2, ReplacerRegex3,
};
use sd::replacer::line_replacer::{replace_line, split_lines, Opt, Pair};

#[test]
fn lines_without_their_ends() {
    assert_eq!(split_lines(""), Vec::<String>::new());
    assert_eq!(split_lines("a"), ["a"]);
    assert_eq!(split_lines("a\n"), ["a"]);
    assert_eq!(split_lines("a\n\nb\r\nc\r"), ["a", "", "b", "c\r"]);
    assert_eq!(split_lines("\n"), [""]);
    assert_eq!(split_lines("\r\n\r\r\n"), ["", "\r"]);
    assert_eq!(split_lines("a\rb\n"), ["a\rb"]);
}

#[test]
fn a_line_that_matches_gives_way() {
    let pairs = vec![
        Pair::new("^a", "x".to_owned()).unwrap(),
        Pair::new("b$", "y".to_owned()).unwrap(),
        Pair::new("^y$", "z".to_owned()).unwrap(),
    ];
    let text = "ab\nba\nbb\nc\nz a";
    assert_eq!(replace_line(&pairs, vec![], text), ["ab", "ba", "bb", "c", "z a"]);
    assert_eq!(
        replace_line(&pairs, vec![Opt::ReplaceLineIfMatch], text),
        ["x", "ba", "z", "c", "z a"]
    );
    let swap = vec![
        Pair::new("^1$", "2".to_owned()).unwrap(),
        Pair::new("^3$", "1".to_owned()).unwrap(),
    ];
    assert_eq!(replace_line(&swap, vec![Opt::ReplaceLineIfMatch], "1\n3"), ["2", "1"]);
    assert_eq!(
        replace_line(&swap, vec![Opt::ReplaceLineIfMatch, Opt::ReplaceLineIfMatch], "1\n3"),
        ["2", "2"]
    );
    assert!(Pair::new("(", String::new()).is_none());
}

fn regex3(pattern: &str, replace_with: &str, max: usize) -> ReplacerRegex3 {
    ReplacerRegex3 { pattern: pattern.to_owned(), replace_with: replace_with.to_owned(), max }
}

#[test]
fn filters_that_may_refuse() {
    assert_eq!(regex3("a+", "<$0>", 1).process("baab aa"), Ok("b<aa>b aa".to_owned()));
    assert_eq!(regex3("a(", "", 0).process("x"), Err("invalid regex a(".to_owned()));
    let filters = vec![
        FilterWrapper::Unfailable(Box::new(Leftpad)),
        FilterWrapper::Failable(Box::new(regex3("o", "0", 0))),
        FilterWrapper::Unfailable(Box::new(RemoveNewlines)),
    ];
    assert_eq!(process_filters2("  foo\n boo".to_owned(), filters), Ok("f00b00".to_owned()));
    let filters = vec![
        FilterWrapper::Failable(Box::new(regex3("o", "0", 0))),
        FilterWrapper::Failable(Box::new(regex3("[", "0", 0))),
        FilterWrapper::Failable(Box::new(regex3("(", "0", 0))),
    ];
    assert_eq!(process_filters2("foo".to_owned(), filters), Err("invalid regex [".to_owned()));
    assert_eq!(process_filters2("foo".to_owned(), vec![]), Ok("foo".to_owned()));
    let filters = vec![
        FilterWrapper::Unfailable(Box::new(RemoveNewlines)),
        FilterWrapper::Unfailable(Box::new(Leftpad)),
    ];
    assert_eq!(process_filters2(" a\n b".to_owned(), filters), Ok("a b".to_owned()));
    let filters = vec![
        FilterWrapper::Unfailable(Box::new(Leftpad)),
        FilterWrapper::Failable(Box::new(regex3("a(", "", 0))),
        FilterWrapper::Failable(Box::new(regex3("b(", "", 0))),
    ];
    assert_eq!(process_filters2(" a".to_owned(), filters), Err("invalid regex a(".to_owned()));
}

#[test]
fn what_the_engine_gave_decides() {
    let compiled = |pattern: &str| regex::Regex::new(pattern).ok();
    assert!(ReplacerRegex1::from_compiled(None, "x".to_owned(), 0).is_none());
    assert!(ReplacerRegex2::from_compiled(compiled("("), "x".to_owned(), 0).is_none());
    assert!(ReplacerLiteral::from_compiled(None, "x".to_owned(), 0).is_none());
    let filter = ReplacerRegex1::from_compiled(compiled("a+"), "x".to_owned(), 1).unwrap();
    assert_eq!(filter.process("baab aa"), "bxb aa");
    let filter = ReplacerRegex2::from_compiled(compiled("a+"), "x".to_owned(), 0).unwrap();
    assert_eq!(filter.process("baab aa"), "bxb x");
    let filter = ReplacerLiteral::from_compiled(compiled("a\\+"), "x".to_owned(), 0).unwrap();
    assert_eq!(filter.process("a+ aa"), "x aa");

    let late = regex3("ignored", "<$0>", 0);
    assert_eq!(late.process_with(compiled("b"), "abc"), Ok("a<b>c".to_owned()));
    assert_eq!(late.process_with(None, "abc"), Err("invalid regex ignored".to_owned()));

    assert!(Pair::from_compiled(None, "x".to_owned()).is_none());
    let pair = Pair::from_compiled(compiled("^b"), "x".to_owned()).unwrap();
    assert_eq!(replace_line(&[pair], vec![Opt::ReplaceLineIfMatch], "ab\nba"), ["ab", "x"]);
}
