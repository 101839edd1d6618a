//! The crates behind the replacer, `regex` and `ansi_term`, and what this
//! library takes as given about them. No contract of a function in this file
//! is proved: each says what the crate's documentation and source promise.

use vstd::prelude::*;

verus! {

/// A compiled matcher of the `regex` crate, over bytes.
#[verifier::external_type_specification]
#[verifier::external_body]
pub struct ExRegex(regex::bytes::Regex);

/// How a pattern is handed to the regex engine: its text and the three
/// switches that the replacer sets.
pub struct Syntax {
    pub pattern: String,
    pub case_insensitive: bool,
    pub multi_line: bool,
    pub dot_matches_new_line: bool,
}

/// A `Syntax` as plain values.
pub struct SyntaxView {
    pub pattern: Seq<char>,
    pub case_insensitive: bool,
    pub multi_line: bool,
    pub dot_matches_new_line: bool,
}

impl View for Syntax {
    type V = SyntaxView;

    open spec fn view(&self) -> SyntaxView {
        SyntaxView {
            pattern: self.pattern@,
            case_insensitive: self.case_insensitive,
            multi_line: self.multi_line,
            dot_matches_new_line: self.dot_matches_new_line,
        }
    }
}

/// A compiled matcher of the `regex` crate, over text.
#[verifier::external_type_specification]
#[verifier::external_body]
pub struct ExTextRegex(regex::Regex);

/// One match with what is to stand in its place.
#[derive(Debug)]
pub struct Found {
    pub start: usize,
    pub end: usize,
    pub text: Vec<u8>,
}

/// The pattern and switches that a compiled matcher was built from.
pub uninterp spec fn compiled_from(regex: regex::bytes::Regex) -> SyntaxView;

/// What the engine says against a syntax: the text of its refusal, and
/// nothing where it takes the pattern.
pub uninterp spec fn refusal(syntax: SyntaxView) -> Option<Seq<char>>;

/// The successive non-overlapping matches of a pattern in a haystack, first
/// to last, each as the offsets of its start and its end.
pub uninterp spec fn match_spans(syntax: SyntaxView, haystack: Seq<u8>) -> Seq<(int, int)>;

/// For each of those matches, in the same order, the expansion of a
/// replacement template against the match's capture groups.
pub uninterp spec fn expansions(syntax: SyntaxView, haystack: Seq<u8>, template: Seq<u8>) -> Seq<
    Seq<u8>,
>;

/// The pattern that a compiled matcher over text was built from.
pub uninterp spec fn text_pattern(regex: regex::Regex) -> Seq<char>;

/// Whether the engine, with its defaults, refuses a pattern over text.
pub uninterp spec fn text_refused(pattern: Seq<char>) -> bool;

/// The text `input` with the first `limit` matches of a pattern replaced by
/// the expansion of `template`, or with all replaced where `limit` is 0.
pub uninterp spec fn text_replaced(
    pattern: Seq<char>,
    input: Seq<char>,
    limit: int,
    template: Seq<char>,
) -> Seq<char>;

/// Whether a pattern matches anywhere in a text.
pub uninterp spec fn text_matches(pattern: Seq<char>, input: Seq<char>) -> bool;

/// Each span lies in a haystack of `len` bytes, does not end before it
/// starts, and does not start before the one before it has ended.
pub open spec fn spans_in_order(spans: Seq<(int, int)>, len: int) -> bool {
    &&& forall|i: int|
        0 <= i < spans.len() ==> 0 <= (#[trigger] spans[i]).0 <= spans[i].1 <= len
    &&& forall|i: int, j: int|
        0 <= i < j < spans.len() ==> (#[trigger] spans[i]).1 <= (#[trigger] spans[j]).0
}

/// Where each of the matches starts and ends.
pub open spec fn found_spans(found: Seq<Found>) -> Seq<(int, int)> {
    Seq::new(found.len(), |i: int| (found[i].start as int, found[i].end as int))
}

/// What is to stand in the place of each of the matches.
pub open spec fn found_texts(found: Seq<Found>) -> Seq<Seq<u8>> {
    Seq::new(found.len(), |i: int| found[i].text@)
}

/// `regex::bytes::RegexBuilder`: compiles `syntax.pattern` with the three
/// switches set as `syntax` has them, and with every other setting as the
/// builder has it by default. The pattern and the switches decide whether the
/// engine takes the pattern. A matcher that comes back was built from
/// `syntax`; a refusal comes back as the text that the engine's error
/// displays.
#[verifier::external_body]
pub(crate) fn build(syntax: &Syntax) -> (built: Result<regex::bytes::Regex, String>)
    ensures
        match built {
            Ok(regex) => refusal(syntax@) is None && compiled_from(regex) == syntax@,
            Err(text) => refusal(syntax@) == Some(text@),
        },
{
    regex::bytes::RegexBuilder::new(&syntax.pattern)
        .case_insensitive(syntax.case_insensitive)
        .multi_line(syntax.multi_line)
        .dot_matches_new_line(syntax.dot_matches_new_line)
        .build()
        .map_err(|refusal| refusal.to_string())
}

/// `Regex::is_match`: whether the pattern matches anywhere in the haystack.
#[verifier::external_body]
pub(crate) fn is_match(regex: &regex::bytes::Regex, haystack: &[u8]) -> (any: bool)
    ensures
        any == (match_spans(compiled_from(*regex), haystack@).len() > 0),
{
    regex.is_match(haystack)
}

/// `Regex::captures_iter` with `Captures::expand`: the successive
/// non-overlapping matches in the haystack, each with the expansion of
/// `template` against its capture groups. The crate documents that a match
/// does not end before it starts, hands each out as a part of the haystack,
/// and starts the search for the next where the last one ended.
#[verifier::external_body]
pub(crate) fn find_expanded(regex: &regex::bytes::Regex, haystack: &[u8], template: &[u8]) -> (found:
    Vec<Found>)
    ensures
        found_spans(found@) == match_spans(compiled_from(*regex), haystack@),
        found_texts(found@) == expansions(compiled_from(*regex), haystack@, template@),
        spans_in_order(found_spans(found@), haystack@.len() as int),
{
    let expand = |caps: regex::bytes::Captures<'_>| {
        let (whole, mut text) = (caps.get_match(), Vec::new());
        caps.expand(template, &mut text);
        Found { start: whole.start(), end: whole.end(), text }
    };
    regex.captures_iter(haystack).map(expand).collect()
}

/// `regex::Regex::new`: compiles a pattern with the engine's defaults. The
/// pattern decides whether the engine takes it; a matcher that comes back was
/// built from `pattern`.
#[verifier::external_body]
pub(crate) fn compile_text(pattern: &str) -> (built: Option<regex::Regex>)
    ensures
        match built {
            Some(regex) => !text_refused(pattern@) && text_pattern(regex) == pattern@,
            None => text_refused(pattern@),
        },
{
    regex::Regex::new(pattern).ok()
}

/// `regex::Regex::is_match`: whether the pattern matches anywhere in the
/// text.
#[verifier::external_body]
pub(crate) fn is_match_text(regex: &regex::Regex, input: &str) -> (any: bool)
    ensures
        any == text_matches(text_pattern(*regex), input@),
{
    regex.is_match(input)
}

/// `regex::Regex::replacen` with a template that capture groups are filled
/// into.
#[verifier::external_body]
pub(crate) fn replacen_text(regex: &regex::Regex, input: &str, limit: usize, template: &str) -> (out:
    String)
    ensures
        out@ == text_replaced(text_pattern(*regex), input@, limit as int, template@),
{
    regex.replacen(input, limit, template).into_owned()
}

/// The bytes that switch a terminal to green: what `ansi_term` writes before
/// text in `Colour::Green`.
#[verifier::external_body]
pub(crate) fn highlight_start() -> (code: Vec<u8>)
    ensures
        code@ == seq![0x1bu8, 0x5bu8, 0x33u8, 0x32u8, 0x6du8],
{
    ansi_term::Colour::Green.prefix().to_string().into_bytes()
}

/// The bytes that switch a terminal back: what `ansi_term` writes after
/// coloured text.
#[verifier::external_body]
pub(crate) fn highlight_end() -> (code: Vec<u8>)
    ensures
        code@ == seq![0x1bu8, 0x5bu8, 0x30u8, 0x6du8],
{
    ansi_term::Colour::Green.suffix().to_string().into_bytes()
}

} // verus!
