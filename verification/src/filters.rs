//! Text filters that can be chained: each makes a new text of the one it is
//! given.

use crate::replacer::engine::{
    compile_text, replacen_text, text_pattern, text_refused, text_replaced,
};
use crate::replacer::{escape, escaped};
use crate::text::{chars_of, string_of};
use vstd::prelude::*;
use vstd::slice::slice_subrange;
use vstd::string::StringExecFns;

verus! {

/// A filter makes a text of a text.
pub trait Filter {
    /// What the filter makes of a text.
    spec fn filtered(&self, input: Seq<char>) -> Seq<char>;

    /// The text that the filter makes of `input`.
    fn process(&self, input: &str) -> (out: String)
        ensures
            out@ == self.filtered(input@),
    ;
}

/// The length of the shortest start of `t` that holds `lines` line feeds;
/// the length of `t` where it holds fewer.
pub open spec fn lines_len(t: Seq<char>, lines: int) -> int
    decreases t.len(),
{
    if lines <= 0 || t.len() == 0 {
        0
    } else if t[0] == '\n' {
        1 + lines_len(t.drop_first(), lines - 1)
    } else {
        1 + lines_len(t.drop_first(), lines)
    }
}

/// The lines of `t` from line `start` on, `count` of them at most, each
/// with its line feed.
pub open spec fn picked_lines(t: Seq<char>, start: int, count: int) -> Seq<char> {
    let rest = t.skip(lines_len(t, start));
    rest.take(lines_len(rest, count))
}

/// The characters that have the Unicode property `White_Space`.
pub open spec fn is_white_space(c: char) -> bool {
    ('\u{9}' <= c && c <= '\u{D}') || c == ' ' || c == '\u{85}' || c == '\u{A0}' || c
        == '\u{1680}' || ('\u{2000}' <= c && c <= '\u{200A}') || c == '\u{2028}' || c
        == '\u{2029}' || c == '\u{202F}' || c == '\u{205F}' || c == '\u{3000}'
}

/// The text `t` from `from` on without the white space that its lines start
/// with. `at_start` says that nothing of the line at `from` was kept yet. A
/// line ends with its line feed, which is white space too.
pub open spec fn left_trimmed(t: Seq<char>, from: int, at_start: bool) -> Seq<char>
    decreases t.len() - from,
{
    if from < 0 || from >= t.len() {
        Seq::empty()
    } else if at_start && is_white_space(t[from]) {
        left_trimmed(t, from + 1, true)
    } else {
        seq![t[from]] + left_trimmed(t, from + 1, t[from] == '\n')
    }
}

/// The text `t` from `from` on without its line ends: without each line
/// feed, and without a carriage return that stands right before one.
pub open spec fn joined_lines(t: Seq<char>, from: int) -> Seq<char>
    decreases t.len() - from,
{
    if from < 0 || from >= t.len() {
        Seq::empty()
    } else if t[from] == '\n' {
        joined_lines(t, from + 1)
    } else if t[from] == '\r' && from + 1 < t.len() && t[from + 1] == '\n' {
        joined_lines(t, from + 2)
    } else {
        seq![t[from]] + joined_lines(t, from + 1)
    }
}

proof fn lemma_lines_len(t: Seq<char>, lines: int)
    ensures
        0 <= lines_len(t, lines) <= t.len(),
    decreases t.len(),
{
    if lines > 0 && t.len() > 0 {
        if t[0] == '\n' {
            lemma_lines_len(t.drop_first(), lines - 1);
        } else {
            lemma_lines_len(t.drop_first(), lines);
        }
    }
}

/// The number of characters from `from` on that the first `lines` lines
/// take.
fn count_lines(t: &Vec<char>, from: usize, lines: usize) -> (n: usize)
    requires
        from <= t@.len(),
    ensures
        n == lines_len(t@.skip(from as int), lines as int),
        from + n <= t@.len(),
{
    let ghost rest = t@.skip(from as int);
    let mut left = lines;
    let mut i: usize = from;
    proof {
        assert(rest.skip(0) =~= rest);
        lemma_lines_len(rest, lines as int);
    }
    while i < t.len() && left > 0
        invariant
            from <= i <= t@.len(),
            rest == t@.skip(from as int),
            lines_len(rest, lines as int) == (i - from) + lines_len(rest.skip(i - from), left as int),
        decreases t.len() - i,
    {
        proof {
            assert(rest.skip(i - from).drop_first() =~= rest.skip(i + 1 - from));
            assert(rest.skip(i - from)[0] == t@[i as int]);
        }
        if t[i] == '\n' {
            left -= 1;
        }
        i += 1;
    }
    i - from
}

fn is_space(c: char) -> (b: bool)
    ensures
        b == is_white_space(c),
{
    ('\u{9}' <= c && c <= '\u{D}') || c == ' ' || c == '\u{85}' || c == '\u{A0}' || c
        == '\u{1680}' || ('\u{2000}' <= c && c <= '\u{200A}') || c == '\u{2028}' || c
        == '\u{2029}' || c == '\u{202F}' || c == '\u{205F}' || c == '\u{3000}'
}

/// Keeps `end` lines from line `start` on.
pub struct LinePicker {
    pub start: usize,
    pub end: usize,
}

impl Filter for LinePicker {
    open spec fn filtered(&self, input: Seq<char>) -> Seq<char> {
        picked_lines(input, self.start as int, self.end as int)
    }

    fn process(&self, input: &str) -> (out: String) {
        let chars = chars_of(input);
        let total = chars.len();
        let from = count_lines(&chars, 0, self.start);
        assert(chars@.skip(0) =~= chars@);
        let len = count_lines(&chars, from, self.end);
        let out = string_of(slice_subrange(chars.as_slice(), from, from + len));
        assert(out@ =~= picked_lines(input@, self.start as int, self.end as int));
        out
    }
}

/// Takes the white space off the start of each line.
pub struct Leftpad;

impl Filter for Leftpad {
    open spec fn filtered(&self, input: Seq<char>) -> Seq<char> {
        left_trimmed(input, 0, true)
    }

    fn process(&self, input: &str) -> (out: String) {
        let chars = chars_of(input);
        let ghost t = chars@;
        let mut out = String::new();
        let mut at_start = true;
        let mut i: usize = 0;
        while i < chars.len()
            invariant
                i <= chars.len(),
                chars@ == t,
                out@ + left_trimmed(t, i as int, at_start) == left_trimmed(t, 0, true),
            decreases chars.len() - i,
        {
            let c = chars[i];
            if !(at_start && is_space(c)) {
                out.push(c);
                at_start = c == '\n';
            }
            i += 1;
            assert(out@ + left_trimmed(t, i as int, at_start) =~= left_trimmed(t, 0, true));
        }
        out
    }
}

/// Joins the lines: takes out the line ends.
pub struct RemoveNewlines;

impl Filter for RemoveNewlines {
    open spec fn filtered(&self, input: Seq<char>) -> Seq<char> {
        joined_lines(input, 0)
    }

    fn process(&self, input: &str) -> (out: String) {
        let chars = chars_of(input);
        let ghost t = chars@;
        let mut out = String::new();
        let mut i: usize = 0;
        while i < chars.len()
            invariant
                i <= chars.len(),
                chars@ == t,
                out@ + joined_lines(t, i as int) == joined_lines(t, 0),
            decreases chars.len() - i,
        {
            let c = chars[i];
            if c == '\n' {
                i += 1;
            } else if c == '\r' && i + 1 < chars.len() && chars[i + 1] == '\n' {
                i += 2;
            } else {
                out.push(c);
                i += 1;
                assert(out@ + joined_lines(t, i as int) =~= joined_lines(t, 0));
            }
        }
        out
    }
}

/// Replaces a text that is looked for as it is, not as a pattern, by a
/// template, `max` times at most, or every time where `max` is 0.
pub struct ReplacerLiteral {
    pattern: regex::Regex,
    replace_with: String,
    max: usize,
}

impl ReplacerLiteral {
    /// The pattern that is looked for.
    pub closed spec fn pattern(&self) -> Seq<char> {
        text_pattern(self.pattern)
    }

    /// The template that stands in the place of a match.
    pub closed spec fn template(&self) -> Seq<char> {
        self.replace_with@
    }

    /// The most replacements that are made; 0 for no limit.
    pub closed spec fn limit(&self) -> int {
        self.max as int
    }

    /// The filter for what the regex engine gave for a pattern: there is
    /// one where the engine took the pattern.
    pub fn from_compiled(compiled: Option<regex::Regex>, replace_with: String, max: usize) -> (made:
        Option<ReplacerLiteral>)
        ensures
            match compiled {
                Some(regex) => {
                    &&& made matches Some(filter)
                    &&& filter.pattern() == text_pattern(regex)
                    &&& filter.template() == replace_with@
                    &&& filter.limit() == max
                },
                None => made is None,
            },
    {
        match compiled {
            Some(pattern) => Some(ReplacerLiteral { pattern, replace_with, max }),
            None => None,
        }
    }

    /// The filter for a text that is looked for: there is one unless the
    /// regex engine refuses the pattern that the text comes to.
    pub fn new(pattern: &str, replace_with: String, max: usize) -> (made: Option<ReplacerLiteral>)
        ensures
            made is Some <==> !text_refused(escaped(pattern@)),
            made matches Some(filter) ==> {
                &&& filter.pattern() == escaped(pattern@)
                &&& filter.template() == replace_with@
                &&& filter.limit() == max
            },
    {
        let quoted = escape(pattern);
        ReplacerLiteral::from_compiled(compile_text(quoted.as_str()), replace_with, max)
    }
}

impl Filter for ReplacerLiteral {
    open spec fn filtered(&self, input: Seq<char>) -> Seq<char> {
        text_replaced(self.pattern(), input, self.limit(), self.template())
    }

    fn process(&self, input: &str) -> (out: String) {
        replacen_text(&self.pattern, input, self.max, self.replace_with.as_str())
    }
}

/// Replaces what matches a pattern by a template, `max` times at most, or
/// every time where `max` is 0.
pub struct ReplacerRegex1 {
    pattern: regex::Regex,
    replace_with: String,
    max: usize,
}

impl ReplacerRegex1 {
    /// The pattern that is looked for.
    pub closed spec fn pattern(&self) -> Seq<char> {
        text_pattern(self.pattern)
    }

    /// The template that stands in the place of a match.
    pub closed spec fn template(&self) -> Seq<char> {
        self.replace_with@
    }

    /// The most replacements that are made; 0 for no limit.
    pub closed spec fn limit(&self) -> int {
        self.max as int
    }

    /// The filter for what the regex engine gave for a pattern: there is
    /// one where the engine took the pattern.
    pub fn from_compiled(compiled: Option<regex::Regex>, replace_with: String, max: usize) -> (made:
        Option<ReplacerRegex1>)
        ensures
            match compiled {
                Some(regex) => {
                    &&& made matches Some(filter)
                    &&& filter.pattern() == text_pattern(regex)
                    &&& filter.template() == replace_with@
                    &&& filter.limit() == max
                },
                None => made is None,
            },
    {
        match compiled {
            Some(pattern) => Some(ReplacerRegex1 { pattern, replace_with, max }),
            None => None,
        }
    }

    /// The filter for a pattern: there is one unless the regex engine refuses
    /// the pattern.
    pub fn new(pattern: &str, replace_with: String, max: usize) -> (made: Option<ReplacerRegex1>)
        ensures
            made is Some <==> !text_refused(pattern@),
            made matches Some(filter) ==> {
                &&& filter.pattern() == pattern@
                &&& filter.template() == replace_with@
                &&& filter.limit() == max
            },
    {
        ReplacerRegex1::from_compiled(compile_text(pattern), replace_with, max)
    }
}

impl Filter for ReplacerRegex1 {
    open spec fn filtered(&self, input: Seq<char>) -> Seq<char> {
        text_replaced(self.pattern(), input, self.limit(), self.template())
    }

    fn process(&self, input: &str) -> (out: String) {
        replacen_text(&self.pattern, input, self.max, self.replace_with.as_str())
    }
}

/// Replaces what matches a pattern by a template, like `ReplacerRegex1`.
pub struct ReplacerRegex2 {
    pattern: regex::Regex,
    replace_with: String,
    max: usize,
}

impl ReplacerRegex2 {
    /// The pattern that is looked for.
    pub closed spec fn pattern(&self) -> Seq<char> {
        text_pattern(self.pattern)
    }

    /// The template that stands in the place of a match.
    pub closed spec fn template(&self) -> Seq<char> {
        self.replace_with@
    }

    /// The most replacements that are made; 0 for no limit.
    pub closed spec fn limit(&self) -> int {
        self.max as int
    }

    /// The filter for what the regex engine gave for a pattern: there is
    /// one where the engine took the pattern.
    pub fn from_compiled(compiled: Option<regex::Regex>, replace_with: String, max: usize) -> (made:
        Option<ReplacerRegex2>)
        ensures
            match compiled {
                Some(regex) => {
                    &&& made matches Some(filter)
                    &&& filter.pattern() == text_pattern(regex)
                    &&& filter.template() == replace_with@
                    &&& filter.limit() == max
                },
                None => made is None,
            },
    {
        match compiled {
            Some(pattern) => Some(ReplacerRegex2 { pattern, replace_with, max }),
            None => None,
        }
    }

    /// The filter for a pattern: there is one unless the regex engine refuses
    /// the pattern.
    pub fn new(pattern: &str, replace_with: String, max: usize) -> (made: Option<ReplacerRegex2>)
        ensures
            made is Some <==> !text_refused(pattern@),
            made matches Some(filter) ==> {
                &&& filter.pattern() == pattern@
                &&& filter.template() == replace_with@
                &&& filter.limit() == max
            },
    {
        ReplacerRegex2::from_compiled(compile_text(pattern), replace_with, max)
    }
}

impl Filter for ReplacerRegex2 {
    open spec fn filtered(&self, input: Seq<char>) -> Seq<char> {
        text_replaced(self.pattern(), input, self.limit(), self.template())
    }

    fn process(&self, input: &str) -> (out: String) {
        replacen_text(&self.pattern, input, self.max, self.replace_with.as_str())
    }
}

/// A filter that may refuse a text.
pub trait FailableFilter {
    /// What the filter makes of a text that it takes.
    spec fn filtered(&self, input: Seq<char>) -> Seq<char>;

    /// Whether the filter takes a text.
    spec fn takes(&self, input: Seq<char>) -> bool;

    /// What the filter reports for a text that it refuses.
    spec fn refusal_for(&self, input: Seq<char>) -> Seq<char>;

    /// The new text for a text that the filter takes, else why there is
    /// none.
    fn process(&self, input: &str) -> (out: Result<String, String>)
        ensures
            out is Ok <==> self.takes(input@),
            out matches Ok(text) ==> text@ == self.filtered(input@),
            out matches Err(message) ==> message@ == self.refusal_for(input@),
    ;
}

/// Replaces what matches a pattern that is compiled when the filter runs:
/// a pattern that the regex engine refuses is the filter's error.
pub struct ReplacerRegex3 {
    pub pattern: String,
    pub replace_with: String,
    pub max: usize,
}

impl ReplacerRegex3 {
    /// What the filter reports where the regex engine refuses its pattern.
    pub open spec fn refusal(&self) -> Seq<char> {
        "invalid regex "@ + self.pattern@
    }

    /// What the filter makes of `input`, given what the regex engine gave for
    /// its pattern: the replacement where there is a matcher, else the
    /// refusal.
    pub fn process_with(&self, compiled: Option<regex::Regex>, input: &str) -> (out: Result<
        String,
        String,
    >)
        ensures
            match compiled {
                Some(regex) => out matches Ok(text) && text@ == text_replaced(
                    text_pattern(regex),
                    input@,
                    self.max as int,
                    self.replace_with@,
                ),
                None => out matches Err(message) && message@ == self.refusal(),
            },
    {
        match compiled {
            Some(regex) => Ok(replacen_text(&regex, input, self.max, self.replace_with.as_str())),
            None => {
                let mut message = String::from_str("invalid regex ");
                message.append(self.pattern.as_str());
                Err(message)
            },
        }
    }
}

impl FailableFilter for ReplacerRegex3 {
    open spec fn filtered(&self, input: Seq<char>) -> Seq<char> {
        text_replaced(self.pattern@, input, self.max as int, self.replace_with@)
    }

    open spec fn takes(&self, input: Seq<char>) -> bool {
        !text_refused(self.pattern@)
    }

    open spec fn refusal_for(&self, input: Seq<char>) -> Seq<char> {
        self.refusal()
    }

    fn process(&self, input: &str) -> (out: Result<String, String>) {
        self.process_with(compile_text(self.pattern.as_str()), input)
    }
}

/// A filter of either kind.
pub enum FilterWrapper {
    Unfailable(Box<dyn Filter>),
    Failable(Box<dyn FailableFilter>),
}

/// What the filters make of a text, one after the other, where each takes
/// what it is given.
pub open spec fn chained_wrappers(filters: Seq<FilterWrapper>, input: Seq<char>) -> Seq<char>
    decreases filters.len(),
{
    if filters.len() == 0 {
        input
    } else {
        match filters.last() {
            FilterWrapper::Unfailable(f) => f.filtered(chained_wrappers(filters.drop_last(), input)),
            FilterWrapper::Failable(f) => f.filtered(chained_wrappers(filters.drop_last(), input)),
        }
    }
}

/// Filter `i` is one that may refuse, and `message` is what it reports for
/// what the filters before it make of `input`.
pub open spec fn refused_at(
    filters: Seq<FilterWrapper>,
    input: Seq<char>,
    i: int,
    message: Seq<char>,
) -> bool {
    0 <= i < filters.len() && match filters[i] {
        FilterWrapper::Unfailable(_) => false,
        FilterWrapper::Failable(f) => message == f.refusal_for(
            chained_wrappers(filters.take(i), input),
        ),
    }
}

/// What comes of running a text through the filters, first to last: what
/// the last filter makes of it, or what the first filter that refuses what
/// it is given reports.
pub open spec fn filters_outcome(filters: Seq<FilterWrapper>, input: Seq<char>) -> Result<
    Seq<char>,
    Seq<char>,
>
    decreases filters.len(),
{
    if filters.len() == 0 {
        Ok(input)
    } else {
        match filters_outcome(filters.drop_last(), input) {
            Err(message) => Err(message),
            Ok(text) => match filters.last() {
                FilterWrapper::Unfailable(f) => Ok(f.filtered(text)),
                FilterWrapper::Failable(f) => if f.takes(text) {
                    Ok(f.filtered(text))
                } else {
                    Err(f.refusal_for(text))
                },
            },
        }
    }
}

/// Once a filter has refused, the filters behind it change nothing.
pub proof fn lemma_refusal_stays(filters: Seq<FilterWrapper>, input: Seq<char>, i: int, n: int)
    requires
        0 <= i <= n <= filters.len(),
        filters_outcome(filters.take(i), input) is Err,
    ensures
        filters_outcome(filters.take(n), input) == filters_outcome(filters.take(i), input),
    decreases n - i,
{
    if i < n {
        lemma_refusal_stays(filters, input, i, n - 1);
        assert(filters.take(n).drop_last() =~= filters.take(n - 1));
    }
}

/// Runs the text through the filters, first to last, up to the first that
/// refuses what it is given: its error is the result. The text goes through
/// where no filter refuses, and so always where none of them can.
pub fn process_filters2(input: String, filters: Vec<FilterWrapper>) -> (out: Result<String, String>)
    ensures
        match filters_outcome(filters@, input@) {
            Ok(made) => out matches Ok(text) && text@ == made,
            Err(refusal) => out matches Err(message) && message@ == refusal,
        },
        out matches Ok(text) ==> text@ == chained_wrappers(filters@, input@),
        out matches Err(message) ==> exists|i: int| refused_at(filters@, input@, i, message@),
        (forall|i: int| 0 <= i < filters@.len() ==> filters@[i] is Unfailable) ==> out is Ok,
{
    let ghost given = input@;
    let mut text = input;
    let mut i: usize = 0;
    while i < filters.len()
        invariant
            i <= filters.len(),
            given == input@,
            text@ == chained_wrappers(filters@.take(i as int), given),
            filters_outcome(filters@.take(i as int), given) == Ok::<Seq<char>, Seq<char>>(text@),
        decreases filters.len() - i,
    {
        proof {
            assert(filters@.take(i + 1).drop_last() =~= filters@.take(i as int));
        }
        text = match &filters[i] {
            FilterWrapper::Unfailable(f) => f.process(text.as_str()),
            FilterWrapper::Failable(f) => match f.process(text.as_str()) {
                Ok(made) => made,
                Err(message) => {
                    proof {
                        assert(refused_at(filters@, given, i as int, message@));
                        lemma_refusal_stays(filters@, given, i + 1, filters@.len() as int);
                        assert(filters@.take(filters@.len() as int) =~= filters@);
                    }
                    return Err(message);
                },
            },
        };
        i += 1;
    }
    assert(filters@.take(filters.len() as int) =~= filters@);
    Ok(text)
}

/// What the filters make of a text, one after the other.
pub open spec fn chained(filters: Seq<Box<dyn Filter>>, input: Seq<char>) -> Seq<char>
    decreases filters.len(),
{
    if filters.len() == 0 {
        input
    } else {
        filters.last().filtered(chained(filters.drop_last(), input))
    }
}

/// Runs the text through the filters, first to last.
pub fn process_filters1(input: String, filters: Vec<Box<dyn Filter>>) -> (out: String)
    ensures
        out@ == chained(filters@, input@),
{
    let mut input = input;
    let ghost given = input@;
    let mut i: usize = 0;
    while i < filters.len()
        invariant
            i <= filters.len(),
            input@ == chained(filters@.take(i as int), given),
        decreases filters.len() - i,
    {
        proof {
            assert(filters@.take(i + 1).drop_last() =~= filters@.take(i as int));
        }
        input = filters[i].process(input.as_str());
        i += 1;
    }
    assert(filters@.take(filters.len() as int) =~= filters@);
    input
}

} // verus!
