//! The pattern compiler and the substitution engine.

pub mod engine;
pub mod laws;
pub mod line_replacer;
pub mod preview;
pub mod validate;

use crate::error::Error;
use crate::replacer::engine::{
    compiled_from, expansions, found_spans, found_texts, match_spans, refusal, Found, Syntax,
    SyntaxView,
};
use crate::replacer::preview::PREVIEW_CONTEXT;
use crate::replacer::validate::{first_ambiguous, validate_replace};
use crate::text::{byte_offset, chars_of};
use crate::unescape::{unescape, unescaped};
use std::borrow::Cow;
use vstd::prelude::*;
use vstd::slice::slice_subrange;
use vstd::string::{StrSliceExecFns, StringExecFns};

verus! {

/// The characters that the regex syntax gives a meaning to.
pub open spec fn is_meta_character(c: char) -> bool {
    c == '\\' || c == '.' || c == '+' || c == '*' || c == '?' || c == '(' || c == ')' || c == '|'
        || c == '[' || c == ']' || c == '{' || c == '}' || c == '^' || c == '$' || c == '#' || c
        == '&' || c == '-' || c == '~'
}

/// The text `t` with a backslash put before each of its meta characters.
pub open spec fn escaped(t: Seq<char>) -> Seq<char>
    decreases t.len(),
{
    if t.len() == 0 {
        Seq::empty()
    } else if is_meta_character(t.last()) {
        escaped(t.drop_last()) + seq!['\\', t.last()]
    } else {
        escaped(t.drop_last()) + seq![t.last()]
    }
}

fn is_meta(c: char) -> (b: bool)
    ensures
        b == is_meta_character(c),
{
    c == '\\' || c == '.' || c == '+' || c == '*' || c == '?' || c == '(' || c == ')' || c == '|'
        || c == '[' || c == ']' || c == '{' || c == '}' || c == '^' || c == '$' || c == '#' || c
        == '&' || c == '-' || c == '~'
}

/// The pattern that matches `text` and nothing else: `text` with a backslash
/// before each of its meta characters.
pub fn escape(text: &str) -> (pattern: String)
    ensures
        pattern@ == escaped(text@),
{
    let chars = chars_of(text);
    let mut pattern = String::new();
    let mut i: usize = 0;
    while i < chars.len()
        invariant
            i <= chars.len(),
            chars@ == text@,
            pattern@ == escaped(chars@.take(i as int)),
        decreases chars.len() - i,
    {
        let c = chars[i];
        proof {
            assert(chars@.take(i + 1).drop_last() =~= chars@.take(i as int));
            assert(chars@.take(i + 1).last() == c);
        }
        if is_meta(c) {
            pattern.push('\\');
        }
        pattern.push(c);
        i += 1;
        assert(pattern@ =~= escaped(chars@.take(i as int)));
    }
    assert(chars@.take(chars.len() as int) =~= chars@);
    pattern
}

/// The find string as a group between two word boundaries.
pub open spec fn word_pattern(look_for: Seq<char>) -> Seq<char> {
    "\\b("@ + look_for + ")\\b"@
}

/// What the pattern compiler starts from in regex mode: the find string as
/// the pattern, case-sensitive, `^` and `$` matching at line boundaries, and
/// `.` not matching a newline.
pub open spec fn initial_syntax(look_for: Seq<char>) -> SyntaxView {
    SyntaxView {
        pattern: look_for,
        case_insensitive: false,
        multi_line: true,
        dot_matches_new_line: false,
    }
}

/// What one flag character does to the syntax `s`.
///
/// `c` and `i` set the case switch. `m` changes nothing. `e` makes `^` and
/// `$` match at the ends of the buffer only. `s` lets `.` match a newline,
/// and does what `e` does unless `m` stands somewhere among the flags
/// (`multi_line_asked`). `w` starts over with the find string as a group
/// between word boundaries: every switch goes back to what the engine has by
/// default, so case-sensitive, buffer anchors, and `.` not matching a
/// newline. Any other character changes nothing.
pub open spec fn apply_flag(
    s: SyntaxView,
    flag: char,
    look_for: Seq<char>,
    multi_line_asked: bool,
) -> SyntaxView {
    if flag == 'c' {
        SyntaxView { case_insensitive: false, ..s }
    } else if flag == 'i' {
        SyntaxView { case_insensitive: true, ..s }
    } else if flag == 'e' {
        SyntaxView { multi_line: false, ..s }
    } else if flag == 's' {
        SyntaxView {
            multi_line: multi_line_asked && s.multi_line,
            dot_matches_new_line: true,
            ..s
        }
    } else if flag == 'w' {
        SyntaxView {
            pattern: word_pattern(look_for),
            case_insensitive: false,
            multi_line: false,
            dot_matches_new_line: false,
        }
    } else {
        s
    }
}

/// The syntax after the flags were applied one after the other, left to
/// right.
pub open spec fn apply_flags(
    look_for: Seq<char>,
    flags: Seq<char>,
    multi_line_asked: bool,
) -> SyntaxView
    decreases flags.len(),
{
    if flags.len() == 0 {
        initial_syntax(look_for)
    } else {
        apply_flag(
            apply_flags(look_for, flags.drop_last(), multi_line_asked),
            flags.last(),
            look_for,
            multi_line_asked,
        )
    }
}

/// The syntax that a find string, the mode and the flags come to. In literal
/// mode the pattern is the escaped find string and the flags are not applied.
pub open spec fn pattern_syntax(
    look_for: Seq<char>,
    is_literal: bool,
    flags: Option<Seq<char>>,
) -> SyntaxView {
    if is_literal {
        SyntaxView { pattern: escaped(look_for), ..initial_syntax(look_for) }
    } else {
        match flags {
            Some(f) => apply_flags(look_for, f, f.contains('m')),
            None => initial_syntax(look_for),
        }
    }
}

/// The bytes that stand in the place of a match, before any capture group
/// is filled in: in literal mode the replacement as it was given, else the
/// replacement with its escapes resolved; either in UTF-8.
pub open spec fn template_bytes(replace_with: Seq<char>, is_literal: bool) -> Seq<u8> {
    if is_literal {
        vstd::utf8::encode_utf8(replace_with)
    } else {
        vstd::utf8::encode_utf8(unescaped(replace_with, 0))
    }
}

/// The flags as a sequence of characters, where there are any.
pub open spec fn flags_view(flags: Option<String>) -> Option<Seq<char>> {
    match flags {
        Some(f) => Some(f@),
        None => None,
    }
}

fn contains_char(chars: &Vec<char>, wanted: char) -> (found: bool)
    ensures
        found == chars@.contains(wanted),
{
    let mut i: usize = 0;
    while i < chars.len()
        invariant
            i <= chars.len(),
            forall|k: int| 0 <= k < i ==> chars@[k] != wanted,
        decreases chars.len() - i,
    {
        if chars[i] == wanted {
            return true;
        }
        i += 1;
    }
    false
}

/// Compiles a find string, the mode and the flags into the syntax that is
/// handed to the regex engine.
pub fn compile_syntax(look_for: &str, is_literal: bool, flags: &Option<String>) -> (syntax: Syntax)
    ensures
        syntax@ == pattern_syntax(look_for@, is_literal, flags_view(*flags)),
{
    if is_literal {
        return Syntax {
            pattern: escape(look_for),
            case_insensitive: false,
            multi_line: true,
            dot_matches_new_line: false,
        };
    }
    let mut syntax = Syntax {
        pattern: String::from_str(look_for),
        case_insensitive: false,
        multi_line: true,
        dot_matches_new_line: false,
    };
    if let Some(flags) = flags {
        let chars = chars_of(flags.as_str());
        let multi_line_asked = contains_char(&chars, 'm');
        let mut i: usize = 0;
        while i < chars.len()
            invariant
                i <= chars.len(),
                chars@ == flags@,
                syntax@ == apply_flags(look_for@, chars@.take(i as int), multi_line_asked),
            decreases chars.len() - i,
        {
            let flag = chars[i];
            proof {
                assert(chars@.take(i + 1).drop_last() =~= chars@.take(i as int));
            }
            if flag == 'c' {
                syntax.case_insensitive = false;
            } else if flag == 'i' {
                syntax.case_insensitive = true;
            } else if flag == 'e' {
                syntax.multi_line = false;
            } else if flag == 's' {
                if !multi_line_asked {
                    syntax.multi_line = false;
                }
                syntax.dot_matches_new_line = true;
            } else if flag == 'w' {
                let mut pattern = String::from_str("\\b(");
                pattern.append(look_for);
                pattern.append(")\\b");
                syntax =
                Syntax {
                    pattern,
                    case_insensitive: false,
                    multi_line: false,
                    dot_matches_new_line: false,
                };
            }
            i += 1;
        }
        assert(chars@.take(chars.len() as int) =~= chars@);
    }
    syntax
}

/// One replacement: the bytes of the haystack from `start` up to `end` give
/// way to `text`.
pub struct Change {
    pub start: int,
    pub end: int,
    pub text: Seq<u8>,
}

/// The matches that were found, as changes.
pub open spec fn changes_of(found: Seq<Found>) -> Seq<Change> {
    Seq::new(
        found.len(),
        |i: int| Change { start: found[i].start as int, end: found[i].end as int, text: found[i].text@ },
    )
}

/// Every match of a pattern in a haystack with what is to stand in its
/// place: in literal mode the template as it is, else its expansion against
/// the capture groups of the match.
pub open spec fn all_changes(
    syntax: SyntaxView,
    template: Seq<u8>,
    is_literal: bool,
    haystack: Seq<u8>,
) -> Seq<Change> {
    Seq::new(
        match_spans(syntax, haystack).len(),
        |i: int|
            Change {
                start: match_spans(syntax, haystack)[i].0,
                end: match_spans(syntax, haystack)[i].1,
                text: if is_literal {
                    template
                } else {
                    expansions(syntax, haystack, template)[i]
                },
            },
    )
}

/// The first `limit` of the changes; all of them where `limit` is 0.
pub open spec fn limited(changes: Seq<Change>, limit: int) -> Seq<Change> {
    if 0 < limit < changes.len() {
        changes.take(limit)
    } else {
        changes
    }
}

/// The changes lie in a haystack of `len` bytes, one after the other.
pub open spec fn changes_in_order(changes: Seq<Change>, len: int) -> bool {
    &&& forall|i: int|
        0 <= i < changes.len() ==> 0 <= (#[trigger] changes[i]).start <= changes[i].end <= len
    &&& forall|i: int, j: int|
        0 <= i < j < changes.len() ==> (#[trigger] changes[i]).end <= (#[trigger] changes[j]).start
}

/// The haystack with each of the changes made: what lies before the last
/// change, with the earlier changes made in it, then the text of the last
/// change, then what lies behind it.
pub open spec fn spliced(haystack: Seq<u8>, changes: Seq<Change>) -> Seq<u8>
    decreases changes.len(),
{
    if changes.len() == 0 {
        haystack
    } else {
        spliced(haystack.take(changes.last().start), changes.drop_last()) + changes.last().text
            + haystack.skip(changes.last().end)
    }
}

/// Appends a copy of `bytes` to `out`.
pub fn append_bytes(out: &mut Vec<u8>, bytes: &[u8])
    ensures
        final(out)@ == old(out)@ + bytes@,
{
    out.extend_from_slice(bytes);
    assert forall|i: int| 0 <= i < bytes@.len() implies out@[old(out)@.len() + i]
        == bytes@[i] by {
        let new = out@[old(out)@.len() + i];
        assert(vstd::pervasive::cloned::<u8>(bytes@[i], new));
        assert(call_ensures(u8::clone, (&bytes@[i],), new) ==> new == bytes@[i]);
    }
    assert(out@ =~= old(out)@ + bytes@);
}

/// A compiled pattern with its replacement template and the most
/// replacements that are made in one input.
pub struct Replacer {
    regex: regex::bytes::Regex,
    replace_with: Vec<u8>,
    is_literal: bool,
    replacements: usize,
}

impl Replacer {
    /// The syntax that the pattern was compiled from.
    pub closed spec fn syntax(&self) -> SyntaxView {
        compiled_from(self.regex)
    }

    /// The bytes of the replacement template.
    pub closed spec fn template(&self) -> Seq<u8> {
        self.replace_with@
    }

    /// Whether the template stands in the place of a match as it is.
    pub closed spec fn literal(&self) -> bool {
        self.is_literal
    }

    /// The most replacements that are made in one input; 0 for no limit.
    pub closed spec fn limit(&self) -> int {
        self.replacements as int
    }

    /// Every match in `haystack` with what is to stand in its place.
    pub open spec fn changes(&self, haystack: Seq<u8>) -> Seq<Change> {
        all_changes(self.syntax(), self.template(), self.literal(), haystack)
    }

    /// What `replace` gives for `haystack`.
    pub open spec fn replaced(&self, haystack: Seq<u8>) -> Seq<u8> {
        spliced(haystack, limited(self.changes(haystack), self.limit()))
    }

    /// What `replace_preview` gives for `haystack`.
    pub open spec fn previewed(&self, haystack: Seq<u8>) -> Seq<u8> {
        preview::previewed(
            haystack,
            limited(self.changes(haystack), self.limit()),
            PREVIEW_CONTEXT as int,
        )
    }

    /// Puts a replacer together from what the regex engine gave for the
    /// pattern: the compiled matcher, or the text of its refusal.
    pub fn from_built(
        built: Result<regex::bytes::Regex, String>,
        replace_with: Vec<u8>,
        is_literal: bool,
        replacements: usize,
    ) -> (made: Result<Replacer, Error>)
        ensures
            match built {
                Ok(regex) => {
                    &&& made matches Ok(replacer)
                    &&& replacer.syntax() == compiled_from(regex)
                    &&& replacer.template() == replace_with@
                    &&& replacer.literal() == is_literal
                    &&& replacer.limit() == replacements
                },
                Err(refusal) => made matches Err(Error::Regex(text)) && text == refusal,
            },
    {
        match built {
            Ok(regex) => Ok(Replacer { regex, replace_with, is_literal, replacements }),
            Err(refusal) => Err(Error::Regex(refusal)),
        }
    }

    /// Compiles the pattern and prepares the replacement.
    ///
    /// In regex mode the replacement is validated first: an ambiguous capture
    /// reference in it is the error, whatever the pattern. Then the pattern is
    /// compiled: where the regex engine takes the syntax that the arguments
    /// come to, the replacer holds exactly that syntax and the template
    /// bytes; where it refuses, the error carries the text of its refusal.
    pub fn new(
        look_for: String,
        replace_with: String,
        is_literal: bool,
        flags: Option<String>,
        replacements: usize,
    ) -> (made: Result<Replacer, Error>)
        ensures
            !is_literal && first_ambiguous(replace_with@, 0) is Some ==> {
                &&& made matches Err(Error::InvalidReplaceCapture(e))
                &&& e.wf()
                &&& e.original() == replace_with@
                &&& e.span().start == byte_offset(
                    replace_with@,
                    first_ambiguous(replace_with@, 0)->0.start - 1,
                )
                &&& e.span().end == byte_offset(
                    replace_with@,
                    first_ambiguous(replace_with@, 0)->0.end,
                )
                &&& e.digits() == first_ambiguous(replace_with@, 0)->0.digits
            },
            is_literal || first_ambiguous(replace_with@, 0) is None ==> match refusal(
                pattern_syntax(look_for@, is_literal, flags_view(flags)),
            ) {
                None => {
                    &&& made matches Ok(replacer)
                    &&& replacer.syntax() == pattern_syntax(look_for@, is_literal, flags_view(flags))
                    &&& replacer.template() == template_bytes(replace_with@, is_literal)
                    &&& replacer.literal() == is_literal
                    &&& replacer.limit() == replacements
                },
                Some(text) => made matches Err(Error::Regex(diagnostic)) && diagnostic@ == text,
            },
            made matches Err(e) ==> e.wf(),
    {
        let template = if is_literal {
            replace_with.as_str().as_bytes_vec()
        } else {
            match validate_replace(replace_with.as_str()) {
                Ok(()) => {},
                Err(e) => {
                    return Err(Error::InvalidReplaceCapture(e));
                },
            }
            unescape(replace_with.as_str()).as_str().as_bytes_vec()
        };
        let syntax = compile_syntax(look_for.as_str(), is_literal, &flags);
        Replacer::from_built(engine::build(&syntax), template, is_literal, replacements)
    }

    /// Whether the pattern matches anywhere in `content`.
    pub fn has_matches(&self, content: &[u8]) -> (any: bool)
        ensures
            any == (self.changes(content@).len() > 0),
    {
        engine::is_match(&self.regex, content)
    }

    /// Every match in `content` with what is to stand in its place.
    pub fn find(&self, content: &[u8]) -> (found: Vec<Found>)
        ensures
            changes_of(found@) == self.changes(content@),
            changes_in_order(changes_of(found@), content@.len() as int),
    {
        let ghost all = match_spans(self.syntax(), content@);
        let found = if self.is_literal {
            let nothing: Vec<u8> = Vec::new();
            let mut found = engine::find_expanded(&self.regex, content, nothing.as_slice());
            let mut i: usize = 0;
            while i < found.len()
                invariant
                    i <= found.len(),
                    found_spans(found@) == all,
                    forall|k: int| 0 <= k < i ==> (#[trigger] found@[k]).text@ == self.replace_with@,
                decreases found.len() - i,
            {
                let ghost before = found@;
                let mut text: Vec<u8> = Vec::new();
                append_bytes(&mut text, self.replace_with.as_slice());
                let (start, end) = (found[i].start, found[i].end);
                found.set(i, Found { start, end, text });
                assert(found_spans(found@) =~= found_spans(before));
                i += 1;
            }
            found
        } else {
            engine::find_expanded(&self.regex, content, self.replace_with.as_slice())
        };
        proof {
            let texts = expansions(self.syntax(), content@, self.template());
            assert forall|k: int| 0 <= k < found@.len() implies changes_of(found@)[k]
                == self.changes(content@)[k] by {
                assert(found_spans(found@)[k] == all[k]);
                if !self.is_literal {
                    assert(found_texts(found@)[k] == texts[k]);
                }
            }
            assert(changes_of(found@) =~= self.changes(content@));
            assert forall|k: int| 0 <= k < found@.len() implies 0 <= (#[trigger] changes_of(
                found@,
            )[k]).start <= changes_of(found@)[k].end <= content@.len() by {
                assert(found_spans(found@)[k] == all[k]);
            }
            assert forall|k: int, j: int| 0 <= k < j < found@.len() implies (#[trigger] changes_of(
                found@,
            )[k]).end <= (#[trigger] changes_of(found@)[j]).start by {
                assert(found_spans(found@)[k].1 <= found_spans(found@)[j].0);
            }
        }
        found
    }

    /// The haystack with the first `limit` of the matches in `found`
    /// replaced, or with all of them where `limit` is 0: the bytes between
    /// the matches stay, and each match gives way to its text.
    pub fn replacen(haystack: &[u8], found: &Vec<Found>, limit: usize) -> (new: Vec<u8>)
        requires
            changes_in_order(changes_of(found@), haystack@.len() as int),
        ensures
            new@ == spliced(haystack@, limited(changes_of(found@), limit as int)),
    {
        let count = if limit > 0 && limit < found.len() {
            limit
        } else {
            found.len()
        };
        let ghost all = changes_of(found@);
        let ghost changes = limited(all, limit as int);
        assert(changes =~= all.take(count as int));
        assert(haystack@.skip(0) =~= haystack@);
        let mut new: Vec<u8> = Vec::new();
        let mut last_match: usize = 0;
        let mut i: usize = 0;
        while i < count
            invariant
                i <= count <= found.len(),
                all == changes_of(found@),
                changes == all.take(count as int),
                changes_in_order(all, haystack@.len() as int),
                last_match <= haystack@.len(),
                i > 0 ==> last_match == all[i - 1].end,
                i == 0 ==> last_match == 0,
                new@ + haystack@.skip(last_match as int) == spliced(haystack@, changes.take(i as int)),
            decreases count - i,
        {
            let m = &found[i];
            let ghost h = haystack@;
            let ghost done = changes.take(i as int);
            let ghost before = new@;
            proof {
                assert(all[i as int].start == m.start && all[i as int].end == m.end && all[i as int].text
                    == m.text@);
                if i > 0 {
                    assert(all[i - 1].end <= all[i as int].start);
                }
                assert forall|k: int| 0 <= k < done.len() implies (#[trigger] done[k]).end
                    <= m.start by {
                    assert(all[k].end <= all[i as int].start);
                }
                lemma_spliced_cut(h, done, m.start as int);
                assert(h.skip(last_match as int) =~= h.subrange(last_match as int, m.start as int)
                    + h.skip(m.start as int));
                lemma_cancel_suffix(
                    before + h.subrange(last_match as int, m.start as int),
                    spliced(h.take(m.start as int), done),
                    h.skip(m.start as int),
                );
                assert(changes.take(i + 1).drop_last() =~= done);
                assert(changes.take(i + 1).last() == all[i as int]);
            }
            append_bytes(&mut new, slice_subrange(haystack, last_match, m.start));
            append_bytes(&mut new, m.text.as_slice());
            proof {
                assert(new@ + h.skip(m.end as int) =~= spliced(h, changes.take(i + 1)));
            }
            last_match = m.end;
            i += 1;
        }
        assert(changes.take(count as int) =~= changes);
        let ghost body = new@;
        append_bytes(&mut new, slice_subrange(haystack, last_match, haystack.len()));
        assert(new@ =~= body + haystack@.skip(last_match as int));
        new
    }

    /// The preview of what `replace` would change in the content: each
    /// replacement between the highlight marks, with the lines around it.
    /// Nothing where the content holds no match.
    pub fn replace_preview<'a>(&'a self, content: &'a [u8]) -> (out: Cow<'a, [u8]>)
        ensures
            out@ == self.previewed(content@),
    {
        let found = self.find(content);
        Cow::Owned(preview::preview(content, &found, self.replacements, PREVIEW_CONTEXT))
    }

    /// The content with the matches replaced: the first `limit` of them,
    /// leftmost first, or all where the limit is 0. Content without a match
    /// is handed back as it is, without a copy.
    pub fn replace<'a>(&'a self, content: &'a [u8]) -> (new: Cow<'a, [u8]>)
        ensures
            new@ == self.replaced(content@),
            self.changes(content@).len() == 0 ==> new matches Cow::Borrowed(_),
    {
        let found = self.find(content);
        if found.len() == 0 {
            assert(changes_of(found@) =~= Seq::<Change>::empty());
            return Cow::Borrowed(content);
        }
        Cow::Owned(Replacer::replacen(content, &found, self.replacements))
    }
}

/// What stands before a common ending is the same.
pub proof fn lemma_cancel_suffix(a: Seq<u8>, b: Seq<u8>, ending: Seq<u8>)
    requires
        a + ending =~= b + ending,
    ensures
        a == b,
{
    assert(a.len() == b.len()) by {
        assert((a + ending).len() == (b + ending).len());
    }
    assert forall|i: int| 0 <= i < a.len() implies a[i] == b[i] by {
        assert((a + ending)[i] == (b + ending)[i]);
    }
    assert(a =~= b);
}

/// Changes that end at or before `cut` leave what lies behind `cut` as it
/// is.
pub proof fn lemma_spliced_cut(haystack: Seq<u8>, changes: Seq<Change>, cut: int)
    requires
        0 <= cut <= haystack.len(),
        forall|i: int|
            0 <= i < changes.len() ==> 0 <= (#[trigger] changes[i]).start <= changes[i].end <= cut,
    ensures
        spliced(haystack, changes) == spliced(haystack.take(cut), changes) + haystack.skip(cut),
    decreases changes.len(),
{
    if changes.len() == 0 {
        assert(haystack =~= haystack.take(cut) + haystack.skip(cut));
    } else {
        let last = changes.last();
        assert(haystack.take(cut).take(last.start) =~= haystack.take(last.start));
        assert(haystack.skip(last.end) =~= haystack.take(cut).skip(last.end) + haystack.skip(cut));
        assert(spliced(haystack, changes) =~= spliced(haystack.take(cut), changes) + haystack.skip(
            cut,
        ));
    }
}

} // verus!
