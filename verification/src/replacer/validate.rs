//! Validation of a replacement template: a numbered capture reference that
//! runs on into letters, such as `$1abc`, is reported before any matching.

use crate::text::{
    byte_offset, chars_before, chars_of, lemma_byte_offset_end, lemma_byte_offset_mono,
    lemma_byte_offset_step, lemma_chars_before_offset, string_of, utf8_width,
};
use vstd::prelude::*;
use vstd::slice::slice_subrange;
use vstd::string::StringExecFns;

verus! {

/// A letter that an unbraced capture name may hold: `[0-9A-Za-z_]`.
pub open spec fn is_cap_letter(c: char) -> bool {
    ('0' <= c && c <= '9') || ('a' <= c && c <= 'z') || ('A' <= c && c <= 'Z') || c == '_'
}

/// An ASCII digit.
pub open spec fn is_digit(c: char) -> bool {
    '0' <= c && c <= '9'
}

/// The end of the longest run of capture letters that starts at `from`.
pub open spec fn name_end(t: Seq<char>, from: int) -> int
    decreases t.len() - from,
{
    if 0 <= from < t.len() && is_cap_letter(t[from]) {
        name_end(t, from + 1)
    } else {
        from
    }
}

/// The index of the first `}` at or after `from`; an index that is not
/// below `t.len()` where there is none.
pub open spec fn closing_brace(t: Seq<char>, from: int) -> int
    decreases t.len() - from,
{
    if 0 <= from < t.len() && t[from] != '}' {
        closing_brace(t, from + 1)
    } else {
        from
    }
}

/// The end of the longest run of digits that starts at `from` and stays
/// below `end`.
pub open spec fn digits_end(t: Seq<char>, from: int, end: int) -> int
    decreases end - from,
{
    if 0 <= from < end && from < t.len() && is_digit(t[from]) {
        digits_end(t, from + 1, end)
    } else {
        from
    }
}

/// The name of the first capture reference that starts at or after `from`,
/// as the range of its characters in `t`.
///
/// A reference starts with a `$` that no `$` follows; `$$` is a literal
/// dollar and both characters are passed over. After `${` the name runs up to
/// and including the first `}`, braces included; without a `}` the `$` starts
/// no reference. Otherwise the name is the longest run of capture letters
/// after the `$`, and an empty run is no reference.
pub open spec fn next_capture(t: Seq<char>, from: int) -> Option<(int, int)>
    decreases t.len() - from,
{
    if from < 0 || from >= t.len() {
        None
    } else if t[from] != '$' {
        next_capture(t, from + 1)
    } else if from + 1 >= t.len() {
        None
    } else if t[from + 1] == '$' {
        next_capture(t, from + 2)
    } else if t[from + 1] == '{' {
        let close = closing_brace(t, from + 2);
        if close < t.len() {
            Some((from + 1, close + 1))
        } else {
            next_capture(t, from + 1)
        }
    } else {
        let end = name_end(t, from + 1);
        if end > from + 1 {
            Some((from + 1, end))
        } else {
            next_capture(t, from + 1)
        }
    }
}

/// An ambiguous capture reference: the range of its name in characters and
/// the number of digits that the name starts with.
pub struct Ambiguity {
    pub start: int,
    pub end: int,
    pub digits: int,
}

/// A name is ambiguous when it starts with a digit and holds something else
/// than digits after it.
pub open spec fn is_ambiguous(t: Seq<char>, start: int, end: int) -> bool {
    0 <= start < end <= t.len() && is_digit(t[start]) && digits_end(t, start, end) < end
}

/// The first ambiguous capture reference at or after `from`.
pub open spec fn first_ambiguous(t: Seq<char>, from: int) -> Option<Ambiguity>
    decreases t.len() - from,
{
    match next_capture(t, from) {
        None => None,
        Some((start, end)) => {
            if is_ambiguous(t, start, end) {
                Some(Ambiguity { start, end, digits: digits_end(t, start, end) - start })
            } else {
                proof {
                    lemma_next_capture(t, from);
                }
                first_ambiguous(t, end)
            }
        },
    }
}

/// Where a run of capture letters ends: in the text, behind letters only,
/// and before something else.
pub proof fn lemma_name_end(t: Seq<char>, from: int)
    requires
        0 <= from <= t.len(),
    ensures
        from <= name_end(t, from) <= t.len(),
        forall|i: int| from <= i < name_end(t, from) ==> is_cap_letter(#[trigger] t[i]),
        name_end(t, from) < t.len() ==> !is_cap_letter(t[name_end(t, from)]),
    decreases t.len() - from,
{
    if from < t.len() && is_cap_letter(t[from]) {
        lemma_name_end(t, from + 1);
    }
}

/// Where a closing brace is found: nothing before it is one.
pub proof fn lemma_closing_brace(t: Seq<char>, from: int)
    requires
        0 <= from <= t.len(),
    ensures
        from <= closing_brace(t, from) <= t.len(),
        forall|i: int| from <= i < closing_brace(t, from) ==> #[trigger] t[i] != '}',
        closing_brace(t, from) < t.len() ==> t[closing_brace(t, from)] == '}',
    decreases t.len() - from,
{
    if from < t.len() && t[from] != '}' {
        lemma_closing_brace(t, from + 1);
    }
}

/// Where a run of digits ends: behind digits only, and before something
/// else or the end that was given.
pub proof fn lemma_digits_end(t: Seq<char>, from: int, end: int)
    requires
        0 <= from <= end <= t.len(),
    ensures
        from <= digits_end(t, from, end) <= end,
        forall|i: int| from <= i < digits_end(t, from, end) ==> is_digit(#[trigger] t[i]),
        digits_end(t, from, end) < end ==> !is_digit(t[digits_end(t, from, end)]),
    decreases end - from,
{
    if from < end && is_digit(t[from]) {
        lemma_digits_end(t, from + 1, end);
    }
}

/// A capture reference lies after the place the search started from, behind
/// its `$`, and is not empty.
pub proof fn lemma_next_capture(t: Seq<char>, from: int)
    requires
        0 <= from,
    ensures
        match next_capture(t, from) {
            Some((start, end)) => {
                &&& from < start < end <= t.len()
                &&& t[start - 1] == '$'
                &&& t[start] != '$'
                &&& t[start] == '{' ==> end == closing_brace(t, start + 1) + 1
                &&& t[start] != '{' ==> end == name_end(t, start)
            },
            None => true,
        },
    decreases t.len() - from,
{
    if from >= t.len() {
    } else if t[from] != '$' {
        lemma_next_capture(t, from + 1);
    } else if from + 1 >= t.len() {
    } else if t[from + 1] == '$' {
        lemma_next_capture(t, from + 2);
    } else if t[from + 1] == '{' {
        lemma_closing_brace(t, from + 2);
        lemma_next_capture(t, from + 1);
    } else {
        lemma_name_end(t, from + 1);
        lemma_next_capture(t, from + 1);
    }
}

/// A range of bytes, `start` included and `end` not; never empty.
#[derive(Clone, Copy, Debug, PartialEq, Eq, Structural)]
pub struct Span {
    pub start: usize,
    pub end: usize,
}

/// A span of which only the start is known yet.
#[derive(Clone, Copy)]
pub struct SpanOpen {
    pub start: usize,
}

impl Span {
    /// A span that starts at `start` and has no end yet.
    pub fn start_at(start: usize) -> (open: SpanOpen)
        ensures
            open.start == start,
    {
        SpanOpen { start }
    }

    /// The span from `start` up to `end`, which is not empty.
    pub fn new(start: usize, end: usize) -> (span: Span)
        requires
            start < end,
        ensures
            span == (Span { start, end }),
    {
        Span { start, end }
    }

    /// The part of `s` that the span covers. Both ends of the span are to
    /// lie where a character of `s` starts, or at the end of `s`.
    pub fn slice<'a>(self, s: &'a str) -> (part: &'a str)
        requires
            self.start <= self.end,
            exists|i: int, j: int|
                0 <= i <= j <= s@.len() && byte_offset(s@, i) == self.start && byte_offset(s@, j)
                    == self.end,
        ensures
            part@ == s@.subrange(chars_before(s@, self.start as int), chars_before(s@, self.end as int)),
    {
        let chars = chars_of(s);
        let ghost (gi, gj) = choose|i: int, j: int|
            0 <= i <= j <= s@.len() && byte_offset(s@, i) == self.start && byte_offset(s@, j)
                == self.end;
        proof {
            lemma_chars_before_offset(s@, gi);
            lemma_chars_before_offset(s@, gj);
            lemma_byte_offset_end(s@);
        }
        let from = index_at(&chars, self.start);
        let to = index_at(&chars, self.end);
        s.substring_char(from, to)
    }

    /// The number of bytes that the span covers.
    pub fn len(self) -> (n: usize)
        requires
            self.start <= self.end,
        ensures
            n == self.end - self.start,
    {
        self.end - self.start
    }
}

impl SpanOpen {
    /// The span that ends at `end`, behind its start.
    pub fn end_at(self, end: usize) -> (span: Span)
        requires
            self.start < end,
        ensures
            span == (Span { start: self.start, end }),
    {
        Span::new(self.start, end)
    }

    /// The span that covers `offset` bytes, at least one.
    pub fn end_offset(self, offset: usize) -> (span: Span)
        requires
            offset != 0,
            self.start + offset <= usize::MAX,
        ensures
            span.start == self.start,
            span.end == self.start + offset,
    {
        self.end_at(self.start + offset)
    }
}

/// The number of characters of `chars` that start before byte offset `off`.
fn index_at(chars: &Vec<char>, off: usize) -> (n: usize)
    ensures
        n == chars_before(chars@, off as int),
        n <= chars.len(),
{
    let mut at: usize = 0;
    let mut i: usize = 0;
    proof {
        lemma_byte_offset_end(chars@);
    }
    while i < chars.len() && at < off
        invariant
            i <= chars.len(),
            at == byte_offset(chars@, i as int),
            i == chars_before(chars@.take(i as int), off as int),
        decreases chars.len() - i,
    {
        proof {
            lemma_byte_offset_step(chars@, i as int);
            assert(chars@.take(i + 1).drop_last() =~= chars@.take(i as int));
            assert(chars@.take(i + 1).take(i as int) =~= chars@.take(i as int));
        }
        let w = utf8_width(chars[i]);
        i += 1;
        if at > usize::MAX - w {
            proof {
                lemma_stays_behind(chars@, i as int, chars.len() as int, off as int);
                assert(chars@.take(chars.len() as int) =~= chars@);
            }
            return i;
        }
        at += w;
    }
    proof {
        if i < chars.len() {
            lemma_stays_behind(chars@, i as int, chars.len() as int, off as int);
        }
        assert(chars@.take(chars.len() as int) =~= chars@);
    }
    i
}

/// Once character `i` starts at or after `off`, no later one starts before.
proof fn lemma_stays_behind(chars: Seq<char>, i: int, k: int, off: int)
    requires
        0 <= i <= k <= chars.len(),
        byte_offset(chars, i) >= off,
    ensures
        chars_before(chars.take(k), off) == chars_before(chars.take(i), off),
    decreases k - i,
{
    if i < k {
        lemma_stays_behind(chars, i, k - 1, off);
        lemma_byte_offset_mono(chars, i, k - 1);
        assert(chars.take(k).drop_last() =~= chars.take(k - 1));
        assert(chars.take(k).take(k - 1) =~= chars.take(k - 1));
    }
}

/// What `name_end` finds in the rest of a text is what it finds in the text.
proof fn lemma_name_end_shift(t: Seq<char>, from: int, k: int)
    requires
        0 <= from <= t.len(),
        0 <= k <= t.len() - from,
    ensures
        name_end(t.subrange(from, t.len() as int), k) + from == name_end(t, from + k),
    decreases t.len() - from - k,
{
    let rest = t.subrange(from, t.len() as int);
    if k < rest.len() && is_cap_letter(rest[k]) {
        lemma_name_end_shift(t, from, k + 1);
    }
}

/// What `closing_brace` finds in the rest of a text is what it finds in the
/// text.
proof fn lemma_closing_brace_shift(t: Seq<char>, from: int, k: int)
    requires
        0 <= from <= t.len(),
        0 <= k <= t.len() - from,
    ensures
        closing_brace(t.subrange(from, t.len() as int), k) + from == closing_brace(t, from + k),
    decreases t.len() - from - k,
{
    let rest = t.subrange(from, t.len() as int);
    if k < rest.len() && rest[k] != '}' {
        lemma_closing_brace_shift(t, from, k + 1);
    }
}

/// What `digits_end` finds in a part of a text is what it finds in the
/// text.
proof fn lemma_digits_end_shift(t: Seq<char>, start: int, end: int, k: int)
    requires
        0 <= start <= end <= t.len(),
        0 <= k <= end - start,
    ensures
        digits_end(t.subrange(start, end), k, end - start) + start == digits_end(
            t,
            start + k,
            end,
        ),
    decreases end - start - k,
{
    let name = t.subrange(start, end);
    if k < end - start && is_digit(name[k]) {
        lemma_digits_end_shift(t, start, end, k + 1);
    }
}

/// Offsets in the rest of a text are those in the text, less where the rest
/// starts.
proof fn lemma_byte_offset_shift(t: Seq<char>, from: int, k: int)
    requires
        0 <= from <= t.len(),
        0 <= k <= t.len() - from,
    ensures
        byte_offset(t.subrange(from, t.len() as int), k) == byte_offset(t, from + k) - byte_offset(
            t,
            from,
        ),
    decreases k,
{
    let rest = t.subrange(from, t.len() as int);
    lemma_byte_offset_end(rest);
    if k > 0 {
        lemma_byte_offset_shift(t, from, k - 1);
        lemma_byte_offset_step(rest, k - 1);
        lemma_byte_offset_step(t, from + k - 1);
    }
}

/// A run of capture letters takes one byte for each letter.
proof fn lemma_letters_one_byte(t: Seq<char>, start: int, end: int)
    requires
        0 <= start <= end <= t.len(),
        forall|i: int| start <= i < end ==> is_cap_letter(#[trigger] t[i]),
    ensures
        byte_offset(t, end) == byte_offset(t, start) + (end - start),
    decreases end - start,
{
    if start < end {
        lemma_letters_one_byte(t, start, end - 1);
        lemma_byte_offset_step(t, end - 1);
    }
}

/// Whether an unbraced capture name may hold `c`.
pub fn is_valid_cap_letter(c: char) -> (b: bool)
    ensures
        b == is_cap_letter(c),
{
    ('0' <= c && c <= '9') || ('a' <= c && c <= 'z') || ('A' <= c && c <= 'Z') || c == '_'
}

fn is_ascii_digit(c: char) -> (b: bool)
    ensures
        b == is_digit(c),
{
    '0' <= c && c <= '9'
}

/// A capture reference of a template: its name, braces included where it has
/// them, and the bytes of the template that the name takes.
#[derive(Debug)]
pub struct Capture {
    pub name: String,
    pub span: Span,
}

impl Capture {
    /// The reference with this name at this place.
    pub fn new(name: String, span: Span) -> (cap: Capture)
        ensures
            cap.name == name,
            cap.span == span,
    {
        Capture { name, span }
    }
}

/// Reads an unbraced capture name at the start of `rep`: the longest run of
/// capture letters there. `None` where the run is empty.
pub fn find_cap_ref(rep: &[char], open_span: SpanOpen) -> (found: Option<Capture>)
    requires
        open_span.start + name_end(rep@, 0) <= usize::MAX,
    ensures
        name_end(rep@, 0) == 0 ==> found is None,
        name_end(rep@, 0) > 0 ==> ({
            &&& found matches Some(cap)
            &&& cap.name@ == rep@.take(name_end(rep@, 0))
            &&& cap.span.start == open_span.start
            &&& cap.span.end == open_span.start + name_end(rep@, 0)
        }),
{
    let mut cap_end: usize = 0;
    proof {
        lemma_name_end(rep@, 0);
    }
    while cap_end < rep.len() && is_valid_cap_letter(rep[cap_end])
        invariant
            cap_end <= rep.len(),
            name_end(rep@, 0) == name_end(rep@, cap_end as int),
        decreases rep.len() - cap_end,
    {
        cap_end += 1;
    }
    if cap_end == 0 {
        return None;
    }
    let name = string_of(slice_subrange(rep, 0, cap_end));
    Some(Capture::new(name, open_span.end_offset(cap_end)))
}

/// Reads a braced capture name at the start of `rep`, which starts with `{`:
/// all up to the first `}`, both braces included. `None` where no `}` follows.
pub fn find_cap_ref_braced(rep: &[char], open_span: SpanOpen) -> (found: Option<Capture>)
    requires
        rep@.len() > 0,
        rep@[0] == '{',
        open_span.start + byte_offset(rep@, rep@.len() as int) <= usize::MAX,
    ensures
        closing_brace(rep@, 1) >= rep@.len() ==> found is None,
        closing_brace(rep@, 1) < rep@.len() ==> ({
            &&& found matches Some(cap)
            &&& cap.name@ == rep@.take(closing_brace(rep@, 1) + 1)
            &&& cap.span.start == open_span.start
            &&& cap.span.end == open_span.start + byte_offset(rep@, closing_brace(rep@, 1) + 1)
        }),
{
    let mut cap_end: usize = 1;
    let mut bytes: usize = 1;
    proof {
        lemma_closing_brace(rep@, 1);
        lemma_byte_offset_step(rep@, 0);
        lemma_byte_offset_mono(rep@, 1, rep@.len() as int);
    }
    while cap_end < rep.len() && rep[cap_end] != '}'
        invariant
            1 <= cap_end <= rep.len(),
            bytes == byte_offset(rep@, cap_end as int),
            closing_brace(rep@, 1) == closing_brace(rep@, cap_end as int),
            open_span.start + byte_offset(rep@, rep@.len() as int) <= usize::MAX,
        decreases rep.len() - cap_end,
    {
        proof {
            lemma_byte_offset_step(rep@, cap_end as int);
            lemma_byte_offset_mono(rep@, cap_end + 1, rep@.len() as int);
        }
        bytes += utf8_width(rep[cap_end]);
        cap_end += 1;
    }
    if cap_end >= rep.len() {
        return None;
    }
    proof {
        lemma_byte_offset_step(rep@, cap_end as int);
        lemma_byte_offset_mono(rep@, cap_end + 1, rep@.len() as int);
    }
    let name = string_of(slice_subrange(rep, 0, cap_end + 1));
    Some(Capture::new(name, open_span.end_offset(bytes + 1)))
}

/// A walk over the capture references of a replacement template, first to
/// last.
pub struct ReplaceCaptureIter {
    text: Vec<char>,
    pos: usize,
    offset: usize,
}

impl ReplaceCaptureIter {
    /// The template that is walked over.
    pub closed spec fn text(&self) -> Seq<char> {
        self.text@
    }

    /// The character of the template from which the search goes on.
    pub closed spec fn pos(&self) -> int {
        self.pos as int
    }

    /// The walk stands at a character of the template, or at its end.
    pub closed spec fn wf(&self) -> bool {
        &&& self.pos <= self.text@.len()
        &&& self.offset == byte_offset(self.text@, self.pos as int)
        &&& byte_offset(self.text@, self.text@.len() as int) <= usize::MAX
    }

    /// A walk over the template `s`, from its start.
    pub fn new(s: &str) -> (it: ReplaceCaptureIter)
        ensures
            it.wf(),
            it.text() == s@,
            it.pos() == 0,
    {
        let text = chars_of(s);
        let bytes = s.as_bytes();
        let len = bytes.len();
        proof {
            lemma_byte_offset_end(s@);
        }
        ReplaceCaptureIter { text, pos: 0, offset: 0 }
    }

    /// The next capture reference of the template, or `None` when none is
    /// left; after that the walk stays at the end.
    pub fn next(&mut self) -> (found: Option<Capture>)
        requires
            old(self).wf(),
        ensures
            final(self).wf(),
            final(self).text() == old(self).text(),
            match next_capture(old(self).text(), old(self).pos()) {
                None => found is None && final(self).pos() == old(self).text().len(),
                Some((start, end)) => {
                    &&& found matches Some(cap)
                    &&& cap.name@ == old(self).text().subrange(start, end)
                    &&& cap.span.start == byte_offset(old(self).text(), start)
                    &&& cap.span.end == byte_offset(old(self).text(), end)
                    &&& final(self).pos() == end
                    &&& old(self).pos() < end
                },
            },
    {
        let ghost t = self.text@;
        let ghost from = self.pos as int;
        let len = self.text.len();
        loop
            invariant
                self.wf(),
                self.text@ == t,
                len == t.len(),
                t == old(self).text(),
                from == old(self).pos(),
                from <= self.pos,
                next_capture(t, from) == next_capture(t, self.pos as int),
            decreases len - self.pos,
        {
            if self.pos >= len {
                return None;
            }
            let c = self.text[self.pos];
            proof {
                lemma_byte_offset_step(t, self.pos as int);
                lemma_byte_offset_mono(t, self.pos + 1, len as int);
            }
            self.offset += utf8_width(c);
            self.pos += 1;
            if c == '$' {
                if self.pos >= len {
                    return None;
                }
                let rep = slice_subrange(self.text.as_slice(), self.pos, len);
                let open_span = Span::start_at(self.offset);
                let first = rep[0];
                proof {
                    lemma_byte_offset_step(t, self.pos as int);
                    lemma_byte_offset_mono(t, self.pos + 1, len as int);
                    lemma_byte_offset_shift(t, self.pos as int, len - self.pos);
                    lemma_name_end_shift(t, self.pos as int, 0);
                    lemma_closing_brace_shift(t, self.pos as int, 1);
                    lemma_name_end(t, self.pos as int);
                    lemma_closing_brace(t, self.pos + 1);
                }
                let maybe_cap = if first == '$' {
                    self.offset += 1;
                    self.pos += 1;
                    None
                } else if first == '{' {
                    proof {
                        if closing_brace(t, self.pos + 1) < len {
                            lemma_byte_offset_shift(
                                t,
                                self.pos as int,
                                closing_brace(t, self.pos + 1) + 1 - self.pos,
                            );
                        }
                    }
                    find_cap_ref_braced(rep, open_span)
                } else {
                    proof {
                        lemma_letters_one_byte(t, self.pos as int, name_end(t, self.pos as int));
                        lemma_byte_offset_mono(t, name_end(t, self.pos as int), len as int);
                    }
                    find_cap_ref(rep, open_span)
                };
                if let Some(cap) = maybe_cap {
                    let ghost end = if first == '{' {
                        closing_brace(t, self.pos + 1) + 1
                    } else {
                        name_end(t, self.pos as int)
                    };
                    proof {
                        assert(next_capture(t, from) == Some((self.pos as int, end)));
                        assert(cap.name@ =~= t.subrange(self.pos as int, end));
                        assert(cap.span.end == byte_offset(t, end));
                    }
                    let mut remaining_bytes = cap.span.len();
                    while remaining_bytes > 0
                        invariant
                            self.wf(),
                            self.text@ == t,
                            len == t.len(),
                            self.pos <= end <= len,
                            remaining_bytes == byte_offset(t, end) - byte_offset(
                                t,
                                self.pos as int,
                            ),
                        decreases end - self.pos,
                    {
                        proof {
                            lemma_byte_offset_step(t, self.pos as int);
                            lemma_byte_offset_mono(t, self.pos + 1, end);
                            lemma_byte_offset_mono(t, self.pos + 1, len as int);
                        }
                        let w = utf8_width(self.text[self.pos]);
                        remaining_bytes -= w;
                        self.offset += w;
                        self.pos += 1;
                    }
                    proof {
                        if (self.pos as int) < end {
                            lemma_byte_offset_mono(t, self.pos as int, end);
                        }
                    }
                    return Some(cap);
                }
            }
        }
    }
}

/// The names of all capture references from `from` on, first to last, each
/// as the range of its characters in `t`.
pub open spec fn capture_refs(t: Seq<char>, from: int) -> Seq<(int, int)>
    decreases t.len() - from,
{
    match next_capture(t, from) {
        None => Seq::empty(),
        Some((start, end)) => {
            proof {
                lemma_next_capture(t, from);
            }
            seq![(start, end)] + capture_refs(t, end)
        },
    }
}

/// The capture references of the replacement template `s`, first to last:
/// each with its name and the bytes that the name takes in the template.
pub fn captures(s: &str) -> (found: Vec<Capture>)
    ensures
        found@.len() == capture_refs(s@, 0).len(),
        forall|i: int|
            0 <= i < found@.len() ==> {
                &&& (#[trigger] found@[i]).name@ == s@.subrange(
                    capture_refs(s@, 0)[i].0,
                    capture_refs(s@, 0)[i].1,
                )
                &&& found@[i].span.start == byte_offset(s@, capture_refs(s@, 0)[i].0)
                &&& found@[i].span.end == byte_offset(s@, capture_refs(s@, 0)[i].1)
            },
{
    let mut it = ReplaceCaptureIter::new(s);
    let mut found: Vec<Capture> = Vec::new();
    let ghost all = capture_refs(s@, 0);
    loop
        invariant
            it.wf(),
            it.text() == s@,
            0 <= it.pos(),
            all == capture_refs(s@, 0),
            found@.len() <= all.len(),
            all =~= all.take(found@.len() as int) + capture_refs(s@, it.pos()),
            forall|i: int|
                0 <= i < found@.len() ==> {
                    &&& (#[trigger] found@[i]).name@ == s@.subrange(all[i].0, all[i].1)
                    &&& found@[i].span.start == byte_offset(s@, all[i].0)
                    &&& found@[i].span.end == byte_offset(s@, all[i].1)
                },
        decreases s@.len() - it.pos(),
    {
        let ghost from = it.pos();
        let ghost n = found@.len() as int;
        match it.next() {
            None => {
                assert(capture_refs(s@, from) =~= Seq::<(int, int)>::empty());
                assert(all.take(n).len() == all.len());
                return found;
            },
            Some(cap) => {
                proof {
                    let (start, end) = next_capture(s@, from)->0;
                    assert(capture_refs(s@, from) == seq![(start, end)] + capture_refs(s@, end));
                    assert(all[n] == (start, end));
                    assert(all.take(n + 1) =~= all.take(n) + seq![(start, end)]);
                }
                found.push(cap);
            },
        }
    }
}

/// What holds of an ambiguous reference that `first_ambiguous` reports: it
/// lies in the text, starts with at least one digit, goes on after the
/// digits, and is made of capture letters, one byte each.
pub proof fn lemma_first_ambiguous(t: Seq<char>, from: int)
    requires
        0 <= from,
    ensures
        match first_ambiguous(t, from) {
            Some(a) => {
                &&& from < a.start < a.end <= t.len()
                &&& 0 < a.digits < a.end - a.start
                &&& forall|i: int| a.start <= i < a.end ==> is_cap_letter(#[trigger] t[i])
                &&& forall|i: int| a.start <= i < a.start + a.digits ==> is_digit(#[trigger] t[i])
                &&& !is_digit(t[a.start + a.digits])
                &&& byte_offset(t, a.end) == byte_offset(t, a.start) + (a.end - a.start)
            },
            None => true,
        },
    decreases t.len() - from,
{
    lemma_next_capture(t, from);
    match next_capture(t, from) {
        None => {},
        Some((start, end)) => {
            if is_ambiguous(t, start, end) {
                lemma_digits_end(t, start, end);
                lemma_name_end(t, start);
                lemma_letters_one_byte(t, start, end);
            } else {
                lemma_first_ambiguous(t, end);
            }
        },
    }
}

/// The character that stands for `c` in a diagnostic: a control picture for
/// a newline, a carriage return and a tab, else `c` itself.
pub open spec fn visible(c: char) -> char {
    if c == '\n' {
        '\u{240A}'
    } else if c == '\r' {
        '\u{240D}'
    } else if c == '\t' {
        '\u{2409}'
    } else {
        c
    }
}

/// `n` times the character `c`.
pub open spec fn repeated(c: char, n: int) -> Seq<char> {
    Seq::new(n as nat, |i: int| c)
}

fn visible_char(c: char) -> (v: char)
    ensures
        v == visible(c),
{
    if c == '\n' {
        '\u{240A}'
    } else if c == '\r' {
        '\u{240D}'
    } else if c == '\t' {
        '\u{2409}'
    } else {
        c
    }
}

fn push_all(out: &mut String, chars: &[char])
    ensures
        final(out)@ == old(out)@ + chars@,
{
    let mut i: usize = 0;
    while i < chars.len()
        invariant
            i <= chars.len(),
            out@ == old(out)@ + chars@.take(i as int),
        decreases chars.len() - i,
    {
        out.push(chars[i]);
        i += 1;
        assert(chars@.take(i as int) =~= chars@.take(i - 1).push(chars@[i - 1]));
    }
    assert(chars@.take(chars.len() as int) =~= chars@);
}

fn push_repeated(out: &mut String, c: char, n: usize)
    ensures
        final(out)@ == old(out)@ + repeated(c, n as int),
{
    let mut i: usize = 0;
    while i < n
        invariant
            i <= n,
            out@ == old(out)@ + repeated(c, i as int),
        decreases n - i,
    {
        out.push(c);
        i += 1;
        assert(repeated(c, i as int) =~= repeated(c, i - 1).push(c));
    }
}

/// The report of an ambiguous capture reference in a replacement template:
/// the template, the bytes that the reference takes in it, from its `$` to
/// the end of its name, and the number of digits that the name starts with.
#[derive(Debug)]
pub struct InvalidReplaceCapture {
    original_replace: String,
    invalid_ident: Span,
    num_leading_digits: usize,
}

impl InvalidReplaceCapture {
    /// The template that was refused.
    pub closed spec fn original(&self) -> Seq<char> {
        self.original_replace@
    }

    /// The bytes of the template that hold the reference: its `$` and its
    /// name.
    pub closed spec fn span(&self) -> Span {
        self.invalid_ident
    }

    /// The number of digits that the name starts with.
    pub closed spec fn digits(&self) -> int {
        self.num_leading_digits as int
    }

    /// The report is the one that the validation of its own template gives.
    pub closed spec fn wf(&self) -> bool {
        match first_ambiguous(self.original_replace@, 0) {
            Some(a) => {
                &&& self.invalid_ident.start == byte_offset(self.original_replace@, a.start - 1)
                &&& self.invalid_ident.end == byte_offset(self.original_replace@, a.end)
                &&& self.num_leading_digits == a.digits
            },
            None => false,
        }
    }

    /// The diagnostic in four lines: what is ambiguous; how to write it with
    /// braces; the template, with control characters made visible; and a row
    /// of `^` under the name, which starts one character behind the `$` and
    /// takes one byte less than the reference.
    pub open spec fn message_text(&self) -> Seq<char> {
        let t = self.original();
        let at = chars_before(t, self.span().start as int) + 1;
        let len = self.span().end - self.span().start - 1;
        let number = t.subrange(at, at + self.digits());
        let rest = t.subrange(at + self.digits(), at + len);
        "The numbered capture group `$"@ + number
            + "` in the replacement text is ambiguous.\n"@
            + "hint: Use curly braces to disambiguate it `${"@ + number + "}"@ + rest + "`.\n"@
            + t.map_values(|c: char| visible(c)) + "\n"@ + repeated(' ', at) + repeated('^', len)
    }

    /// The template that was refused.
    pub fn original_replace(&self) -> (s: &str)
        ensures
            s@ == self.original(),
    {
        self.original_replace.as_str()
    }

    /// The bytes of the template that hold the reference: its `$` and its
    /// name.
    pub fn invalid_ident(&self) -> (span: Span)
        ensures
            span == self.span(),
    {
        self.invalid_ident
    }

    /// The number of digits that the name starts with.
    pub fn num_leading_digits(&self) -> (n: usize)
        ensures
            n == self.digits(),
    {
        self.num_leading_digits
    }

    /// The diagnostic as text.
    pub fn message(&self) -> (out: String)
        requires
            self.wf(),
        ensures
            out@ == self.message_text(),
    {
        let chars = chars_of(self.original_replace.as_str());
        let ghost t = chars@;
        let ghost a = first_ambiguous(t, 0)->0;
        proof {
            lemma_first_ambiguous(t, 0);
            law_ambiguous_starts_with_digit(t, 0);
            lemma_chars_before_offset(t, a.start - 1);
            lemma_byte_offset_step(t, a.start - 1);
        }
        let at = index_at(&chars, self.invalid_ident.start) + 1;
        let len = self.invalid_ident.len() - 1;
        let split = at + self.num_leading_digits;
        let number = slice_subrange(chars.as_slice(), at, split);
        let rest = slice_subrange(chars.as_slice(), split, at + len);
        let mut out = String::new();
        out.append("The numbered capture group `$");
        push_all(&mut out, number);
        out.append("` in the replacement text is ambiguous.\n");
        out.append("hint: Use curly braces to disambiguate it `${");
        push_all(&mut out, number);
        out.append("}");
        push_all(&mut out, rest);
        out.append("`.\n");
        let ghost head = out@;
        let mut i: usize = 0;
        while i < chars.len()
            invariant
                i <= chars.len(),
                chars@ == t,
                out@ == head + t.take(i as int).map_values(|c: char| visible(c)),
            decreases chars.len() - i,
        {
            out.push(visible_char(chars[i]));
            i += 1;
            assert(t.take(i as int).map_values(|c: char| visible(c)) =~= t.take(i - 1).map_values(
                |c: char| visible(c),
            ).push(visible(t[i - 1])));
        }
        assert(t.take(chars.len() as int) =~= t);
        out.append("\n");
        push_repeated(&mut out, ' ', at);
        push_repeated(&mut out, '^', len);
        assert(out@ =~= self.message_text());
        out
    }
}

/// Looks for an ambiguous capture reference in the replacement template `s`
/// and reports the first one.
pub fn validate_replace(s: &str) -> (checked: Result<(), InvalidReplaceCapture>)
    ensures
        match first_ambiguous(s@, 0) {
            None => checked is Ok,
            Some(a) => {
                &&& checked matches Err(e)
                &&& e.wf()
                &&& e.original() == s@
                &&& e.span().start == byte_offset(s@, a.start - 1)
                &&& e.span().end == byte_offset(s@, a.end)
                &&& e.digits() == a.digits
            },
        },
{
    let mut it = ReplaceCaptureIter::new(s);
    loop
        invariant
            it.wf(),
            it.text() == s@,
            0 <= it.pos(),
            first_ambiguous(s@, 0) == first_ambiguous(s@, it.pos()),
        decreases s@.len() - it.pos(),
    {
        let ghost from = it.pos();
        proof {
            lemma_next_capture(s@, from);
        }
        match it.next() {
            None => {
                return Ok(());
            },
            Some(cap) => {
                let ghost (start, end) = next_capture(s@, from)->0;
                let name = chars_of(cap.name.as_str());
                proof {
                    lemma_digits_end_shift(s@, start, end, 0);
                    lemma_digits_end(s@, start, end);
                    lemma_byte_offset_step(s@, start - 1);
                }
                if is_ascii_digit(name[0]) {
                    let mut i: usize = 1;
                    while i < name.len() && is_ascii_digit(name[i])
                        invariant
                            1 <= i <= name.len(),
                            digits_end(name@, 0, name@.len() as int) == digits_end(
                                name@,
                                i as int,
                                name@.len() as int,
                            ),
                        decreases name.len() - i,
                    {
                        i += 1;
                    }
                    if i < name.len() {
                        return Err(
                            InvalidReplaceCapture {
                                original_replace: s.to_owned(),
                                invalid_ident: Span {
                                    start: cap.span.start - 1,
                                    end: cap.span.end,
                                },
                                num_leading_digits: i,
                            },
                        );
                    }
                }
            },
        }
    }
}

/// A template without a `$` holds no capture reference, so none that is
/// ambiguous.
pub proof fn law_no_dollar_is_valid(t: Seq<char>, from: int)
    requires
        0 <= from,
        forall|i: int| from <= i < t.len() ==> t[i] != '$',
    ensures
        next_capture(t, from) is None,
        first_ambiguous(t, from) is None,
    decreases t.len() - from,
{
    if from < t.len() {
        law_no_dollar_is_valid(t, from + 1);
    }
}

/// A reference in braces is never ambiguous: an ambiguous name starts with a
/// digit.
pub proof fn law_ambiguous_starts_with_digit(t: Seq<char>, from: int)
    requires
        0 <= from,
        first_ambiguous(t, from) is Some,
    ensures
        is_digit(t[first_ambiguous(t, from)->0.start]),
        t[first_ambiguous(t, from)->0.start - 1] == '$',
    decreases t.len() - from,
{
    lemma_next_capture(t, from);
    match next_capture(t, from) {
        None => {},
        Some((start, end)) => {
            if !is_ambiguous(t, start, end) {
                law_ambiguous_starts_with_digit(t, end);
            }
        },
    }
}

} // verus!
