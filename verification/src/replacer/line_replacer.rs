//! Replacement line by line: a line that matches a pattern gives way to a
//! text as a whole.

use crate::replacer::engine::{
    compile_text, is_match_text, text_matches, text_pattern, text_refused,
};
use crate::text::{chars_of, string_of};
use vstd::prelude::*;
use vstd::slice::slice_subrange;

verus! {

/// A pattern with the text that takes the place of a line that matches.
#[derive(Debug)]
pub struct Pair {
    regex: regex::Regex,
    rep: String,
}

/// What is done to the lines.
#[derive(Debug)]
pub enum Opt {
    ReplaceLineIfMatch,
    AnotherOption,
}

/// A pair as plain values: the pattern and the text.
pub struct PairView {
    pub pattern: Seq<char>,
    pub rep: Seq<char>,
}

impl View for Pair {
    type V = PairView;

    closed spec fn view(&self) -> PairView {
        PairView { pattern: text_pattern(self.regex), rep: self.rep@ }
    }
}

impl Pair {
    /// The pair for what the regex engine gave for a pattern: there is one
    /// where the engine took the pattern.
    pub fn from_compiled(compiled: Option<regex::Regex>, rep: String) -> (made: Option<Pair>)
        ensures
            match compiled {
                Some(regex) => made matches Some(pair) && pair@ == (PairView {
                    pattern: text_pattern(regex),
                    rep: rep@,
                }),
                None => made is None,
            },
    {
        match compiled {
            Some(regex) => Some(Pair { regex, rep }),
            None => None,
        }
    }

    /// The pair for a pattern: there is one unless the regex engine refuses
    /// the pattern.
    pub fn new(pattern: &str, rep: String) -> (made: Option<Pair>)
        ensures
            made is Some <==> !text_refused(pattern@),
            made matches Some(pair) ==> pair@ == (PairView { pattern: pattern@, rep: rep@ }),
    {
        Pair::from_compiled(compile_text(pattern), rep)
    }
}

/// The index of the first line feed of `t`; `t.len()` where it has none.
pub open spec fn line_end(t: Seq<char>) -> int
    decreases t.len(),
{
    if t.len() == 0 || t[0] == '\n' {
        0
    } else {
        1 + line_end(t.drop_first())
    }
}

/// The first line of `t`, without its end: without the line feed, and
/// without a carriage return right before the line feed.
pub open spec fn first_line(t: Seq<char>) -> Seq<char> {
    let end = line_end(t);
    if 0 < end < t.len() && t[end - 1] == '\r' {
        t.take(end - 1)
    } else {
        t.take(end)
    }
}

/// The lines of `t`, each without its end. A text that ends with a line feed
/// has no empty line after it.
pub open spec fn lines_of(t: Seq<char>) -> Seq<Seq<char>>
    decreases t.len(),
{
    if t.len() == 0 {
        Seq::empty()
    } else if line_end(t) < t.len() {
        proof {
            lemma_line_end(t);
        }
        seq![first_line(t)] + lines_of(t.skip(line_end(t) + 1))
    } else {
        seq![first_line(t)]
    }
}

/// The line after each of the pairs, in their order, had its turn: where
/// the pattern of a pair matches the line as it then is, the text of the
/// pair takes its place.
pub open spec fn line_replaced(pairs: Seq<Pair>, line: Seq<char>) -> Seq<char>
    decreases pairs.len(),
{
    if pairs.len() == 0 {
        line
    } else {
        let before = line_replaced(pairs.drop_last(), line);
        if text_matches(pairs.last()@.pattern, before) {
            pairs.last()@.rep
        } else {
            before
        }
    }
}

/// The lines after `passes` passes of the pairs over each of them.
pub open spec fn lines_replaced(pairs: Seq<Pair>, lines: Seq<Seq<char>>, passes: int) -> Seq<
    Seq<char>,
>
    decreases passes,
{
    if passes <= 0 {
        lines
    } else {
        lines_replaced(pairs, lines, passes - 1).map_values(
            |line: Seq<char>| line_replaced(pairs, line),
        )
    }
}

/// The texts as sequences of characters.
pub open spec fn texts_of(lines: Seq<String>) -> Seq<Seq<char>> {
    lines.map_values(|line: String| line@)
}

/// Where the first line ends: in the text, at a line feed or at the end,
/// with no line feed before.
pub proof fn lemma_line_end(t: Seq<char>)
    ensures
        0 <= line_end(t) <= t.len(),
        line_end(t) < t.len() ==> t[line_end(t)] == '\n',
        forall|i: int| 0 <= i < line_end(t) ==> t[i] != '\n',
    decreases t.len(),
{
    if t.len() > 0 && t[0] != '\n' {
        lemma_line_end(t.drop_first());
        assert forall|i: int| 0 <= i < line_end(t) implies t[i] != '\n' by {
            if i > 0 {
                assert(t.drop_first()[i - 1] == t[i]);
            }
        }
    }
}

/// A run without a line feed, up to a line feed or the end, is the first
/// line.
proof fn lemma_line_end_is(t: Seq<char>, n: int)
    requires
        0 <= n <= t.len(),
        forall|i: int| 0 <= i < n ==> t[i] != '\n',
        n < t.len() ==> t[n] == '\n',
    ensures
        line_end(t) == n,
    decreases n,
{
    if n > 0 {
        assert forall|i: int| 0 <= i < n - 1 implies t.drop_first()[i] != '\n' by {
            assert(t.drop_first()[i] == t[i + 1]);
        }
        lemma_line_end_is(t.drop_first(), n - 1);
    }
}

/// The lines of a text, each without its end.
pub fn split_lines(content: &str) -> (lines: Vec<String>)
    ensures
        texts_of(lines@) == lines_of(content@),
{
    let chars = chars_of(content);
    let ghost t = chars@;
    let mut lines: Vec<String> = Vec::new();
    let mut from: usize = 0;
    proof {
        assert(t.skip(0) =~= t);
        assert(texts_of(lines@) + lines_of(t) =~= lines_of(t));
    }
    while from < chars.len()
        invariant
            from <= chars.len(),
            chars@ == t,
            texts_of(lines@) + lines_of(t.skip(from as int)) == lines_of(t),
        decreases chars.len() - from,
    {
        let ghost rest = t.skip(from as int);
        let mut end: usize = from;
        while end < chars.len() && chars[end] != '\n'
            invariant
                from <= end <= chars.len(),
                chars@ == t,
                forall|i: int| from <= i < end ==> t[i] != '\n',
            decreases chars.len() - end,
        {
            end += 1;
        }
        proof {
            assert forall|i: int| 0 <= i < end - from implies rest[i] != '\n' by {
                assert(rest[i] == t[from + i]);
            }
            lemma_line_end_is(rest, end - from);
        }
        let cut = if end < chars.len() && end > from && chars[end - 1] == '\r' {
            end - 1
        } else {
            end
        };
        let line = string_of(slice_subrange(chars.as_slice(), from, cut));
        proof {
            assert(line@ =~= first_line(rest));
            assert(texts_of(lines@.push(line)) =~= texts_of(lines@) + seq![line@]);
            if end < chars.len() {
                assert(rest.skip(end - from + 1) =~= t.skip(end + 1));
            } else {
                assert(lines_of(t.skip(chars.len() as int)) =~= Seq::<Seq<char>>::empty());
            }
        }
        lines.push(line);
        from = if end < chars.len() {
            end + 1
        } else {
            end
        };
    }
    proof {
        assert(lines_of(t.skip(from as int)) =~= Seq::<Seq<char>>::empty());
        assert(texts_of(lines@) + Seq::<Seq<char>>::empty() =~= texts_of(lines@));
    }
    lines
}

/// One pass of the pairs over each of the lines.
fn replace_line_if_match(pairs: &[Pair], lines: &mut Vec<String>)
    ensures
        texts_of(final(lines)@) == texts_of(old(lines)@).map_values(
            |line: Seq<char>| line_replaced(pairs@, line),
        ),
{
    let ghost given = texts_of(lines@);
    let mut i: usize = 0;
    while i < lines.len()
        invariant
            i <= lines.len(),
            lines@.len() == given.len(),
            forall|k: int| 0 <= k < i ==> (#[trigger] lines@[k])@ == line_replaced(pairs@, given[k]),
            forall|k: int| i <= k < lines@.len() ==> (#[trigger] lines@[k])@ == given[k],
        decreases lines.len() - i,
    {
        let mut line = lines[i].clone();
        let mut j: usize = 0;
        while j < pairs.len()
            invariant
                j <= pairs.len(),
                i < lines.len(),
                lines@.len() == given.len(),
                line@ == line_replaced(pairs@.take(j as int), given[i as int]),
            decreases pairs.len() - j,
        {
            proof {
                assert(pairs@.take(j + 1).drop_last() =~= pairs@.take(j as int));
                assert(pairs@.take(j + 1).last() == pairs@[j as int]);
            }
            if is_match_text(&pairs[j].regex, line.as_str()) {
                line = pairs[j].rep.clone();
            }
            j += 1;
        }
        assert(pairs@.take(pairs.len() as int) =~= pairs@);
        lines.set(i, line);
        i += 1;
    }
    assert(texts_of(lines@) =~= given.map_values(|line: Seq<char>| line_replaced(pairs@, line)));
}

/// The lines of `content` after what `opts` ask for was done to them, one
/// option after the other. Only `ReplaceLineIfMatch` can be asked for.
pub fn replace_line(pairs: &[Pair], opts: Vec<Opt>, content: &str) -> (lines: Vec<String>)
    requires
        forall|i: int| 0 <= i < opts@.len() ==> opts@[i] is ReplaceLineIfMatch,
    ensures
        texts_of(lines@) == lines_replaced(pairs@, lines_of(content@), opts@.len() as int),
{
    let mut lines = split_lines(content);
    let mut i: usize = 0;
    while i < opts.len()
        invariant
            i <= opts.len(),
            forall|k: int| 0 <= k < opts@.len() ==> opts@[k] is ReplaceLineIfMatch,
            texts_of(lines@) == lines_replaced(pairs@, lines_of(content@), i as int),
        decreases opts.len() - i,
    {
        match opts[i] {
            Opt::ReplaceLineIfMatch => {
                replace_line_if_match(pairs, &mut lines);
            },
            Opt::AnotherOption => {},
        }
        i += 1;
    }
    lines
}

} // verus!
