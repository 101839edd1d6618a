//! The preview of a replacement: each change between highlight marks, with
//! a few whole lines around it, and a mark where lines were left out.

use crate::replacer::engine::{highlight_end, highlight_start, Found};
use crate::replacer::{append_bytes, changes_in_order, changes_of, limited, Change};
use vstd::prelude::*;
use vstd::slice::slice_subrange;

verus! {

/// The number of whole lines that a preview keeps before and after a change.
pub const PREVIEW_CONTEXT: usize = 3;

/// The byte that ends a line.
pub open spec fn line_feed() -> u8 {
    0x0a
}

/// The bytes that are put before the text of a change: they switch a
/// terminal to green.
pub open spec fn opening() -> Seq<u8> {
    seq![0x1bu8, 0x5bu8, 0x33u8, 0x32u8, 0x6du8]
}

/// The bytes that are put after the text of a change: they switch a
/// terminal back.
pub open spec fn closing() -> Seq<u8> {
    seq![0x1bu8, 0x5bu8, 0x30u8, 0x6du8]
}

/// The line that stands for lines that were left out: three dots.
pub open spec fn elision() -> Seq<u8> {
    seq![0x2eu8, 0x2eu8, 0x2eu8, 0x0au8]
}

/// The length of the shortest start of `gap` that holds `lines` line feeds;
/// the length of `gap` where it holds fewer.
pub open spec fn after_len(gap: Seq<u8>, lines: int) -> int
    decreases gap.len(),
{
    if lines <= 0 || gap.len() == 0 {
        0
    } else if gap[0] == line_feed() {
        1 + after_len(gap.drop_first(), lines - 1)
    } else {
        1 + after_len(gap.drop_first(), lines)
    }
}

/// The length of the longest end of `gap` that holds no more than `lines`
/// line feeds.
pub open spec fn before_len(gap: Seq<u8>, lines: int) -> int
    decreases gap.len(),
{
    if gap.len() == 0 {
        0
    } else if gap.last() == line_feed() {
        if lines <= 0 {
            0
        } else {
            1 + before_len(gap.drop_last(), lines - 1)
        }
    } else {
        1 + before_len(gap.drop_last(), lines)
    }
}

/// What a preview shows of the bytes before the first change: the start of
/// the line in which the change begins, and `context` whole lines before it.
pub open spec fn shown_before(gap: Seq<u8>, context: int) -> Seq<u8> {
    gap.skip(gap.len() - before_len(gap, context))
}

/// What a preview shows of the bytes behind the last change: the rest of the
/// line in which the change ends, and `context` whole lines after it.
pub open spec fn shown_after(gap: Seq<u8>, context: int) -> Seq<u8> {
    gap.take(after_len(gap, context + 1))
}

/// What a preview shows of the bytes between two changes: all of them where
/// the lines that are kept after the first change reach those kept before
/// the second; else the lines after the first, the elision line, and the
/// lines before the second.
pub open spec fn shown_between(gap: Seq<u8>, context: int) -> Seq<u8> {
    if after_len(gap, context + 1) + before_len(gap, context) >= gap.len() {
        gap
    } else {
        shown_after(gap, context) + elision() + shown_before(gap, context)
    }
}

/// The preview from change `i` on: its text between the highlight marks,
/// then what is shown of the bytes up to the next change and the preview from
/// there on, or what is shown behind the last change.
pub open spec fn shown_from(haystack: Seq<u8>, changes: Seq<Change>, i: int, context: int) -> Seq<
    u8,
>
    decreases changes.len() - i,
{
    if i < 0 || i >= changes.len() {
        Seq::empty()
    } else if i + 1 < changes.len() {
        opening() + changes[i].text + closing() + shown_between(
            haystack.subrange(changes[i].end, changes[i + 1].start),
            context,
        ) + shown_from(haystack, changes, i + 1, context)
    } else {
        opening() + changes[i].text + closing() + shown_after(
            haystack.skip(changes[i].end),
            context,
        )
    }
}

/// The preview of the changes in a haystack; nothing where there is no
/// change.
pub open spec fn previewed(haystack: Seq<u8>, changes: Seq<Change>, context: int) -> Seq<u8> {
    if changes.len() == 0 {
        Seq::empty()
    } else {
        shown_before(haystack.take(changes[0].start), context) + shown_from(
            haystack,
            changes,
            0,
            context,
        )
    }
}

proof fn lemma_after_len(gap: Seq<u8>, lines: int)
    ensures
        0 <= after_len(gap, lines) <= gap.len(),
    decreases gap.len(),
{
    if lines > 0 && gap.len() > 0 {
        if gap[0] == line_feed() {
            lemma_after_len(gap.drop_first(), lines - 1);
        } else {
            lemma_after_len(gap.drop_first(), lines);
        }
    }
}

proof fn lemma_before_len(gap: Seq<u8>, lines: int)
    ensures
        0 <= before_len(gap, lines) <= gap.len(),
    decreases gap.len(),
{
    if gap.len() > 0 {
        if gap.last() == line_feed() {
            if lines > 0 {
                lemma_before_len(gap.drop_last(), lines - 1);
            }
        } else {
            lemma_before_len(gap.drop_last(), lines);
        }
    }
}

/// The number of bytes from `from` on, below `to`, that are shown after a
/// change: up to and including the line feed that ends the last of `lines`
/// lines.
fn count_after(haystack: &[u8], from: usize, to: usize, lines: usize) -> (n: usize)
    requires
        from <= to <= haystack@.len(),
    ensures
        n == after_len(haystack@.subrange(from as int, to as int), lines as int),
        n <= to - from,
{
    let ghost gap = haystack@.subrange(from as int, to as int);
    let mut left = lines;
    let mut i: usize = from;
    proof {
        assert(gap.skip(0) =~= gap);
        lemma_after_len(gap, lines as int);
    }
    while i < to && left > 0
        invariant
            from <= i <= to <= haystack@.len(),
            gap == haystack@.subrange(from as int, to as int),
            after_len(gap, lines as int) == (i - from) + after_len(gap.skip(i - from), left as int),
        decreases to - i,
    {
        proof {
            assert(gap.skip(i - from).drop_first() =~= gap.skip(i + 1 - from));
            assert(gap.skip(i - from)[0] == haystack@[i as int]);
        }
        if haystack[i] == 0x0a {
            left -= 1;
        }
        i += 1;
    }
    i - from
}

/// The number of bytes up to `to`, not below `from`, that are shown before
/// a change: the longest run that holds no more than `lines` line feeds.
fn count_before(haystack: &[u8], from: usize, to: usize, lines: usize) -> (n: usize)
    requires
        from <= to <= haystack@.len(),
    ensures
        n == before_len(haystack@.subrange(from as int, to as int), lines as int),
        n <= to - from,
{
    let ghost gap = haystack@.subrange(from as int, to as int);
    let mut left = lines;
    let mut i: usize = to;
    proof {
        assert(gap.take(gap.len() as int) =~= gap);
        lemma_before_len(gap, lines as int);
    }
    while i > from
        invariant
            from <= i <= to <= haystack@.len(),
            gap == haystack@.subrange(from as int, to as int),
            before_len(gap, lines as int) == (to - i) + before_len(gap.take(i - from), left as int),
        decreases i - from,
    {
        proof {
            assert(gap.take(i - from).drop_last() =~= gap.take(i - 1 - from));
            assert(gap.take(i - from).last() == haystack@[i - 1]);
        }
        if haystack[i - 1] == 0x0a {
            if left == 0 {
                return to - i;
            }
            left -= 1;
        }
        i -= 1;
    }
    to - i
}

/// Appends what is shown of the bytes between two changes, which lie from
/// `from` up to `to`.
fn push_between(out: &mut Vec<u8>, haystack: &[u8], from: usize, to: usize, context: usize)
    requires
        from <= to <= haystack@.len(),
        context < usize::MAX,
    ensures
        final(out)@ == old(out)@ + shown_between(
            haystack@.subrange(from as int, to as int),
            context as int,
        ),
{
    let ghost gap = haystack@.subrange(from as int, to as int);
    let tail = count_after(haystack, from, to, context + 1);
    let lead = count_before(haystack, from, to, context);
    if tail >= to - from - lead {
        append_bytes(out, slice_subrange(haystack, from, to));
    } else {
        append_bytes(out, slice_subrange(haystack, from, from + tail));
        out.push(0x2e);
        out.push(0x2e);
        out.push(0x2e);
        out.push(0x0a);
        append_bytes(out, slice_subrange(haystack, to - lead, to));
        proof {
            assert(haystack@.subrange(from as int, from + tail) =~= shown_after(gap, context as int));
            assert(haystack@.subrange(to - lead, to as int) =~= shown_before(gap, context as int));
            assert(out@ =~= old(out)@ + (shown_after(gap, context as int) + elision()
                + shown_before(gap, context as int)));
        }
    }
}

/// Appends what is shown of the bytes behind the last change, which ends at
/// `from`.
fn push_after(out: &mut Vec<u8>, haystack: &[u8], from: usize, context: usize)
    requires
        from <= haystack@.len(),
        context < usize::MAX,
    ensures
        final(out)@ == old(out)@ + shown_after(haystack@.skip(from as int), context as int),
{
    let tail = count_after(haystack, from, haystack.len(), context + 1);
    append_bytes(out, slice_subrange(haystack, from, from + tail));
    proof {
        let gap = haystack@.skip(from as int);
        assert(haystack@.subrange(from as int, haystack@.len() as int) =~= gap);
        assert(haystack@.subrange(from as int, from + tail) =~= shown_after(gap, context as int));
    }
}

/// Appends what is shown of the bytes before the first change, which starts
/// at `to`.
fn push_before(out: &mut Vec<u8>, haystack: &[u8], to: usize, context: usize)
    requires
        to <= haystack@.len(),
    ensures
        final(out)@ == old(out)@ + shown_before(haystack@.take(to as int), context as int),
{
    let lead = count_before(haystack, 0, to, context);
    append_bytes(out, slice_subrange(haystack, to - lead, to));
    proof {
        let gap = haystack@.take(to as int);
        assert(haystack@.subrange(0, to as int) =~= gap);
        assert(haystack@.subrange(to - lead, to as int) =~= shown_before(gap, context as int));
    }
}

/// Appends the text of a change between the highlight marks `on` and
/// `off`.
fn push_highlighted(out: &mut Vec<u8>, text: &[u8], on: &[u8], off: &[u8])
    requires
        on@ == opening(),
        off@ == closing(),
    ensures
        final(out)@ == old(out)@ + (opening() + text@ + closing()),
{
    append_bytes(out, on);
    append_bytes(out, text);
    append_bytes(out, off);
    assert(out@ =~= old(out)@ + (opening() + text@ + closing()));
}

/// The span of match `i`, and where the next match starts, lie in the
/// haystack in this order.
proof fn lemma_in_order(found: Seq<Found>, len: int, i: int)
    requires
        changes_in_order(changes_of(found), len),
        0 <= i < found.len(),
    ensures
        found[i].start <= found[i].end <= len,
        i + 1 < found.len() ==> found[i].end <= found[i + 1].start <= len,
{
    assert(changes_of(found)[i].start <= changes_of(found)[i].end);
    if i + 1 < found.len() {
        assert(changes_of(found)[i].end <= changes_of(found)[i + 1].start);
        assert(changes_of(found)[i + 1].start <= changes_of(found)[i + 1].end);
    }
}

/// The preview from change `i` on, taken apart: the highlighted change and
/// what is shown behind it, then the preview from the next change on.
proof fn lemma_shown_from(haystack: Seq<u8>, changes: Seq<Change>, i: int, context: int)
    requires
        0 <= i < changes.len(),
    ensures
        i + 1 < changes.len() ==> shown_from(haystack, changes, i, context) == (opening()
            + changes[i].text + closing()) + shown_between(
            haystack.subrange(changes[i].end, changes[i + 1].start),
            context,
        ) + shown_from(haystack, changes, i + 1, context),
        i + 1 == changes.len() ==> shown_from(haystack, changes, i, context) == (opening()
            + changes[i].text + closing()) + shown_after(haystack.skip(changes[i].end), context),
        i + 1 == changes.len() ==> shown_from(haystack, changes, i + 1, context)
            == Seq::<u8>::empty(),
{
}

/// Appends the highlighted text of match `i` and what is shown behind it.
fn push_change(
    out: &mut Vec<u8>,
    haystack: &[u8],
    found: &Vec<Found>,
    i: usize,
    count: usize,
    context: usize,
    on: &[u8],
    off: &[u8],
)
    requires
        changes_in_order(changes_of(found@), haystack@.len() as int),
        i < count <= found@.len(),
        context < usize::MAX,
        on@ == opening(),
        off@ == closing(),
    ensures
        final(out)@ + shown_from(
            haystack@,
            changes_of(found@).take(count as int),
            i + 1,
            context as int,
        ) == old(out)@ + shown_from(
            haystack@,
            changes_of(found@).take(count as int),
            i as int,
            context as int,
        ),
{
    let ghost changes = changes_of(found@).take(count as int);
    let ghost later = shown_from(haystack@, changes, i + 1, context as int);
    proof {
        lemma_in_order(found@, haystack@.len() as int, i as int);
        lemma_shown_from(haystack@, changes, i as int, context as int);
    }
    let m = &found[i];
    push_highlighted(out, m.text.as_slice(), on, off);
    let ghost marked = out@;
    if i + 1 < count {
        push_between(out, haystack, m.end, found[i + 1].start, context);
        assert(out@ + later =~= old(out)@ + shown_from(haystack@, changes, i as int, context as int));
    } else {
        push_after(out, haystack, m.end, context);
        assert(out@ + later =~= old(out)@ + shown_from(haystack@, changes, i as int, context as int));
    }
}

/// The preview of the first `limit` of the matches in `found`, or of all
/// where `limit` is 0: each text between the highlight marks, with `context`
/// whole lines around it, and the elision line where lines between two
/// changes are left out. Nothing where no match was found.
pub fn preview(haystack: &[u8], found: &Vec<Found>, limit: usize, context: usize) -> (out: Vec<u8>)
    requires
        changes_in_order(changes_of(found@), haystack@.len() as int),
        context < usize::MAX,
    ensures
        out@ == previewed(haystack@, limited(changes_of(found@), limit as int), context as int),
{
    let count = if limit > 0 && limit < found.len() {
        limit
    } else {
        found.len()
    };
    let ghost changes = limited(changes_of(found@), limit as int);
    assert(changes =~= changes_of(found@).take(count as int));
    let mut out: Vec<u8> = Vec::new();
    if count == 0 {
        return out;
    }
    proof {
        lemma_in_order(found@, haystack@.len() as int, 0);
    }
    push_before(&mut out, haystack, found[0].start, context);
    let on = highlight_start();
    let off = highlight_end();
    let mut i: usize = 0;
    while i < count
        invariant
            i <= count <= found.len(),
            count > 0,
            context < usize::MAX,
            changes == changes_of(found@).take(count as int),
            changes_in_order(changes_of(found@), haystack@.len() as int),
            on@ == opening(),
            off@ == closing(),
            out@ + shown_from(haystack@, changes, i as int, context as int) == previewed(
                haystack@,
                changes,
                context as int,
            ),
        decreases count - i,
    {
        push_change(&mut out, haystack, found, i, count, context, on.as_slice(), off.as_slice());
        i += 1;
    }
    assert(out@ + Seq::<u8>::empty() =~= out@);
    out
}

/// The number of line feeds in `bytes`.
pub open spec fn line_feeds(bytes: Seq<u8>) -> int
    decreases bytes.len(),
{
    if bytes.len() == 0 {
        0
    } else if bytes[0] == line_feed() {
        1 + line_feeds(bytes.drop_first())
    } else {
        line_feeds(bytes.drop_first())
    }
}

/// One more byte at the end is one more line feed where it is one.
proof fn lemma_line_feeds_push(bytes: Seq<u8>, last: u8)
    ensures
        line_feeds(bytes.push(last)) == line_feeds(bytes) + if last == line_feed() {
            1int
        } else {
            0int
        },
    decreases bytes.len(),
{
    if bytes.len() == 0 {
        assert(bytes.push(last).drop_first() =~= Seq::<u8>::empty());
        assert(line_feeds(Seq::<u8>::empty()) == 0);
    } else {
        lemma_line_feeds_push(bytes.drop_first(), last);
        assert(bytes.push(last).drop_first() =~= bytes.drop_first().push(last));
    }
}

/// What is shown behind a change is a bounded window of whole lines: it holds
/// no more line feeds than the rest of the changed line and `context` lines
/// have, and where something is left out, it ends with a line feed.
pub proof fn law_window_after(gap: Seq<u8>, context: int)
    requires
        context >= 0,
    ensures
        shown_after(gap, context).len() <= gap.len(),
        line_feeds(shown_after(gap, context)) <= context + 1,
        shown_after(gap, context).len() < gap.len() ==> shown_after(gap, context).last()
            == line_feed(),
{
    lemma_window_after(gap, context + 1);
}

proof fn lemma_window_after(gap: Seq<u8>, lines: int)
    requires
        lines >= 0,
    ensures
        0 <= after_len(gap, lines) <= gap.len(),
        line_feeds(gap.take(after_len(gap, lines))) <= lines,
        0 < lines && after_len(gap, lines) < gap.len() ==> after_len(gap, lines) > 0 && gap[after_len(
            gap,
            lines,
        ) - 1] == line_feed(),
    decreases gap.len(),
{
    if lines <= 0 || gap.len() == 0 {
        assert(gap.take(0) =~= Seq::<u8>::empty());
    } else {
        let rest = gap.drop_first();
        let left = if gap[0] == line_feed() {
            lines - 1
        } else {
            lines
        };
        lemma_window_after(rest, left);
        let n = after_len(rest, left);
        assert(gap.take(n + 1).drop_first() =~= rest.take(n));
        assert(gap.take(n + 1)[0] == gap[0]);
        if n > 0 {
            assert(rest[n - 1] == gap[n]);
        }
    }
}

/// What is shown before a change is a bounded window of whole lines: it holds
/// no more line feeds than `context` lines have, and where something is left
/// out, it starts behind a line feed.
pub proof fn law_window_before(gap: Seq<u8>, context: int)
    requires
        context >= 0,
    ensures
        shown_before(gap, context).len() <= gap.len(),
        line_feeds(shown_before(gap, context)) <= context,
        shown_before(gap, context).len() < gap.len() ==> gap[gap.len() - shown_before(
            gap,
            context,
        ).len() - 1] == line_feed(),
    decreases gap.len(),
{
    lemma_before_len(gap, context);
    if gap.len() == 0 {
    } else if gap.last() == line_feed() && context <= 0 {
        assert(shown_before(gap, context) =~= Seq::<u8>::empty());
    } else {
        let rest = gap.drop_last();
        let left = if gap.last() == line_feed() {
            context - 1
        } else {
            context
        };
        law_window_before(rest, left);
        lemma_before_len(rest, left);
        let n = before_len(rest, left);
        assert(shown_before(gap, context) =~= shown_before(rest, left).push(gap.last()));
        lemma_line_feeds_push(shown_before(rest, left), gap.last());
        if n < rest.len() {
            assert(rest[rest.len() - n - 1] == gap[gap.len() - (n + 1) - 1]);
        }
    }
}

/// Bytes between two changes that are not shown in full are shown as two
/// bounded windows with the elision line between them.
pub proof fn law_elision_between_windows(gap: Seq<u8>, context: int)
    requires
        context >= 0,
        shown_between(gap, context) != gap,
    ensures
        shown_between(gap, context) == shown_after(gap, context) + elision() + shown_before(
            gap,
            context,
        ),
        shown_after(gap, context).len() + shown_before(gap, context).len() < gap.len(),
{
    lemma_after_len(gap, context + 1);
    lemma_before_len(gap, context);
}

} // verus!
