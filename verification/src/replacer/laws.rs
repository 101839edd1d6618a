//! What holds of every replacement.

use crate::replacer::{limited, spliced, Change, Replacer};
use vstd::prelude::*;

verus! {

/// Content in which the pattern finds no match is left as it is, byte for
/// byte.
pub proof fn law_no_match_no_change(replacer: Replacer, content: Seq<u8>)
    requires
        replacer.changes(content).len() == 0,
    ensures
        replacer.replaced(content) == content,
{
}

/// Where the pattern finds no match in what a replacement gave, a second
/// pass gives the same again: one pass was enough.
pub proof fn law_second_pass_changes_nothing(replacer: Replacer, content: Seq<u8>)
    requires
        replacer.changes(replacer.replaced(content)).len() == 0,
    ensures
        replacer.replaced(replacer.replaced(content)) == replacer.replaced(content),
{
}

/// Under a limit, as many matches are replaced as the limit says, or all
/// where there are fewer; they are the leftmost ones, and the others stay as
/// they are.
pub proof fn law_limit_takes_the_leftmost(replacer: Replacer, content: Seq<u8>)
    requires
        replacer.limit() > 0,
    ensures
        ({
            let all = replacer.changes(content);
            let made = limited(all, replacer.limit());
            &&& made.len() == if replacer.limit() < all.len() {
                replacer.limit()
            } else {
                all.len() as int
            }
            &&& made == all.take(made.len() as int)
            &&& replacer.replaced(content) == spliced(content, made)
        }),
{
    let all = replacer.changes(content);
    assert(all.take(all.len() as int) =~= all);
}

/// Without a limit every match is replaced.
pub proof fn law_no_limit_takes_all(replacer: Replacer, content: Seq<u8>)
    requires
        replacer.limit() == 0,
    ensures
        replacer.replaced(content) == spliced(content, replacer.changes(content)),
{
}

/// One change in a haystack: what lies before it, its text, and what lies
/// behind it.
pub proof fn law_one_change(haystack: Seq<u8>, change: Change)
    requires
        0 <= change.start <= change.end <= haystack.len(),
    ensures
        spliced(haystack, seq![change]) == haystack.take(change.start) + change.text
            + haystack.skip(change.end),
{
    assert(seq![change].drop_last() =~= Seq::<Change>::empty());
    assert(seq![change].last() == change);
    assert(spliced(haystack.take(change.start), Seq::<Change>::empty()) == haystack.take(
        change.start,
    ));
}

} // verus!
