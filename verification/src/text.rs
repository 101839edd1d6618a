//! Conversions between strings and sequences of characters, and the byte
//! offsets of characters in UTF-8 text.

use vstd::prelude::*;
use vstd::std_specs::iter::IteratorSpec;

verus! {

broadcast use vstd::string::group_string_axioms;

/// `String::push` appends one character.
pub assume_specification[ String::push ](s: &mut String, c: char)
    ensures
        final(s)@ == old(s)@.push(c),
;

/// The characters of `s`, in order.
pub fn chars_of(s: &str) -> (out: Vec<char>)
    ensures
        out@ == s@,
{
    let mut out: Vec<char> = Vec::new();
    let mut it = s.chars();
    loop
        invariant
            it.obeys_prophetic_iter_laws(),
            out@ + it.remaining() == s@,
            it.decrease() is Some,
        ensures
            out@ == s@,
        decreases it.decrease()->0,
    {
        match it.next() {
            Some(c) => {
                out.push(c);
            },
            None => {
                assert(it.remaining().len() == 0);
                break;
            },
        }
    }
    out
}

/// The string made of the characters of `v`, in order.
pub fn string_of(v: &[char]) -> (out: String)
    ensures
        out@ == v@,
{
    let mut out = String::new();
    let mut i: usize = 0;
    while i < v.len()
        invariant
            i <= v.len(),
            out@ == v@.take(i as int),
        decreases v.len() - i,
    {
        out.push(v[i]);
        i += 1;
    }
    out
}

/// The number of bytes that `c` takes in UTF-8.
pub open spec fn char_width(c: char) -> int {
    if (c as u32) < 0x80 {
        1
    } else if (c as u32) < 0x800 {
        2
    } else if (c as u32) < 0x10000 {
        3
    } else {
        4
    }
}

/// The byte offset at which character `i` of `chars` starts in the UTF-8
/// encoding of `chars`; for `i == chars.len()`, the length of the encoding.
pub open spec fn byte_offset(chars: Seq<char>, i: int) -> int {
    vstd::utf8::encode_utf8(chars.take(i)).len() as int
}

/// The number of characters of `chars` that start before byte offset `off`.
pub open spec fn chars_before(chars: Seq<char>, off: int) -> int
    decreases chars.len(),
{
    if chars.len() == 0 {
        0
    } else if byte_offset(chars, chars.len() - 1) < off {
        chars_before(chars.drop_last(), off) + 1
    } else {
        chars_before(chars.drop_last(), off)
    }
}

/// A character takes as many bytes as its width says.
pub proof fn lemma_encode_scalar_len(c: char)
    ensures
        vstd::utf8::encode_scalar(c as u32).len() == char_width(c),
{
    vstd::utf8::char_is_scalar(c);
}

/// The encoding of a text with one more character is the encoding of the
/// text, then that of the character.
pub proof fn lemma_encode_push(chars: Seq<char>, c: char)
    ensures
        vstd::utf8::encode_utf8(chars.push(c)) == vstd::utf8::encode_utf8(chars)
            + vstd::utf8::encode_scalar(c as u32),
    decreases chars.len(),
{
    if chars.len() == 0 {
        assert(chars.push(c).drop_first() =~= chars);
        assert(vstd::utf8::encode_utf8(chars) =~= Seq::<u8>::empty());
        assert(vstd::utf8::encode_utf8(chars.push(c)) =~= vstd::utf8::encode_scalar(c as u32)
            + vstd::utf8::encode_utf8(chars));
        assert(vstd::utf8::encode_utf8(chars.push(c)) =~= vstd::utf8::encode_utf8(chars)
            + vstd::utf8::encode_scalar(c as u32));
    } else {
        lemma_encode_push(chars.drop_first(), c);
        assert(chars.push(c).drop_first() =~= chars.drop_first().push(c));
        assert(chars.push(c)[0] == chars[0]);
        assert(vstd::utf8::encode_utf8(chars.push(c)) =~= vstd::utf8::encode_utf8(chars)
            + vstd::utf8::encode_scalar(c as u32));
    }
}

/// Each character moves the offset on by its width.
pub proof fn lemma_byte_offset_step(chars: Seq<char>, i: int)
    requires
        0 <= i < chars.len(),
    ensures
        byte_offset(chars, 0) == 0,
        byte_offset(chars, i + 1) == byte_offset(chars, i) + char_width(chars[i]),
        byte_offset(chars, i) < byte_offset(chars, i + 1),
{
    assert(chars.take(0) =~= Seq::<char>::empty());
    assert(chars.take(i + 1) =~= chars.take(i).push(chars[i]));
    lemma_encode_push(chars.take(i), chars[i]);
    lemma_encode_scalar_len(chars[i]);
}

/// Offsets grow with the index.
pub proof fn lemma_byte_offset_mono(chars: Seq<char>, i: int, j: int)
    requires
        0 <= i <= j <= chars.len(),
    ensures
        byte_offset(chars, i) <= byte_offset(chars, j),
        i < j ==> byte_offset(chars, i) < byte_offset(chars, j),
        byte_offset(chars, j) - byte_offset(chars, i) >= j - i,
    decreases j - i,
{
    if i < j {
        lemma_byte_offset_mono(chars, i, j - 1);
        lemma_byte_offset_step(chars, j - 1);
    }
}

/// The offset of the end is the length of the encoding.
pub proof fn lemma_byte_offset_end(chars: Seq<char>)
    ensures
        byte_offset(chars, chars.len() as int) == vstd::utf8::encode_utf8(chars).len(),
        byte_offset(chars, 0) == 0,
{
    assert(chars.take(chars.len() as int) =~= chars);
    assert(chars.take(0) =~= Seq::<char>::empty());
}

/// Of the first `n` characters, those that start before the offset of
/// character `k` are the first `k`, or all `n` where `n` is smaller.
pub proof fn lemma_chars_before_prefix(chars: Seq<char>, n: int, k: int)
    requires
        0 <= n <= chars.len(),
        0 <= k <= chars.len(),
    ensures
        chars_before(chars.take(n), byte_offset(chars, k)) == if n <= k { n } else { k },
    decreases n,
{
    if n > 0 {
        lemma_chars_before_prefix(chars, n - 1, k);
        assert(chars.take(n).drop_last() =~= chars.take(n - 1));
        assert(chars.take(n).take(n - 1) =~= chars.take(n - 1));
        if n - 1 < k {
            lemma_byte_offset_mono(chars, n - 1, k);
        } else {
            lemma_byte_offset_mono(chars, k, n - 1);
        }
    }
}

/// The characters that start before the offset of character `k` are the
/// first `k`.
pub proof fn lemma_chars_before_offset(chars: Seq<char>, k: int)
    requires
        0 <= k <= chars.len(),
    ensures
        chars_before(chars, byte_offset(chars, k)) == k,
{
    lemma_chars_before_prefix(chars, chars.len() as int, k);
    assert(chars.take(chars.len() as int) =~= chars);
}

/// The number of bytes that `c` takes in UTF-8.
pub fn utf8_width(c: char) -> (w: usize)
    ensures
        w == char_width(c),
        1 <= w <= 4,
{
    let v: u32 = c as u32;
    if v < 0x80 {
        1
    } else if v < 0x800 {
        2
    } else if v < 0x10000 {
        3
    } else {
        4
    }
}

} // verus!
