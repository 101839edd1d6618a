//! The escape codec: backslash escapes written out in a replacement text are
//! turned into the characters they stand for.

use crate::text::chars_of;
use vstd::prelude::*;
use vstd::slice::slice_subrange;

verus! {

/// `char::from_u32` gives the character with the given code, and `None` for a
/// number that is no Unicode scalar value: a surrogate, or one above 0x10FFFF.
pub assume_specification[ char::from_u32 ](i: u32) -> (c: Option<char>)
    ensures
        c == (if vstd::utf8::is_scalar(i) {
            Some(i as char)
        } else {
            None
        }),
;

/// The value of a hexadecimal digit.
pub open spec fn hex_digit(c: char) -> Option<int> {
    if '0' <= c && c <= '9' {
        Some(c as int - '0' as int)
    } else if 'a' <= c && c <= 'f' {
        Some(c as int - 'a' as int + 10)
    } else if 'A' <= c && c <= 'F' {
        Some(c as int - 'A' as int + 10)
    } else {
        None
    }
}

/// The number that `digits` spell in base 16, the last digit counting least;
/// `None` where one of them is no hexadecimal digit. No digits spell 0.
pub open spec fn hex_digits(digits: Seq<char>) -> Option<int>
    decreases digits.len(),
{
    if digits.len() == 0 {
        Some(0)
    } else {
        match (hex_digits(digits.drop_last()), hex_digit(digits.last())) {
            (Some(high), Some(low)) => Some(high * 16 + low),
            _ => None,
        }
    }
}

/// The number that `s` spells in base 16: a `+` may come first, and at least
/// one digit has to follow.
pub open spec fn hex_number(s: Seq<char>) -> Option<int> {
    let digits = if s.len() > 0 && s[0] == '+' {
        s.drop_first()
    } else {
        s
    };
    if digits.len() == 0 {
        None
    } else {
        hex_digits(digits)
    }
}

/// The character that a numeric escape of `length` places stands for, read
/// at the start of `rest`: the first `length` characters spell its code in
/// base 16. `None` where fewer characters are left, where they spell no
/// number, or where the number is the code of no character.
pub open spec fn escape_code(rest: Seq<char>, length: int) -> Option<char> {
    if length < 0 || rest.len() < length {
        None
    } else {
        match hex_number(rest.take(length)) {
            Some(v) => if 0 <= v <= u32::MAX && vstd::utf8::is_scalar(v as u32) {
                Some((v as u32) as char)
            } else {
                None
            },
            None => None,
        }
    }
}

/// The character that stands behind a backslash for another one.
pub open spec fn simple_escape(c: char) -> Option<char> {
    if c == 'n' {
        Some('\n')
    } else if c == 'r' {
        Some('\r')
    } else if c == 't' {
        Some('\t')
    } else if c == '\'' || c == '"' || c == '\\' {
        Some(c)
    } else {
        None
    }
}

/// The number of places of the numeric escape that `c` opens: four after
/// `\u`, two after `\x`, and none for another character.
pub open spec fn escape_places(c: char) -> int {
    if c == 'u' {
        4
    } else if c == 'x' {
        2
    } else {
        0
    }
}

/// The text `t` from character `from` on, with its escapes resolved.
///
/// A backslash and the character behind it stand for one character where
/// they form an escape: `\n`, `\r`, `\t`, `\'`, `\"`, `\\`, and the numeric
/// escapes `\xNN` and `\uNNNN`, which take up their own places and no more.
/// A backslash that opens no escape stays as it is, and so does what follows
/// it.
pub open spec fn unescaped(t: Seq<char>, from: int) -> Seq<char>
    decreases t.len() - from,
{
    if from < 0 || from >= t.len() {
        Seq::empty()
    } else if t[from] != '\\' {
        seq![t[from]] + unescaped(t, from + 1)
    } else if from + 1 >= t.len() {
        seq!['\\']
    } else {
        let c = t[from + 1];
        let n = escape_places(c);
        if simple_escape(c) is Some {
            seq![simple_escape(c)->0] + unescaped(t, from + 2)
        } else if n > 0 && escape_code(t.skip(from + 2), n) is Some {
            seq![escape_code(t.skip(from + 2), n)->0] + unescaped(t, from + 2 + n)
        } else {
            seq!['\\', c] + unescaped(t, from + 2)
        }
    }
}

fn hex_digit_value(c: char) -> (v: Option<u32>)
    ensures
        match hex_digit(c) {
            Some(d) => v == Some(d as u32) && 0 <= d < 16,
            None => v is None,
        },
{
    let code: u32 = c as u32;
    if '0' <= c && c <= '9' {
        Some(code - 0x30)
    } else if 'a' <= c && c <= 'f' {
        Some(code - 0x61 + 10)
    } else if 'A' <= c && c <= 'F' {
        Some(code - 0x41 + 10)
    } else {
        None
    }
}

/// A number that digits spell is no smaller than the number that the first
/// `k` of them spell.
proof fn lemma_hex_digits_grow(digits: Seq<char>, k: int)
    requires
        0 <= k <= digits.len(),
        hex_digits(digits) is Some,
    ensures
        hex_digits(digits.take(k)) is Some,
        0 <= hex_digits(digits.take(k))->0 <= hex_digits(digits)->0,
    decreases digits.len(),
{
    if k == digits.len() {
        assert(digits.take(k) =~= digits);
        lemma_hex_digits_grow_zero(digits);
    } else {
        lemma_hex_digits_grow(digits.drop_last(), k);
        assert(digits.drop_last().take(k) =~= digits.take(k));
    }
}

proof fn lemma_hex_digits_grow_zero(digits: Seq<char>)
    requires
        hex_digits(digits) is Some,
    ensures
        0 <= hex_digits(digits)->0,
    decreases digits.len(),
{
    if digits.len() > 0 {
        lemma_hex_digits_grow_zero(digits.drop_last());
    }
}

/// Reads a numeric escape of `length` places at the start of `rest`.
pub fn escape_n_chars(rest: &[char], length: usize) -> (found: Option<char>)
    ensures
        found == escape_code(rest@, length as int),
{
    if rest.len() < length {
        return None;
    }
    let start: usize = if length > 0 && rest[0] == '+' {
        1
    } else {
        0
    };
    let ghost s = rest@.take(length as int);
    let ghost digits = s.skip(start as int);
    proof {
        assert(s.len() == length);
        if length > 0 {
            assert(s[0] == rest@[0]);
            assert(s.drop_first() =~= s.skip(1));
        }
        assert(s.skip(0) =~= s);
        assert(hex_number(s) == if digits.len() == 0 {
            None
        } else {
            hex_digits(digits)
        });
    }
    if start == length {
        return None;
    }
    let mut value: u32 = 0;
    let mut i: usize = start;
    while i < length
        invariant
            start <= i <= length <= rest.len(),
            s == rest@.take(length as int),
            digits == s.skip(start as int),
            digits.len() == length - start,
            hex_number(s) == hex_digits(digits),
            hex_digits(digits.take(i - start)) == Some(value as int),
        decreases length - i,
    {
        proof {
            assert(digits.take(i + 1 - start).drop_last() =~= digits.take(i - start));
            assert(digits.take(i + 1 - start).last() == rest@[i as int]);
            assert(digits[i - start] == rest@[i as int]);
        }
        match hex_digit_value(rest[i]) {
            Some(d) => {
                if value > (u32::MAX - d) / 16 {
                    proof {
                        if hex_digits(digits) is Some {
                            lemma_hex_digits_grow(digits, i + 1 - start);
                        }
                    }
                    return None;
                }
                value = value * 16 + d;
            },
            None => {
                proof {
                    lemma_hex_digits_fail(digits, i - start);
                }
                return None;
            },
        }
        i += 1;
    }
    proof {
        assert(digits.take(length - start) =~= digits);
    }
    char::from_u32(value)
}

/// Digits of which one is no hexadecimal digit spell no number.
proof fn lemma_hex_digits_fail(digits: Seq<char>, k: int)
    requires
        0 <= k < digits.len(),
        hex_digit(digits[k]) is None,
    ensures
        hex_digits(digits) is None,
    decreases digits.len(),
{
    if k < digits.len() - 1 {
        lemma_hex_digits_fail(digits.drop_last(), k);
    }
}

/// Takes in a string with backslash escapes written out with literal
/// backslash characters and gives the string with the characters that the
/// escapes stand for.
pub fn unescape(input: &str) -> (out: String)
    ensures
        out@ == unescaped(input@, 0),
{
    let chars = chars_of(input);
    let ghost t = chars@;
    let len = chars.len();
    let mut s = String::new();
    let mut i: usize = 0;
    while i < len
        invariant
            i <= len,
            len == t.len(),
            chars@ == t,
            s@ + unescaped(t, i as int) == unescaped(t, 0),
        decreases len - i,
    {
        let c = chars[i];
        if c != '\\' {
            s.push(c);
            i += 1;
            assert(s@ + unescaped(t, i as int) =~= unescaped(t, 0));
            continue ;
        }
        if i + 1 >= len {
            s.push('\\');
            assert(s@ + unescaped(t, len as int) =~= unescaped(t, 0));
            i = len;
            continue ;
        }
        let next = chars[i + 1];
        let ghost before = s@;
        let ghost at = i as int;
        let rest = slice_subrange(chars.as_slice(), i + 2, len);
        assert(rest@ == t.skip(i + 2));
        let (escaped, taken): (Option<char>, usize) = if next == 'n' {
            (Some('\n'), 0)
        } else if next == 'r' {
            (Some('\r'), 0)
        } else if next == 't' {
            (Some('\t'), 0)
        } else if next == '\'' || next == '"' || next == '\\' {
            (Some(next), 0)
        } else if next == 'u' {
            (escape_n_chars(rest, 4), 4)
        } else if next == 'x' {
            (escape_n_chars(rest, 2), 2)
        } else {
            (None, 0)
        };
        match escaped {
            Some(e) => {
                s.push(e);
                i = i + 2 + taken;
                assert(s@ + unescaped(t, i as int) =~= unescaped(t, 0)) by {
                    assert(s@ == before + seq![e]);
                    assert(unescaped(t, at) == seq![e] + unescaped(t, i as int));
                }
            },
            None => {
                s.push('\\');
                s.push(next);
                i += 2;
                assert(s@ + unescaped(t, i as int) =~= unescaped(t, 0)) by {
                    assert(s@ =~= before + seq!['\\', next]);
                    assert(unescaped(t, at) == seq!['\\', next] + unescaped(t, at + 2));
                }
            },
        }
    }
    s
}

/// A text without a backslash holds no escape: it stays as it is.
pub proof fn law_no_backslash_no_change(t: Seq<char>, from: int)
    requires
        0 <= from <= t.len(),
        forall|i: int| from <= i < t.len() ==> t[i] != '\\',
    ensures
        unescaped(t, from) == t.skip(from),
    decreases t.len() - from,
{
    if from < t.len() {
        law_no_backslash_no_change(t, from + 1);
        assert(t.skip(from) =~= seq![t[from]] + t.skip(from + 1));
    } else {
        assert(t.skip(from) =~= Seq::<char>::empty());
    }
}

} // verus!
