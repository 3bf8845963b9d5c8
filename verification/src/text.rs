//! Characters of a string, white space, letter case and trimming.

use vstd::prelude::*;

verus! {

/// Whether `c` is white space: one of the characters to which Unicode gives
/// the property White_Space.
pub open spec fn white_space(c: char) -> bool {
    ||| '\u{9}' <= c <= '\u{D}'
    ||| c == ' '
    ||| c == '\u{85}'
    ||| c == '\u{A0}'
    ||| c == '\u{1680}'
    ||| '\u{2000}' <= c <= '\u{200A}'
    ||| c == '\u{2028}'
    ||| c == '\u{2029}'
    ||| c == '\u{202F}'
    ||| c == '\u{205F}'
    ||| c == '\u{3000}'
}

/// Whether `c` is white space.
pub fn is_space(c: char) -> (space: bool)
    ensures
        space == white_space(c),
{
    ('\u{9}' <= c && c <= '\u{D}') || c == ' ' || c == '\u{85}' || c == '\u{A0}' || c
        == '\u{1680}' || ('\u{2000}' <= c && c <= '\u{200A}') || c == '\u{2028}' || c
        == '\u{2029}' || c == '\u{202F}' || c == '\u{205F}' || c == '\u{3000}'
}

/// `String::push`: the character is appended at the end.
pub assume_specification[ String::push ](s: &mut String, c: char)
    ensures
        final(s)@ == old(s)@.push(c),
;

/// The characters of `s`, in order.
pub fn chars_of(s: &str) -> (chars: Vec<char>)
    ensures
        chars@ == s@,
{
    broadcast use vstd::string::group_string_axioms;

    let mut chars: Vec<char> = Vec::new();
    for c in it: s.chars()
        invariant
            it.seq() == s@,
            chars@ == s@.take(it.index()),
    {
        chars.push(c);
    }
    chars
}

/// `c` with an ASCII capital letter turned into its small letter.
pub open spec fn lower(c: char) -> char {
    if 'A' <= c <= 'Z' {
        ((c as u8) + 32) as char
    } else {
        c
    }
}

/// `text` with every ASCII capital letter turned into its small letter.
pub open spec fn lowered(text: Seq<char>) -> Seq<char> {
    Seq::new(text.len(), |i: int| lower(text[i]))
}

/// The number of white-space characters that `text` starts with.
pub open spec fn leading(text: Seq<char>) -> nat
    decreases text.len(),
{
    if text.len() > 0 && white_space(text.first()) {
        1 + leading(text.drop_first())
    } else {
        0
    }
}

/// The number of white-space characters that `text` ends with.
pub open spec fn trailing(text: Seq<char>) -> nat
    decreases text.len(),
{
    if text.len() > 0 && white_space(text.last()) {
        1 + trailing(text.drop_last())
    } else {
        0
    }
}

/// `text` without the white space at its two ends.
pub open spec fn trimmed(text: Seq<char>) -> Seq<char> {
    if leading(text) == text.len() {
        Seq::empty()
    } else {
        text.subrange(leading(text) as int, text.len() - trailing(text))
    }
}

/// `leading(text)` is the position of the first character that is not white
/// space, or the length where there is none.
pub proof fn lemma_leading(text: Seq<char>, n: int)
    requires
        0 <= n <= text.len(),
        forall|i: int| 0 <= i < n ==> white_space(text[i]),
        n < text.len() ==> !white_space(text[n]),
    ensures
        leading(text) == n,
    decreases n,
{
    if n > 0 {
        let rest = text.drop_first();
        assert forall|i: int| 0 <= i < n - 1 implies white_space(rest[i]) by {
            assert(rest[i] == text[i + 1]);
        }
        lemma_leading(rest, n - 1);
    }
}

/// `trailing(text)` counts back to the last character that is not white
/// space, or over the whole text where there is none.
pub proof fn lemma_trailing(text: Seq<char>, n: int)
    requires
        0 <= n <= text.len(),
        forall|i: int| text.len() - n <= i < text.len() ==> white_space(text[i]),
        n < text.len() ==> !white_space(text[text.len() - n - 1]),
    ensures
        trailing(text) == n,
    decreases n,
{
    if n > 0 {
        let rest = text.drop_last();
        assert forall|i: int| rest.len() - (n - 1) <= i < rest.len() implies white_space(
            rest[i],
        ) by {
            assert(rest[i] == text[i]);
        }
        lemma_trailing(rest, n - 1);
    }
}

/// Turns an ASCII capital letter into its small letter.
pub fn lower_char(c: char) -> (l: char)
    ensures
        l == lower(c),
{
    if 'A' <= c && c <= 'Z' {
        ((c as u8) + 32) as char
    } else {
        c
    }
}

/// Where `trimmed(text)` lies in `text`.
pub fn trim_bounds(text: &Vec<char>) -> (ends: (usize, usize))
    ensures
        ends.0 <= ends.1 <= text.len(),
        text@.subrange(ends.0 as int, ends.1 as int) == trimmed(text@),
        ends.0 == leading(text@),
        ends.1 == if leading(text@) == text@.len() {
            text@.len()
        } else {
            (text@.len() - trailing(text@)) as nat
        },
{
    let n = text.len();
    let mut from: usize = 0;
    while from < n && is_space(text[from])
        invariant
            from <= n == text.len(),
            forall|i: int| 0 <= i < from ==> white_space(text@[i]),
        decreases n - from,
    {
        from += 1;
    }
    proof {
        lemma_leading(text@, from as int);
    }
    if from == n {
        return (n, n);
    }
    let mut to: usize = n;
    while is_space(text[to - 1])
        invariant
            from < to <= n == text.len(),
            !white_space(text@[from as int]),
            forall|i: int| to <= i < n ==> white_space(text@[i]),
        decreases to,
    {
        to -= 1;
    }
    proof {
        lemma_trailing(text@, n - to);
    }
    (from, to)
}

/// Whether the characters of `text` from `from` up to `to` spell `word`.
pub fn spells(text: &Vec<char>, from: usize, to: usize, word: &str) -> (same: bool)
    requires
        from <= to <= text.len(),
    ensures
        same == (text@.subrange(from as int, to as int) == word@),
{
    broadcast use vstd::string::group_string_axioms;

    let ghost part = text@.subrange(from as int, to as int);
    let mut at: usize = from;
    let mut same = true;
    assert(part.take(0) == word@.take(0));
    for c in it: word.chars()
        invariant
            it.seq() == word@,
            part == text@.subrange(from as int, to as int),
            from <= to <= text.len(),
            same ==> at == from + it.index() && at <= to,
            same == (it.index() <= part.len() && part.take(it.index()) == word@.take(it.index())),
    {
        if same {
            if at < to && text[at] == c {
                at += 1;
                proof {
                    let k = it.index();
                    assert(part.take(k + 1) == part.take(k).push(part[k]));
                    assert(word@.take(k + 1) == word@.take(k).push(c));
                }
            } else {
                same = false;
                proof {
                    let k = it.index();
                    if k < part.len() {
                        assert(part.take(k + 1)[k] != word@.take(k + 1)[k]);
                    }
                }
            }
        } else {
            proof {
                let k = it.index();
                if k + 1 <= part.len() && part.take(k + 1) == word@.take(k + 1) {
                    assert(part.take(k) == part.take(k + 1).take(k));
                    assert(word@.take(k) == word@.take(k + 1).take(k));
                }
            }
        }
    }
    proof {
        assert(word@.take(word@.len() as int) == word@);
        if same && at == to {
            assert(part.take(part.len() as int) == part);
        }
        if part == word@ {
            assert(part.take(part.len() as int) == part);
        }
    }
    same && at == to
}

} // verus!
