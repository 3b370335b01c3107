//! Line and word counts of a text, and decimal numerals.

use vstd::prelude::*;

verus! {

/// Unicode's White_Space characters.
pub open spec fn is_white(c: char) -> bool {
    let v = c as u32;
    (9 <= v <= 13) || v == 32 || v == 0x85 || v == 0xa0 || v == 0x1680 || (0x2000 <= v <= 0x200a)
        || v == 0x2028 || v == 0x2029 || v == 0x202f || v == 0x205f || v == 0x3000
}

/// Whether `c` is white space.
pub fn is_white_char(c: char) -> (r: bool)
    ensures
        r == is_white(c),
{
    let v = c as u32;
    (9 <= v && v <= 13) || v == 32 || v == 0x85 || v == 0xa0 || v == 0x1680 || (0x2000 <= v && v
        <= 0x200a) || v == 0x2028 || v == 0x2029 || v == 0x202f || v == 0x205f || v == 0x3000
}

/// Position `i` of `s` starts a word: a character that is not white space,
/// first or after white space.
pub open spec fn starts_word(s: Seq<char>, i: int) -> bool {
    !is_white(s[i]) && (i == 0 || is_white(s[i - 1]))
}

/// The number of maximal runs of characters that are not white space.
pub open spec fn count_words(s: Seq<char>) -> nat
    decreases s.len(),
{
    if s.len() == 0 {
        0
    } else {
        count_words(s.drop_last()) + if starts_word(s, s.len() - 1) {
            1nat
        } else {
            0nat
        }
    }
}

pub open spec fn count_newlines(s: Seq<char>) -> nat
    decreases s.len(),
{
    if s.len() == 0 {
        0
    } else {
        count_newlines(s.drop_last()) + if s.last() == '\n' {
            1nat
        } else {
            0nat
        }
    }
}

/// The number of lines: each ends at a line feed or at the end of the text,
/// and a final line feed opens no new line.
pub open spec fn count_lines(s: Seq<char>) -> nat {
    if s.len() == 0 {
        0
    } else if s.last() == '\n' {
        count_newlines(s)
    } else {
        count_newlines(s) + 1
    }
}

proof fn lemma_newlines_bound(s: Seq<char>)
    ensures
        count_newlines(s) <= s.len(),
    decreases s.len(),
{
    if s.len() > 0 {
        lemma_newlines_bound(s.drop_last());
    }
}

/// Counts the lines and the words of `text`.
pub fn line_and_word_counts(text: &str) -> (r: (usize, usize))
    ensures
        r.0 == count_lines(text@),
        r.1 == count_words(text@),
{
    let len = text.unicode_len();
    let mut words: usize = 0;
    let mut newlines: usize = 0;
    let mut last: char = ' ';
    for c in it: text.chars()
        invariant
            len == text@.len(),
            it.seq() == text@,
            it.index() <= len,
            words <= it.index(),
            newlines <= it.index(),
            words == count_words(text@.subrange(0, it.index() as int)),
            newlines == count_newlines(text@.subrange(0, it.index() as int)),
            it.index() > 0 ==> last == text@[it.index() - 1],
            it.index() == 0 ==> last == ' ',
    {
        let ghost i = it.index();
        let ghost pre = text@.subrange(0, i as int);
        let ghost cur = text@.subrange(0, i + 1);
        assert(cur.drop_last() =~= pre);
        assert(c == text@[i as int]);
        let white = is_white_char(c);
        if !white && is_white_char(last) {
            words = words + 1;
        }
        if c == '\n' {
            newlines = newlines + 1;
        }
        last = c;
    }
    assert(text@.subrange(0, len as int) =~= text@);
    if len > 0 {
        proof {
            lemma_newlines_bound(text@.drop_last());
        }
    }
    let lines = if len == 0 {
        0
    } else if last == '\n' {
        newlines
    } else {
        newlines + 1
    };
    (lines, words)
}

pub open spec fn digit_char(d: int) -> char {
    "0123456789"@[d]
}

/// The decimal numeral of `n`, without leading zeros.
pub open spec fn decimal_of(n: nat) -> Seq<char>
    decreases n,
{
    if n < 10 {
        seq![digit_char(n as int)]
    } else {
        decimal_of(n / 10).push(digit_char((n % 10) as int))
    }
}

/// Writes `n` in decimal.
pub fn decimal_text(n: u128) -> (r: String)
    ensures
        r@ == decimal_of(n as nat),
    decreases n,
{
    let digits = "0123456789";
    proof {
        reveal_strlit("0123456789");
    }
    if n < 10 {
        let d = n as usize;
        let r = digits.substring_char(d, d + 1).to_owned();
        assert(r@ =~= seq![digit_char(n as int)]);
        r
    } else {
        let mut r = decimal_text(n / 10);
        let d = (n % 10) as usize;
        let digit = digits.substring_char(d, d + 1);
        assert(digit@ =~= seq![digit_char(d as int)]);
        r.append(digit);
        assert(r@ =~= decimal_of(n as nat));
        r
    }
}

} // verus!
