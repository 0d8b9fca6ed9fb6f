//! Helpers on the level of characters: finding a digit, a character or a
//! word from a position on, and passing between strings and characters.

use vstd::prelude::*;

verus! {

/// Whether `c` is one of the ten decimal digits.
pub open spec fn is_digit(c: char) -> bool {
    '0' <= c && c <= '9'
}

/// The number that the decimal digit `c` stands for.
pub open spec fn digit_value(c: char) -> int {
    c as int - '0' as int
}

/// The first position from `i` on that holds a decimal digit, or the length
/// of `s` where none follows.
pub open spec fn next_digit(s: Seq<char>, i: int) -> int
    decreases s.len() - i,
{
    if i < 0 || i >= s.len() {
        s.len() as int
    } else if is_digit(s[i]) {
        i
    } else {
        next_digit(s, i + 1)
    }
}

/// The first position from `i` on that holds no space, or the length of `s`
/// where only spaces follow.
pub open spec fn skip_spaces(s: Seq<char>, i: int) -> int
    decreases s.len() - i,
{
    if i < 0 || i >= s.len() {
        s.len() as int
    } else if s[i] == ' ' {
        skip_spaces(s, i + 1)
    } else {
        i
    }
}

/// The first position from `i` on that holds `c`, or the length of `s` where
/// `c` does not follow.
pub open spec fn next_char(s: Seq<char>, i: int, c: char) -> int
    decreases s.len() - i,
{
    if i < 0 || i >= s.len() {
        s.len() as int
    } else if s[i] == c {
        i
    } else {
        next_char(s, i + 1, c)
    }
}

/// Whether `word` stands in `s` at position `i`, character for character.
pub open spec fn has_word_at(s: Seq<char>, i: int, word: Seq<char>) -> bool {
    &&& 0 <= i
    &&& i + word.len() <= s.len()
    &&& s.subrange(i, i + word.len()) == word
}

/// The letter of `s` that stands `j` places behind `i`.
pub open spec fn letter_at(s: Seq<char>, i: int, j: int) -> char {
    s[i + j]
}

/// A word that stands at a position stands there letter by letter.
pub proof fn lemma_word_letters(s: Seq<char>, i: int, word: Seq<char>)
    ensures
        has_word_at(s, i, word) ==> forall|j: int|
            0 <= j < word.len() ==> #[trigger] letter_at(s, i, j) == word[j],
{
    if has_word_at(s, i, word) {
        assert forall|j: int| 0 <= j < word.len() implies #[trigger] letter_at(s, i, j)
            == word[j] by {
            assert(s.subrange(i, i + word.len())[j] == s[i + j]);
        }
    }
}

/// Where the next digit is: not before `i`, not behind the text, and with no
/// digit in between.
pub proof fn lemma_next_digit_bounds(s: Seq<char>, i: int)
    requires
        0 <= i,
    ensures
        i <= next_digit(s, i) || next_digit(s, i) == s.len(),
        next_digit(s, i) <= s.len(),
        next_digit(s, i) < s.len() ==> is_digit(s[next_digit(s, i)]),
        forall|k: int| i <= k < next_digit(s, i) && k < s.len() ==> !is_digit(#[trigger] s[k]),
    decreases s.len() - i,
{
    if i < s.len() && !is_digit(s[i]) {
        lemma_next_digit_bounds(s, i + 1);
    }
}

/// Where the spaces end: not before `i` and not behind the text.
pub proof fn lemma_skip_spaces_bounds(s: Seq<char>, i: int)
    requires
        0 <= i,
    ensures
        i <= skip_spaces(s, i) || skip_spaces(s, i) == s.len(),
        skip_spaces(s, i) <= s.len(),
        skip_spaces(s, i) < s.len() ==> s[skip_spaces(s, i)] != ' ',
    decreases s.len() - i,
{
    if i < s.len() && s[i] == ' ' {
        lemma_skip_spaces_bounds(s, i + 1);
    }
}

/// Where the next `c` is: not before `i`, not behind the text, and with no
/// `c` in between.
pub proof fn lemma_next_char_bounds(s: Seq<char>, i: int, c: char)
    requires
        0 <= i,
    ensures
        next_char(s, i, c) <= s.len(),
        i <= next_char(s, i, c) || next_char(s, i, c) == s.len(),
        next_char(s, i, c) < s.len() ==> s[next_char(s, i, c)] == c,
        forall|k: int| i <= k < next_char(s, i, c) && k < s.len() ==> #[trigger] s[k] != c,
    decreases s.len() - i,
{
    if i < s.len() && s[i] != c {
        lemma_next_char_bounds(s, i + 1, c);
    }
}

/// The value of a decimal digit, or `None` for any other character.
pub fn digit_of(c: char) -> (d: Option<u8>)
    ensures
        is_digit(c) <==> d is Some,
        d matches Some(v) ==> v as int == digit_value(c) && v <= 9,
{
    if c >= '0' && c <= '9' {
        Some((c as u32 - '0' as u32) as u8)
    } else {
        None
    }
}

/// Moves from `from` to the next decimal digit of `text`.
pub fn find_digit(text: &[char], from: usize) -> (at: usize)
    ensures
        at as int == next_digit(text@, from as int),
{
    let mut i: usize = from;
    while i < text.len()
        invariant
            next_digit(text@, i as int) == next_digit(text@, from as int),
        decreases text@.len() - i,
    {
        if digit_of(text[i]).is_some() {
            return i;
        }
        i += 1;
    }
    text.len()
}

/// Moves from `from` over the spaces of `text`.
pub fn find_non_space(text: &[char], from: usize) -> (at: usize)
    ensures
        at as int == skip_spaces(text@, from as int),
{
    let mut i: usize = from;
    while i < text.len()
        invariant
            skip_spaces(text@, i as int) == skip_spaces(text@, from as int),
        decreases text@.len() - i,
    {
        if text[i] != ' ' {
            return i;
        }
        i += 1;
    }
    text.len()
}

/// Moves from `from` to the next `c` of `text`.
pub fn find_char(text: &[char], from: usize, c: char) -> (at: usize)
    ensures
        at as int == next_char(text@, from as int, c),
{
    let mut i: usize = from;
    while i < text.len()
        invariant
            next_char(text@, i as int, c) == next_char(text@, from as int, c),
        decreases text@.len() - i,
    {
        if text[i] == c {
            return i;
        }
        i += 1;
    }
    text.len()
}

/// Looks for `c` in `text` from `from` up to, but not at, `limit`.
pub(crate) fn find_char_before(text: &[char], from: usize, limit: usize, c: char) -> (at: Option<usize>)
    requires
        limit <= text@.len(),
    ensures
        match at {
            Some(p) => p == next_char(text@, from as int, c) && p < limit,
            None => next_char(text@, from as int, c) >= limit,
        },
{
    let mut i: usize = from;
    while i < limit
        invariant
            limit <= text@.len(),
            next_char(text@, i as int, c) == next_char(text@, from as int, c),
        decreases limit - i,
    {
        if text[i] == c {
            return Some(i);
        }
        i += 1;
    }
    proof {
        lemma_next_char_bounds(text@, i as int, c);
    }
    None
}

/// Compares the characters of `text` from `at` on with `word`.
pub fn starts_with_at(text: &[char], at: usize, word: &str) -> (b: bool)
    ensures
        b == has_word_at(text@, at as int, word@),
{
    let len = text.len();
    if at > len {
        return false;
    }
    let mut j: usize = 0;
    for c in it: word.chars()
        invariant
            len == text@.len(),
            it.seq() == word@,
            j == it.index(),
            at + j <= len,
            forall|k: int| 0 <= k < j ==> text@[at + k] == word@[k],
    {
        if j >= len - at {
            // The text ends before the word does.
            return false;
        }
        if text[at + j] != c {
            assert(at + word@.len() <= len ==> text@.subrange(at as int, at + word@.len())[j as int]
                != word@[j as int]);
            return false;
        }
        j += 1;
    }
    assert(text@.subrange(at as int, at + word@.len()) =~= word@);
    true
}

/// The characters of `text`, in order.
pub fn chars_of(text: &str) -> (chars: Vec<char>)
    ensures
        chars@ == text@,
{
    let mut chars: Vec<char> = Vec::new();
    for c in it: text.chars()
        invariant
            chars@ == it.seq().take(it.index() as int),
            it.seq() == text@,
    {
        chars.push(c);
    }
    chars
}

/// The string made of `chars[from..to]`.
pub(crate) fn string_of(chars: &[char], from: usize, to: usize) -> (s: String)
    requires
        from <= to <= chars@.len(),
    ensures
        s@ == chars@.subrange(from as int, to as int),
{
    let mut s = String::new();
    let mut i: usize = from;
    while i < to
        invariant
            from <= i <= to <= chars@.len(),
            s@ == chars@.subrange(from as int, i as int),
        decreases to - i,
    {
        s.push(chars[i]);
        i += 1;
    }
    s
}

} // verus!
