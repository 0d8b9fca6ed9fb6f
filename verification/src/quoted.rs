//! The reader of quoted strings.

use crate::error::{ParseError, Parsed};
use crate::lexis::string_of;
use vstd::prelude::*;

verus! {

/// The position of the first quote from `j` on that no backslash escapes, or
/// the length of `s` where there is none. A backslash takes the character
/// behind it along, whatever that is.
pub open spec fn closing_quote(s: Seq<char>, j: int) -> int
    decreases s.len() + 1 - j,
{
    if j < 0 || j >= s.len() {
        s.len() as int
    } else if s[j] == '"' {
        j
    } else if s[j] == '\\' {
        closing_quote(s, j + 2)
    } else {
        closing_quote(s, j + 1)
    }
}

/// A quoted string at `i`: the characters between the opening quote and the
/// quote that closes it, backslashes and escaped characters kept as they
/// stand. The cursor ends behind the closing quote.
pub open spec fn read_text(s: Seq<char>, i: int) -> Parsed<Seq<char>> {
    if 0 <= i < s.len() && s[i] == '"' && closing_quote(s, i + 1) < s.len() {
        Parsed::Done {
            value: s.subrange(i + 1, closing_quote(s, i + 1)),
            end: closing_quote(s, i + 1) + 1,
        }
    } else {
        Parsed::Failed { error: ParseError::UnterminatedString, at: i }
    }
}

pub proof fn lemma_closing_quote_bounds(s: Seq<char>, j: int)
    requires
        0 <= j,
    ensures
        closing_quote(s, j) <= s.len(),
        j <= closing_quote(s, j) || closing_quote(s, j) == s.len(),
        closing_quote(s, j) < s.len() ==> s[closing_quote(s, j)] == '"',
    decreases s.len() + 1 - j,
{
    if j < s.len() && s[j] != '"' {
        if s[j] == '\\' {
            lemma_closing_quote_bounds(s, j + 2);
        } else {
            lemma_closing_quote_bounds(s, j + 1);
        }
    }
}

/// A string that was read took its two quotes and its characters from the
/// text, and nothing else: the cursor moves by the length of the string and
/// two.
pub proof fn lemma_read_text_advances(s: Seq<char>, i: int)
    ensures
        read_text(s, i) matches Parsed::Done { value, end } ==> {
            &&& end == i + value.len() + 2
            &&& end <= s.len()
            &&& s[i] == '"'
            &&& s[end - 1] == '"'
            &&& value == s.subrange(i + 1, end - 1)
        },
{
    if 0 <= i < s.len() {
        lemma_closing_quote_bounds(s, i + 1);
    }
}

/// Reads the quoted string of `text` at `*cursor` and moves the cursor behind
/// its closing quote. On a refusal the cursor stays.
pub fn parse_text(text: &[char], cursor: &mut usize) -> (r: Result<String, ParseError>)
    ensures
        match read_text(text@, *old(cursor) as int) {
            Parsed::Done { value, end } => r matches Ok(string) && string@ == value
                && *final(cursor) == end,
            Parsed::Failed { error, at } => r == Err::<String, ParseError>(error)
                && *final(cursor) == at,
        },
{
    let start = *cursor;
    let len = text.len();
    if start >= len || text[start] != '"' {
        return Err(ParseError::UnterminatedString);
    }
    let mut j: usize = start + 1;
    while j < len && text[j] != '"'
        invariant
            len == text@.len(),
            start == *old(cursor) == *cursor,
            text@[start as int] == '"',
            start < j,
            closing_quote(text@, j as int) == closing_quote(text@, start + 1),
        decreases len - j,
    {
        if text[j] == '\\' {
            if j + 1 >= len {
                // The backslash is the last character: nothing closes the string.
                assert(closing_quote(text@, j + 2) == len);
                return Err(ParseError::UnterminatedString);
            }
            j += 2;
        } else {
            j += 1;
        }
    }
    if j >= len {
        return Err(ParseError::UnterminatedString);
    }
    let string = string_of(text, start + 1, j);
    *cursor = j + 1;
    Ok(string)
}

} // verus!
