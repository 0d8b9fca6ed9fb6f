//! The reader of integer literals.

use crate::error::{ParseError, Parsed};
use crate::lexis::{digit_of, digit_value, is_digit};
use vstd::prelude::*;

verus! {

/// The end of the run of decimal digits that starts at `i`: `i` itself where
/// no digit stands there.
pub open spec fn digits_end(s: Seq<char>, i: int) -> int
    decreases s.len() - i,
{
    if 0 <= i < s.len() && is_digit(s[i]) {
        digits_end(s, i + 1)
    } else {
        i
    }
}

/// The number that a run of decimal digits denotes; the empty run denotes 0.
pub open spec fn decimal_value(digits: Seq<char>) -> int
    decreases digits.len(),
{
    if digits.len() == 0 {
        0
    } else {
        10 * decimal_value(digits.drop_last()) + digit_value(digits.last())
    }
}

/// An integer literal at `i`: an optional `-`, then every decimal digit that
/// follows. It is refused where no digit follows or where the number does
/// not fit in an `i32`.
pub open spec fn read_number(s: Seq<char>, i: int) -> Parsed<int> {
    let negative = 0 <= i < s.len() && s[i] == '-';
    let first = if negative {
        i + 1
    } else {
        i
    };
    let end = digits_end(s, first);
    let magnitude = decimal_value(s.subrange(first, end));
    let value = if negative {
        -magnitude
    } else {
        magnitude
    };
    if end == first || value < i32::MIN || value > i32::MAX {
        Parsed::Failed { error: ParseError::MalformedNumber, at: i }
    } else {
        Parsed::Done { value, end }
    }
}

pub proof fn lemma_digits_end_bounds(s: Seq<char>, i: int)
    requires
        0 <= i,
    ensures
        i <= digits_end(s, i),
        digits_end(s, i) <= s.len() || digits_end(s, i) == i,
        forall|k: int| i <= k < digits_end(s, i) ==> is_digit(#[trigger] s[k]),
        digits_end(s, i) < s.len() ==> !is_digit(s[digits_end(s, i)]),
    decreases s.len() - i,
{
    if i < s.len() && is_digit(s[i]) {
        lemma_digits_end_bounds(s, i + 1);
    }
}

/// One more digit multiplies the value by ten and adds the digit.
pub proof fn lemma_decimal_value_step(s: Seq<char>, from: int, to: int)
    requires
        0 <= from <= to < s.len(),
    ensures
        decimal_value(s.subrange(from, to + 1)) == 10 * decimal_value(s.subrange(from, to))
            + digit_value(s[to]),
{
    assert(s.subrange(from, to + 1).drop_last() =~= s.subrange(from, to));
}

/// A number that was read ends behind at least one character.
pub proof fn lemma_read_number_advances(s: Seq<char>, i: int)
    requires
        0 <= i,
    ensures
        read_number(s, i) matches Parsed::Done { end, .. } ==> i < end <= s.len(),
{
    let negative = i < s.len() && s[i] == '-';
    let first = if negative {
        i + 1
    } else {
        i
    };
    lemma_digits_end_bounds(s, first);
}

/// Reads the integer literal of `text` at `*start_index` and moves the cursor
/// behind it. On a refusal the cursor stays.
pub fn parse_number(start_index: &mut usize, text: &[char]) -> (r: Result<i32, ParseError>)
    ensures
        match read_number(text@, *old(start_index) as int) {
            Parsed::Done { value, end } => r matches Ok(number) && number == value
                && *final(start_index) == end,
            Parsed::Failed { error, at } => r == Err::<i32, ParseError>(error)
                && *final(start_index) == at,
        },
{
    let start = *start_index;
    let len = text.len();
    let negative = start < len && text[start] == '-';
    let first = if negative {
        start + 1
    } else {
        start
    };
    if first >= len {
        return Err(ParseError::MalformedNumber);
    }
    let mut j: usize = first;
    // The magnitude read so far, as long as it is at most 2^31.
    let mut magnitude: i64 = 0;
    let mut fits = true;
    assert(text@.subrange(first as int, first as int) =~= Seq::<char>::empty());
    while j < len
        invariant
            len == text@.len(),
            first <= j <= len,
            digits_end(text@, j as int) == digits_end(text@, first as int),
            forall|k: int| first <= k < j ==> is_digit(#[trigger] text@[k]),
            fits ==> 0 <= magnitude <= 0x8000_0000 && magnitude == decimal_value(
                text@.subrange(first as int, j as int),
            ),
            !fits ==> decimal_value(text@.subrange(first as int, j as int)) > 0x8000_0000,
        ensures
            j as int == digits_end(text@, first as int),
        decreases len - j,
    {
        match digit_of(text[j]) {
            None => {
                break ;
            },
            Some(d) => {
                proof {
                    lemma_decimal_value_step(text@, first as int, j as int);
                }
                if fits {
                    let next = magnitude * 10 + d as i64;
                    if next > 0x8000_0000 {
                        fits = false;
                    } else {
                        magnitude = next;
                    }
                }
                j += 1;
            },
        }
    }
    if j == first {
        return Err(ParseError::MalformedNumber);
    }
    if !fits || (!negative && magnitude == 0x8000_0000) {
        return Err(ParseError::MalformedNumber);
    }
    let value: i64 = if negative {
        -magnitude
    } else {
        magnitude
    };
    *start_index = j;
    Ok(value as i32)
}

} // verus!
