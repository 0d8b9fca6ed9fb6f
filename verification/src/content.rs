//! The reader of lists of items. A list may hold containers, whose lists are
//! read by the same reader, down to a fixed depth.

use crate::error::{ParseError, Parsed};
use crate::keyword::{keyword_at, lemma_spelling_nonempty, match_keyword, ValueKind};
use crate::lexis::{
    find_digit, find_non_space, lemma_next_digit_bounds, lemma_skip_spaces_bounds, next_digit,
    skip_spaces,
};
use crate::model::{content_view, items_view, lemma_items_view_push, Item, ItemView};
use crate::number::{lemma_read_number_advances, parse_number, read_number};
use crate::quoted::{lemma_read_text_advances, parse_text, read_text};
use vstd::prelude::*;

verus! {

/// How many containers may stand inside one another below the list that is
/// read first.
pub const MAX_DEPTH: usize = 64;

/// The attributes of one item, read from `k` on into `item`, which has its id
/// already. Between attributes spaces are passed over. A `}` ends the item
/// and its list, a `,` ends the item alone, and so does the end of the text,
/// which ends the list too; the flag in the result says whether the list is
/// ended. Anything else has to be a keyword, followed by spaces or none and
/// then by its value; a keyword that is read twice keeps the later value.
/// `depth` says how many more containers may be entered.
///
/// The test on where a nested list ended is there for the definition alone:
/// a list never ends before its start nor behind the text
/// (`lemma_read_items_bounds`).
pub open spec fn read_attributes(s: Seq<char>, k: int, depth: nat, item: ItemView) -> Parsed<
    (ItemView, bool),
>
    decreases s.len() - k,
{
    if k < 0 || k >= s.len() {
        Parsed::Done { value: (item, true), end: k }
    } else if s[k] == '}' {
        Parsed::Done { value: (item, true), end: k + 1 }
    } else if s[k] == ',' {
        Parsed::Done { value: (item, false), end: k + 1 }
    } else if s[k] == ' ' {
        read_attributes(s, k + 1, depth, item)
    } else {
        match keyword_at(s, k) {
            None => Parsed::Failed { error: ParseError::UnknownKeyword, at: k },
            Some(keyword) => {
                let v = skip_spaces(s, k + keyword.spelling().len());
                proof {
                    lemma_spelling_nonempty(keyword);
                    lemma_skip_spaces_bounds(s, k + keyword.spelling().len());
                    lemma_read_number_advances(s, v);
                    lemma_read_text_advances(s, v);
                }
                match keyword.kind() {
                    ValueKind::Integer => match read_number(s, v) {
                        Parsed::Failed { error, at } => Parsed::Failed { error, at },
                        Parsed::Done { value, end } => read_attributes(
                            s,
                            end,
                            depth,
                            item.with_number(keyword, value),
                        ),
                    },
                    ValueKind::Text => match read_text(s, v) {
                        Parsed::Failed { error, at } => Parsed::Failed { error, at },
                        Parsed::Done { value, end } => read_attributes(
                            s,
                            end,
                            depth,
                            item.with_text(keyword, value),
                        ),
                    },
                    ValueKind::Items => if depth == 0 {
                        Parsed::Failed { error: ParseError::NestingTooDeep, at: k }
                    } else {
                        match read_items(s, v, (depth - 1) as nat, Seq::empty()) {
                            Parsed::Failed { error, at } => Parsed::Failed { error, at },
                            Parsed::Done { value, end } => if v <= end <= s.len() {
                                read_attributes(s, end, depth, item.with_content(value))
                            } else {
                                Parsed::Done { value: (item.with_content(value), true), end }
                            },
                        }
                    },
                }
            },
        }
    }
}

/// A list of items, read from `i` on and appended to `acc`. Whatever stands
/// before the next decimal digit is passed over, the opening brace and the
/// separators among it; where no digit follows, the list is complete. The
/// digit starts the id of an item, behind which its attributes are read.
///
/// The test on where the attributes ended is there for the definition alone
/// (`lemma_read_attributes_bounds`).
pub open spec fn read_items(s: Seq<char>, i: int, depth: nat, acc: Seq<ItemView>) -> Parsed<
    Seq<ItemView>,
>
    decreases s.len() - i,
{
    if i < 0 || i >= s.len() {
        Parsed::Done { value: acc, end: i }
    } else {
        let j = next_digit(s, i);
        proof {
            lemma_next_digit_bounds(s, i);
            lemma_read_number_advances(s, j);
        }
        if j >= s.len() {
            Parsed::Done { value: acc, end: s.len() as int }
        } else {
            match read_number(s, j) {
                Parsed::Failed { error, at } => Parsed::Failed { error, at },
                Parsed::Done { value: id, end: k } => match read_attributes(
                    s,
                    k,
                    depth,
                    ItemView::new(id),
                ) {
                    Parsed::Failed { error, at } => Parsed::Failed { error, at },
                    Parsed::Done { value: (item, closed), end } => if closed || !(k <= end
                        <= s.len()) {
                        Parsed::Done { value: acc.push(item), end }
                    } else {
                        read_items(s, end, depth, acc.push(item))
                    },
                },
            }
        }
    }
}

/// Attributes are read forwards and inside the text: a result or a failure
/// lies between the start and the end of the text, and a result that starts
/// inside the text takes at least one character.
pub proof fn lemma_read_attributes_bounds(s: Seq<char>, k: int, depth: nat, item: ItemView)
    requires
        0 <= k <= s.len(),
    ensures
        match read_attributes(s, k, depth, item) {
            Parsed::Done { end, .. } => k <= end <= s.len() && (k < s.len() ==> k < end),
            Parsed::Failed { at, .. } => k <= at <= s.len(),
        },
    decreases s.len() - k,
{
    if k >= s.len() || s[k] == '}' || s[k] == ',' {
    } else if s[k] == ' ' {
        lemma_read_attributes_bounds(s, k + 1, depth, item);
    } else {
        match keyword_at(s, k) {
            None => {},
            Some(keyword) => {
                let v = skip_spaces(s, k + keyword.spelling().len());
                lemma_spelling_nonempty(keyword);
                lemma_skip_spaces_bounds(s, k + keyword.spelling().len());
                lemma_read_number_advances(s, v);
                lemma_read_text_advances(s, v);
                match keyword.kind() {
                    ValueKind::Integer => match read_number(s, v) {
                        Parsed::Failed { .. } => {},
                        Parsed::Done { value, end } => {
                            lemma_read_attributes_bounds(
                                s,
                                end,
                                depth,
                                item.with_number(keyword, value),
                            );
                        },
                    },
                    ValueKind::Text => match read_text(s, v) {
                        Parsed::Failed { .. } => {},
                        Parsed::Done { value, end } => {
                            lemma_read_attributes_bounds(
                                s,
                                end,
                                depth,
                                item.with_text(keyword, value),
                            );
                        },
                    },
                    ValueKind::Items => if depth > 0 {
                        lemma_read_items_bounds(s, v, (depth - 1) as nat, Seq::empty());
                        match read_items(s, v, (depth - 1) as nat, Seq::empty()) {
                            Parsed::Failed { .. } => {},
                            Parsed::Done { value, end } => {
                                lemma_read_attributes_bounds(
                                    s,
                                    end,
                                    depth,
                                    item.with_content(value),
                                );
                            },
                        }
                    },
                }
            },
        }
    }
}

/// A list is read forwards and inside the text.
pub proof fn lemma_read_items_bounds(s: Seq<char>, i: int, depth: nat, acc: Seq<ItemView>)
    requires
        0 <= i <= s.len(),
    ensures
        match read_items(s, i, depth, acc) {
            Parsed::Done { end, .. } => i <= end <= s.len(),
            Parsed::Failed { at, .. } => i <= at <= s.len(),
        },
    decreases s.len() - i,
{
    if i < s.len() {
        let j = next_digit(s, i);
        lemma_next_digit_bounds(s, i);
        lemma_read_number_advances(s, j);
        if j < s.len() {
            match read_number(s, j) {
                Parsed::Failed { .. } => {},
                Parsed::Done { value: id, end: k } => {
                    lemma_read_attributes_bounds(s, k, depth, ItemView::new(id));
                    match read_attributes(s, k, depth, ItemView::new(id)) {
                        Parsed::Failed { .. } => {},
                        Parsed::Done { value: (item, closed), end } => {
                            if !closed {
                                lemma_read_items_bounds(s, end, depth, acc.push(item));
                            }
                        },
                    }
                },
            }
        }
    }
}

/// What a list is appended to does not change what is read: the items come
/// out behind `acc` as they come out behind nothing.
pub proof fn lemma_read_items_appends(s: Seq<char>, i: int, depth: nat, acc: Seq<ItemView>)
    requires
        0 <= i <= s.len(),
    ensures
        match read_items(s, i, depth, Seq::empty()) {
            Parsed::Done { value, end } => read_items(s, i, depth, acc) == (Parsed::Done {
                value: acc + value,
                end,
            }),
            Parsed::Failed { error, at } => read_items(s, i, depth, acc) == (Parsed::<
                Seq<ItemView>,
            >::Failed { error, at }),
        },
    decreases s.len() - i,
{
    let none = Seq::<ItemView>::empty();
    if i < s.len() {
        let j = next_digit(s, i);
        lemma_next_digit_bounds(s, i);
        lemma_read_number_advances(s, j);
        if j < s.len() {
            match read_number(s, j) {
                Parsed::Failed { .. } => {},
                Parsed::Done { value: id, end: k } => {
                    lemma_read_attributes_bounds(s, k, depth, ItemView::new(id));
                    match read_attributes(s, k, depth, ItemView::new(id)) {
                        Parsed::Failed { .. } => {},
                        Parsed::Done { value: (item, closed), end } => {
                            if closed {
                                assert(acc.push(item) =~= acc + none.push(item));
                            } else {
                                lemma_read_items_appends(s, end, depth, none.push(item));
                                lemma_read_items_appends(s, end, depth, acc.push(item));
                                match read_items(s, end, depth, none) {
                                    Parsed::Failed { .. } => {},
                                    Parsed::Done { value: rest, .. } => {
                                        assert(acc.push(item) + rest =~= acc + (none.push(item)
                                            + rest));
                                    },
                                }
                            }
                        },
                    }
                },
            }
        } else {
            assert(acc =~= acc + none);
        }
    } else {
        assert(acc =~= acc + none);
    }
}

/// The items of a list that may not be there yet.
pub open spec fn list_view(content: Option<Vec<Item>>) -> Seq<ItemView> {
    match content {
        Some(items) => items_view(items@),
        None => Seq::empty(),
    }
}

/// Reads the attributes that follow an item's id, from `from` on, and sets
/// them in `item`. The result is the cursor behind the item and whether its
/// list is ended; a failure comes with the position where it was found.
fn parse_attributes(text: &[char], from: usize, depth: usize, item: &mut Item) -> (r: Result<
    (usize, bool),
    (ParseError, usize),
>)
    requires
        from <= text@.len(),
    ensures
        match read_attributes(text@, from as int, depth as nat, old(item)@) {
            Parsed::Done { value: (seen, closed), end } => r matches Ok((cursor, ended))
                && cursor == end && ended == closed && final(item)@ == seen,
            Parsed::Failed { error, at } => r matches Err((reason, cursor)) && reason == error
                && cursor == at,
        },
    decreases depth, 0nat,
{
    let len = text.len();
    let mut k: usize = from;
    loop
        invariant
            len == text@.len(),
            k <= len,
            read_attributes(text@, k as int, depth as nat, item@) == read_attributes(
                text@,
                from as int,
                depth as nat,
                old(item)@,
            ),
        decreases len - k,
    {
        if k >= len {
            return Ok((k, true));
        }
        let c = text[k];
        if c == '}' {
            return Ok((k + 1, true));
        }
        if c == ',' {
            return Ok((k + 1, false));
        }
        if c == ' ' {
            k += 1;
            continue ;
        }
        let keyword = match match_keyword(text, k) {
            None => {
                return Err((ParseError::UnknownKeyword, k));
            },
            Some(keyword) => keyword,
        };
        let word_len = keyword.text().unicode_len();
        proof {
            lemma_spelling_nonempty(keyword);
            lemma_skip_spaces_bounds(text@, k + word_len);
        }
        let v = find_non_space(text, k + word_len);
        proof {
            lemma_read_number_advances(text@, v as int);
            lemma_read_text_advances(text@, v as int);
        }
        match keyword.value_kind() {
            ValueKind::Integer => {
                let mut cursor = v;
                match parse_number(&mut cursor, text) {
                    Err(error) => {
                        return Err((error, cursor));
                    },
                    Ok(number) => {
                        item.set_number(keyword, number);
                        k = cursor;
                    },
                }
            },
            ValueKind::Text => {
                let mut cursor = v;
                match parse_text(text, &mut cursor) {
                    Err(error) => {
                        return Err((error, cursor));
                    },
                    Ok(string) => {
                        item.set_text(keyword, string);
                        k = cursor;
                    },
                }
            },
            ValueKind::Items => {
                if depth == 0 {
                    return Err((ParseError::NestingTooDeep, k));
                }
                let mut list: Vec<Item> = Vec::new();
                proof {
                    assert(items_view(list@) =~= Seq::<ItemView>::empty());
                    lemma_read_items_bounds(text@, v as int, (depth - 1) as nat, Seq::empty());
                }
                match parse_items(text, v, depth - 1, &mut list) {
                    Err(failure) => {
                        return Err(failure);
                    },
                    Ok(end) => {
                        item.set_content(list);
                        k = end;
                    },
                }
            },
        }
    }
}

/// Reads a list of items from `from` on and pushes them onto `items`. The
/// result is the cursor behind the list; a failure comes with the position
/// where it was found.
fn parse_items(text: &[char], from: usize, depth: usize, items: &mut Vec<Item>) -> (r: Result<
    usize,
    (ParseError, usize),
>)
    requires
        from <= text@.len(),
    ensures
        match read_items(text@, from as int, depth as nat, items_view(old(items)@)) {
            Parsed::Done { value, end } => r matches Ok(cursor) && cursor == end && items_view(
                final(items)@,
            ) == value,
            Parsed::Failed { error, at } => r matches Err((reason, cursor)) && reason == error
                && cursor == at,
        },
    decreases depth, 1nat,
{
    let len = text.len();
    let mut i: usize = from;
    loop
        invariant
            len == text@.len(),
            i <= len,
            read_items(text@, i as int, depth as nat, items_view(items@)) == read_items(
                text@,
                from as int,
                depth as nat,
                items_view(old(items)@),
            ),
        decreases len - i,
    {
        if i >= len {
            return Ok(i);
        }
        proof {
            lemma_next_digit_bounds(text@, i as int);
        }
        let j = find_digit(text, i);
        if j >= len {
            return Ok(len);
        }
        proof {
            lemma_read_number_advances(text@, j as int);
        }
        let mut k = j;
        let id = match parse_number(&mut k, text) {
            Err(error) => {
                return Err((error, k));
            },
            Ok(id) => id,
        };
        let mut item = Item::new(id);
        proof {
            lemma_read_attributes_bounds(text@, k as int, depth as nat, item@);
        }
        match parse_attributes(text, k, depth, &mut item) {
            Err(failure) => {
                return Err(failure);
            },
            Ok((end, closed)) => {
                proof {
                    lemma_items_view_push(items@, item);
                }
                items.push(item);
                if closed {
                    return Ok(end);
                }
                i = end;
            },
        }
    }
}

/// Reads the list of items of `text` that starts at `*i`, the opening brace
/// included or not, and appends the items to `content`, which becomes a list
/// where it was none. The cursor ends behind the list. On a failure the
/// cursor marks the place and `content` is as it was.
pub fn parse_content(content: &mut Option<Vec<Item>>, text: &[char], i: &mut usize) -> (r: Result<
    (),
    ParseError,
>)
    ensures
        match read_items(text@, *old(i) as int, MAX_DEPTH as nat, list_view(*old(content))) {
            Parsed::Done { value, end } => r is Ok && content_view(*final(content)) == Some(value)
                && *final(i) == end,
            Parsed::Failed { error, at } => r == Err::<(), ParseError>(error) && *final(i) == at
                && *final(content) == *old(content),
        },
{
    let start = *i;
    let mut fresh: Vec<Item> = Vec::new();
    assert(items_view(fresh@) =~= Seq::<ItemView>::empty());
    if start > text.len() {
        match content.take() {
            Some(list) => {
                *content = Some(list);
            },
            None => {
                *content = Some(fresh);
            },
        }
        return Ok(());
    }
    proof {
        lemma_read_items_appends(text@, start as int, MAX_DEPTH as nat, list_view(*old(content)));
    }
    match parse_items(text, start, MAX_DEPTH, &mut fresh) {
        Err((error, at)) => {
            *i = at;
            Err(error)
        },
        Ok(end) => {
            match content.take() {
                Some(mut list) => {
                    assert(items_view(list@ + fresh@) =~= items_view(list@) + items_view(fresh@));
                    list.append(&mut fresh);
                    *content = Some(list);
                },
                None => {
                    assert(Seq::<ItemView>::empty() + items_view(fresh@) =~= items_view(fresh@));
                    *content = Some(fresh);
                },
            }
            *i = end;
            Ok(())
        },
    }
}

} // verus!
