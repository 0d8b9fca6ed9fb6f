//! What holds of every text: statements about the grammar that no single
//! contract makes, each with its proof.

use crate::content::{
    lemma_read_attributes_bounds, lemma_read_items_bounds, read_attributes, read_items, MAX_DEPTH,
};
use crate::error::{ParseError, Parsed};
use crate::keyword::{keyword_at, lemma_spelling_nonempty, Keyword, ValueKind};
use crate::lexis::{
    has_word_at, lemma_next_char_bounds, lemma_next_digit_bounds, lemma_skip_spaces_bounds,
    lemma_word_letters, letter_at, next_char, next_digit, skip_spaces,
};
use crate::model::{ItemView, TileView};
use crate::number::{lemma_read_number_advances, read_number};
use crate::quoted::{lemma_read_text_advances, read_text};
use crate::scan::{scan_tiles, LineView};
use crate::sector::{
    is_reading_of, is_skipped, line_text, next_line, read_lines, read_sector, Failure, FailedAt,
    Report, ReportView,
};
use crate::tile::{
    flag_at, header_end, lemma_flag_spelling_nonempty, lemma_header_end_bounds,
    lemma_read_flags_bounds, lemma_read_tile_bounds, read_flags, read_header, read_tile, Flag,
};
use vstd::prelude::*;

verus! {

/// Reading the same text twice gives the same: two results that both are
/// readings of one text hold the same tiles, items and refused headers, or
/// the same failure at the same place.
pub proof fn law_reading_is_repeatable(
    s: Seq<char>,
    first: Result<Report, Failure>,
    second: Result<Report, Failure>,
)
    requires
        is_reading_of(first, s),
        is_reading_of(second, s),
    ensures
        match first {
            Ok(a) => second matches Ok(b) && a@ == b@,
            Err(a) => second matches Err(b) && a@ == b@,
        },
{
}

/// A text of one line that is empty or a comment holds no tile and is no
/// failure.
pub proof fn law_skipped_text_is_empty(s: Seq<char>)
    requires
        is_skipped(s),
        forall|k: int| 0 <= k < s.len() ==> s[k] != '\n',
    ensures
        read_sector(s) == Ok::<ReportView, FailedAt>(ReportView::empty()),
{
    if s.len() > 0 {
        lemma_next_char_bounds(s, 0, '\n');
        assert(next_char(s, 0, '\n') == s.len());
        assert(line_text(s, 0) =~= s);
        assert(read_lines(s, s.len() as int, 2, ReportView::empty()) == Ok::<
            ReportView,
            FailedAt,
        >(ReportView::empty()));
    }
}

/// An empty line or a comment adds nothing, wherever it stands: the text
/// from such a line on comes to what the text behind the line comes to.
pub proof fn law_skipped_line_adds_nothing(s: Seq<char>, i: int, line: int, acc: ReportView)
    requires
        0 <= i < s.len(),
        is_skipped(line_text(s, i)),
    ensures
        read_lines(s, i, line, acc) == read_lines(s, next_line(s, i), line + 1, acc),
{
}

/// One item whose id starts at `j`: its id, then its attributes.
pub open spec fn read_item(s: Seq<char>, j: int, depth: nat) -> Parsed<(ItemView, bool)> {
    match read_number(s, j) {
        Parsed::Failed { error, at } => Parsed::Failed { error, at },
        Parsed::Done { value: id, end } => read_attributes(s, end, depth, ItemView::new(id)),
    }
}

/// The positions at which the ids of the items of the list at `i` start, one
/// for each item of the list itself, in the order in which they are met.
pub open spec fn item_starts(s: Seq<char>, i: int, depth: nat) -> Seq<int>
    decreases s.len() - i,
{
    if i < 0 || i >= s.len() {
        Seq::empty()
    } else {
        let j = next_digit(s, i);
        proof {
            lemma_next_digit_bounds(s, i);
        }
        if j >= s.len() {
            Seq::empty()
        } else {
            match read_item(s, j, depth) {
                Parsed::Failed { .. } => Seq::empty(),
                Parsed::Done { value: (_, closed), end } => if closed || !(j < end <= s.len()) {
                    seq![j]
                } else {
                    seq![j] + item_starts(s, end, depth)
                },
            }
        }
    }
}

/// The items of a list come out in the order in which they are written.
/// What the list is appended to stays in front. Behind it stands one item
/// for each id of the list, and the ids start at positions that grow from
/// item to item: the item at place `n` of the new ones is the item that is
/// written at the `n`-th of these positions.
pub proof fn law_items_keep_source_order(s: Seq<char>, i: int, depth: nat, acc: Seq<ItemView>)
    requires
        0 <= i <= s.len(),
    ensures
        read_items(s, i, depth, acc) matches Parsed::Done { value, end } ==> {
            let starts = item_starts(s, i, depth);
            &&& value.len() == acc.len() + starts.len()
            &&& value.subrange(0, acc.len() as int) == acc
            &&& forall|n: int|
                0 <= n < starts.len() ==> i <= #[trigger] starts[n] < end && read_item(
                    s,
                    starts[n],
                    depth,
                ) is Done && read_item(s, starts[n], depth)->value.0 == value[acc.len() + n]
            &&& forall|m: int, n: int|
                0 <= m < n < starts.len() ==> #[trigger] starts[m] < #[trigger] starts[n]
        },
    decreases s.len() - i,
{
    if i < s.len() {
        let j = next_digit(s, i);
        lemma_next_digit_bounds(s, i);
        lemma_read_number_advances(s, j);
        if j < s.len() {
            match read_number(s, j) {
                Parsed::Failed { .. } => {},
                Parsed::Done { value: id, end: k } => {
                    lemma_read_attributes_bounds(s, k, depth, ItemView::new(id));
                    match read_attributes(s, k, depth, ItemView::new(id)) {
                        Parsed::Failed { .. } => {},
                        Parsed::Done { value: (item, closed), end } => {
                            if closed {
                                assert(acc.push(item).subrange(0, acc.len() as int) =~= acc);
                            } else {
                                law_items_keep_source_order(s, end, depth, acc.push(item));
                                lemma_read_items_bounds(s, end, depth, acc.push(item));
                                match read_items(s, end, depth, acc.push(item)) {
                                    Parsed::Failed { .. } => {},
                                    Parsed::Done { value, end: last } => {
                                        let rest = item_starts(s, end, depth);
                                        let starts = item_starts(s, i, depth);
                                        assert(starts == seq![j] + rest);
                                        assert(value.subrange(0, acc.len() as int)
                                            =~= value.subrange(
                                            0,
                                            acc.push(item).len() as int,
                                        ).subrange(0, acc.len() as int));
                                        assert(value[acc.len() as int] == value.subrange(
                                            0,
                                            acc.push(item).len() as int,
                                        )[acc.len() as int]);
                                        assert forall|n: int| 0 <= n < starts.len() implies i
                                            <= #[trigger] starts[n] < last && read_item(
                                            s,
                                            starts[n],
                                            depth,
                                        ) is Done && read_item(s, starts[n], depth)->value.0
                                            == value[acc.len() + n] by {
                                            if n > 0 {
                                                assert(starts[n] == rest[n - 1]);
                                            }
                                        }
                                        assert forall|m: int, n: int|
                                            0 <= m < n < starts.len() implies #[trigger] starts[m]
                                            < #[trigger] starts[n] by {
                                            assert(starts[n] == rest[n - 1]);
                                            if m > 0 {
                                                assert(starts[m] == rest[m - 1]);
                                            }
                                        }
                                    },
                                }
                            }
                        },
                    }
                },
            }
        }
    }
}

/// The columns at which the headers of the tiles of a line start, from `i`
/// on: one for each tile that is read, in the order in which they are met.
pub open spec fn tile_starts(s: Seq<char>, i: int) -> Seq<int>
    decreases s.len() - i,
{
    if i < 0 || i >= s.len() {
        Seq::empty()
    } else {
        let j = next_digit(s, i);
        if j >= s.len() {
            Seq::empty()
        } else {
            proof {
                lemma_next_digit_bounds(s, i);
                lemma_read_tile_bounds(s, j);
            }
            match read_tile(s, j) {
                Parsed::Done { end, .. } => seq![j] + tile_starts(s, end),
                Parsed::Failed { error, at } => if error == ParseError::MalformedHeader {
                    tile_starts(s, at)
                } else {
                    Seq::empty()
                },
            }
        }
    }
}

/// The tiles of a line come out in the order in which their headers are
/// written. What the line is added to stays in front. Behind it stands one
/// tile for each header that is read, and the headers start at columns that
/// grow from tile to tile: the tile at place `n` of the new ones is the tile
/// that is written at the `n`-th of these columns.
pub proof fn law_tiles_keep_source_order(s: Seq<char>, i: int, acc: LineView)
    requires
        0 <= i <= s.len(),
    ensures
        scan_tiles(s, i, acc) matches Parsed::Done { value, .. } ==> {
            let starts = tile_starts(s, i);
            &&& value.tiles.len() == acc.tiles.len() + starts.len()
            &&& value.tiles.subrange(0, acc.tiles.len() as int) == acc.tiles
            &&& forall|n: int|
                0 <= n < starts.len() ==> i <= #[trigger] starts[n] < s.len() && read_tile(
                    s,
                    starts[n],
                ) is Done && read_tile(s, starts[n])->value == value.tiles[acc.tiles.len() + n]
            &&& forall|m: int, n: int|
                0 <= m < n < starts.len() ==> #[trigger] starts[m] < #[trigger] starts[n]
        },
    decreases s.len() - i,
{
    if i < s.len() {
        let j = next_digit(s, i);
        lemma_next_digit_bounds(s, i);
        if j < s.len() {
            lemma_read_tile_bounds(s, j);
            match read_tile(s, j) {
                Parsed::Done { value: tile, end } => {
                    let next = LineView { tiles: acc.tiles.push(tile), ..acc };
                    law_tiles_keep_source_order(s, end, next);
                    match scan_tiles(s, end, next) {
                        Parsed::Failed { .. } => {},
                        Parsed::Done { value, .. } => {
                            let rest = tile_starts(s, end);
                            let starts = tile_starts(s, i);
                            assert(starts == seq![j] + rest);
                            assert(value.tiles.subrange(0, acc.tiles.len() as int)
                                =~= value.tiles.subrange(0, next.tiles.len() as int).subrange(
                                0,
                                acc.tiles.len() as int,
                            ));
                            assert(value.tiles[acc.tiles.len() as int] == value.tiles.subrange(
                                0,
                                next.tiles.len() as int,
                            )[acc.tiles.len() as int]);
                            assert forall|n: int| 0 <= n < starts.len() implies i
                                <= #[trigger] starts[n] < s.len() && read_tile(s, starts[n]) is Done
                                && read_tile(s, starts[n])->value == value.tiles[acc.tiles.len()
                                + n] by {
                                if n > 0 {
                                    assert(starts[n] == rest[n - 1]);
                                }
                            }
                            assert forall|m: int, n: int|
                                0 <= m < n < starts.len() implies #[trigger] starts[m]
                                < #[trigger] starts[n] by {
                                assert(starts[n] == rest[n - 1]);
                                if m > 0 {
                                    assert(starts[m] == rest[m - 1]);
                                }
                            }
                        },
                    }
                },
                Parsed::Failed { error, at } => {
                    if error == ParseError::MalformedHeader {
                        law_tiles_keep_source_order(
                            s,
                            at,
                            LineView { rejected: acc.rejected.push(j), ..acc },
                        );
                    }
                },
            }
        }
    }
}

/// The tiles of the lines from position `i` on, line after line.
pub open spec fn tiles_of_lines(s: Seq<char>, i: int) -> Seq<TileView>
    decreases s.len() - i,
{
    if i < 0 || i >= s.len() {
        Seq::empty()
    } else {
        proof {
            lemma_next_char_bounds(s, i, '\n');
        }
        if is_skipped(line_text(s, i)) {
            tiles_of_lines(s, next_line(s, i))
        } else {
            match scan_tiles(line_text(s, i), 0, LineView::empty()) {
                Parsed::Failed { .. } => Seq::empty(),
                Parsed::Done { value, .. } => value.tiles + tiles_of_lines(s, next_line(s, i)),
            }
        }
    }
}

/// The tiles of a text come out line by line: what was read before stays in
/// front, and the tiles of each line stand before the tiles of every later
/// line.
pub proof fn law_lines_keep_source_order(s: Seq<char>, i: int, line: int, acc: ReportView)
    requires
        0 <= i <= s.len(),
    ensures
        read_lines(s, i, line, acc) matches Ok(report) ==> report.tiles == acc.tiles
            + tiles_of_lines(s, i),
    decreases s.len() - i,
{
    if i < s.len() {
        lemma_next_char_bounds(s, i, '\n');
        let next = next_line(s, i);
        if is_skipped(line_text(s, i)) {
            law_lines_keep_source_order(s, next, line + 1, acc);
        } else {
            match scan_tiles(line_text(s, i), 0, LineView::empty()) {
                Parsed::Failed { .. } => {},
                Parsed::Done { value, .. } => {
                    law_lines_keep_source_order(s, next, line + 1, acc.with_line(line, value));
                    assert((acc.tiles + value.tiles) + tiles_of_lines(s, next) =~= acc.tiles + (
                    value.tiles + tiles_of_lines(s, next)));
                },
            }
        }
    } else {
        assert(acc.tiles + Seq::<TileView>::empty() =~= acc.tiles);
    }
}

/// Whether `word` is written in `s` somewhere from `from` up to, but not at,
/// `to`.
pub open spec fn occurs(s: Seq<char>, word: Seq<char>, from: int, to: int) -> bool {
    exists|p: int| from <= p < to && has_word_at(s, p, word)
}

/// Whether `item`, or an item that it holds at any depth, has the attribute
/// of `keyword`.
pub open spec fn mentions(item: ItemView, keyword: Keyword) -> bool
    decreases item,
{
    item.has(keyword) || match item.content {
        Some(items) => exists|n: int|
            0 <= n < items.len() && #[trigger] mentions(items[n], keyword),
        None => false,
    }
}

/// Whether no item of `items` mentions `keyword`.
pub open spec fn none_mentions(items: Seq<ItemView>, keyword: Keyword) -> bool {
    forall|n: int| 0 <= n < items.len() ==> !#[trigger] mentions(items[n], keyword)
}

/// A word that does not occur in a stretch occurs in no part of it.
proof fn lemma_occurs_narrows(s: Seq<char>, word: Seq<char>, a: int, b: int, c: int, d: int)
    requires
        a <= c,
        d <= b,
        !occurs(s, word, a, b),
    ensures
        !occurs(s, word, c, d),
{
    assert forall|p: int| c <= p < d implies !has_word_at(s, p, word) by {}
}

/// Setting the value of one keyword leaves an item clear of every other.
proof fn lemma_other_keyword_stays_unmentioned(
    item: ItemView,
    found: Keyword,
    keyword: Keyword,
    number: int,
    text: Seq<char>,
    list: Seq<ItemView>,
)
    requires
        !mentions(item, keyword),
        found != keyword,
        none_mentions(list, keyword),
    ensures
        !mentions(item.with_number(found, number), keyword),
        !mentions(item.with_text(found, text), keyword),
        found == Keyword::Content ==> !mentions(item.with_content(list), keyword),
{
    assert(!item.has(keyword));
    if found == Keyword::Content {
        let changed = item.with_content(list);
        assert(!changed.has(keyword));
        assert(changed.content == Some(list));
        assert forall|n: int| 0 <= n < list.len() implies !mentions(list[n], keyword) by {}
    }
}

/// An attribute that is not written is not set: where the keyword does not
/// occur in what the attributes of an item are read from, the item keeps
/// clear of it, at every depth, if it was clear of it before.
pub proof fn law_unwritten_attribute_stays_absent(
    s: Seq<char>,
    k: int,
    depth: nat,
    item: ItemView,
    keyword: Keyword,
)
    requires
        0 <= k <= s.len(),
        !mentions(item, keyword),
    ensures
        read_attributes(s, k, depth, item) matches Parsed::Done { value: (seen, _), end } ==> (
        !occurs(s, keyword.spelling(), k, end) ==> !mentions(seen, keyword)),
    decreases s.len() - k,
{
    let word = keyword.spelling();
    let none = Seq::<ItemView>::empty();
    lemma_read_attributes_bounds(s, k, depth, item);
    if let Parsed::Done { end, .. } = read_attributes(s, k, depth, item) {
        if !occurs(s, word, k, end) {
            if k >= s.len() || s[k] == '}' || s[k] == ',' {
            } else if s[k] == ' ' {
                law_unwritten_attribute_stays_absent(s, k + 1, depth, item, keyword);
                lemma_occurs_narrows(s, word, k, end, k + 1, end);
            } else {
                let found = keyword_at(s, k)->0;
                let v = skip_spaces(s, k + found.spelling().len());
                lemma_spelling_nonempty(found);
                lemma_skip_spaces_bounds(s, k + found.spelling().len());
                lemma_read_number_advances(s, v);
                lemma_read_text_advances(s, v);
                assert(has_word_at(s, k, found.spelling()));
                assert(found != keyword);
                match found.kind() {
                    ValueKind::Integer => {
                        let next = read_number(s, v)->end;
                        let changed = item.with_number(found, read_number(s, v)->value);
                        lemma_other_keyword_stays_unmentioned(
                            item,
                            found,
                            keyword,
                            read_number(s, v)->value,
                            Seq::empty(),
                            none,
                        );
                        law_unwritten_attribute_stays_absent(s, next, depth, changed, keyword);
                        lemma_occurs_narrows(s, word, k, end, next, end);
                    },
                    ValueKind::Text => {
                        let next = read_text(s, v)->end;
                        let changed = item.with_text(found, read_text(s, v)->value);
                        lemma_other_keyword_stays_unmentioned(
                            item,
                            found,
                            keyword,
                            0,
                            read_text(s, v)->value,
                            none,
                        );
                        law_unwritten_attribute_stays_absent(s, next, depth, changed, keyword);
                        lemma_occurs_narrows(s, word, k, end, next, end);
                    },
                    ValueKind::Items => {
                        let below = (depth - 1) as nat;
                        let next = read_items(s, v, below, none)->end;
                        let list = read_items(s, v, below, none)->value;
                        let changed = item.with_content(list);
                        lemma_read_items_bounds(s, v, below, none);
                        lemma_read_attributes_bounds(s, next, depth, changed);
                        law_unwritten_attribute_stays_out_of_list(s, v, below, none, keyword);
                        lemma_occurs_narrows(s, word, k, end, v, next);
                        lemma_other_keyword_stays_unmentioned(
                            item,
                            found,
                            keyword,
                            0,
                            Seq::empty(),
                            list,
                        );
                        law_unwritten_attribute_stays_absent(s, next, depth, changed, keyword);
                        lemma_occurs_narrows(s, word, k, end, next, end);
                    },
                }
            }
        }
    }
}

/// An attribute that is not written is set in no item of a list: where the
/// keyword does not occur in what the list is read from, no item that is
/// read mentions it, at any depth.
pub proof fn law_unwritten_attribute_stays_out_of_list(
    s: Seq<char>,
    i: int,
    depth: nat,
    acc: Seq<ItemView>,
    keyword: Keyword,
)
    requires
        0 <= i <= s.len(),
        none_mentions(acc, keyword),
    ensures
        read_items(s, i, depth, acc) matches Parsed::Done { value, end } ==> (!occurs(
            s,
            keyword.spelling(),
            i,
            end,
        ) ==> none_mentions(value, keyword)),
    decreases s.len() - i,
{
    let word = keyword.spelling();
    lemma_read_items_bounds(s, i, depth, acc);
    if let Parsed::Done { end, .. } = read_items(s, i, depth, acc) {
        let j = next_digit(s, i);
        lemma_next_digit_bounds(s, i);
        if !occurs(s, word, i, end) && i < s.len() && j < s.len() {
            lemma_read_number_advances(s, j);
            let k = read_number(s, j)->end;
            let fresh = ItemView::new(read_number(s, j)->value);
            assert(!mentions(fresh, keyword));
            lemma_read_attributes_bounds(s, k, depth, fresh);
            law_unwritten_attribute_stays_absent(s, k, depth, fresh, keyword);
            let item = read_attributes(s, k, depth, fresh)->value.0;
            let closed = read_attributes(s, k, depth, fresh)->value.1;
            let next = read_attributes(s, k, depth, fresh)->end;
            let more = acc.push(item);
            if !closed {
                lemma_read_items_bounds(s, next, depth, more);
            }
            lemma_occurs_narrows(s, word, i, end, k, next);
            assert(none_mentions(more, keyword));
            if !closed {
                law_unwritten_attribute_stays_out_of_list(s, next, depth, more, keyword);
                lemma_occurs_narrows(s, word, i, end, next, end);
            }
        }
    }
}

/// Whether `flag` is raised on `tile`.
pub open spec fn is_raised(tile: TileView, flag: Flag) -> bool {
    match flag {
        Flag::Refresh => tile.refresh is Some,
        Flag::NoLogout => tile.no_logout is Some,
        Flag::ProtectionZone => tile.protection_zone is Some,
    }
}

/// Flags and content that are not written stay absent while the flags of a
/// tile are read.
proof fn lemma_flags_keep_clear(
    s: Seq<char>,
    c: int,
    tile: TileView,
    flag: Flag,
    keyword: Keyword,
)
    requires
        0 <= c <= s.len(),
        tile.content is None,
        !is_raised(tile, flag),
    ensures
        read_flags(s, c, tile) matches Parsed::Done { value, end } ==> {
            &&& !occurs(s, flag.spelling(), c, end) ==> !is_raised(value, flag)
            &&& !occurs(s, Keyword::Content.spelling(), c, end) ==> value.content is None
            &&& !occurs(s, keyword.spelling(), c, end) ==> (value.content matches Some(items)
                ==> none_mentions(items, keyword))
        },
    decreases s.len() - c,
{
    lemma_read_flags_bounds(s, c, tile);
    if let Parsed::Done { value, end } = read_flags(s, c, tile) {
        if c >= s.len() {
        } else if s[c] == ' ' {
            lemma_flags_keep_clear(s, c + 1, tile, flag, keyword);
            if !occurs(s, flag.spelling(), c, end) {
                lemma_occurs_narrows(s, flag.spelling(), c, end, c + 1, end);
            }
            if !occurs(s, Keyword::Content.spelling(), c, end) {
                lemma_occurs_narrows(s, Keyword::Content.spelling(), c, end, c + 1, end);
            }
            if !occurs(s, keyword.spelling(), c, end) {
                lemma_occurs_narrows(s, keyword.spelling(), c, end, c + 1, end);
            }
        } else {
            match flag_at(s, c) {
                Some(found) => {
                    lemma_flag_spelling_nonempty(found);
                    let next = c + found.spelling().len();
                    assert(has_word_at(s, c, found.spelling()));
                    lemma_read_flags_bounds(s, next, tile.with_flag(found));
                    if found != flag {
                        lemma_flags_keep_clear(s, next, tile.with_flag(found), flag, keyword);
                    }
                    if !occurs(s, flag.spelling(), c, end) {
                        lemma_occurs_narrows(s, flag.spelling(), c, end, next, end);
                    }
                    if !occurs(s, Keyword::Content.spelling(), c, end) {
                        lemma_occurs_narrows(s, Keyword::Content.spelling(), c, end, next, end);
                    }
                    if !occurs(s, keyword.spelling(), c, end) {
                        lemma_occurs_narrows(s, keyword.spelling(), c, end, next, end);
                    }
                    if found == flag {
                        lemma_flags_keep_other(s, next, tile.with_flag(found), keyword);
                    }
                },
                None => {
                    if has_word_at(s, c, Keyword::Content.spelling()) {
                        let from = c + Keyword::Content.spelling().len();
                        lemma_spelling_nonempty(Keyword::Content);
                        lemma_read_items_bounds(s, from, MAX_DEPTH as nat, Seq::empty());
                        law_unwritten_attribute_stays_out_of_list(
                            s,
                            from,
                            MAX_DEPTH as nat,
                            Seq::empty(),
                            keyword,
                        );
                        if !occurs(s, keyword.spelling(), c, end) {
                            lemma_occurs_narrows(s, keyword.spelling(), c, end, from, end);
                        }
                    }
                },
            }
        }
    }
}

/// Content that is not written stays absent while the flags of a tile are
/// read, whatever flags the tile has.
proof fn lemma_flags_keep_other(s: Seq<char>, c: int, tile: TileView, keyword: Keyword)
    requires
        0 <= c <= s.len(),
        tile.content is None,
    ensures
        read_flags(s, c, tile) matches Parsed::Done { value, end } ==> {
            &&& !occurs(s, Keyword::Content.spelling(), c, end) ==> value.content is None
            &&& !occurs(s, keyword.spelling(), c, end) ==> (value.content matches Some(items)
                ==> none_mentions(items, keyword))
        },
    decreases s.len() - c,
{
    lemma_read_flags_bounds(s, c, tile);
    if let Parsed::Done { value, end } = read_flags(s, c, tile) {
        if c >= s.len() {
        } else if s[c] == ' ' {
            lemma_flags_keep_other(s, c + 1, tile, keyword);
            if !occurs(s, Keyword::Content.spelling(), c, end) {
                lemma_occurs_narrows(s, Keyword::Content.spelling(), c, end, c + 1, end);
            }
            if !occurs(s, keyword.spelling(), c, end) {
                lemma_occurs_narrows(s, keyword.spelling(), c, end, c + 1, end);
            }
        } else {
            match flag_at(s, c) {
                Some(found) => {
                    lemma_flag_spelling_nonempty(found);
                    let next = c + found.spelling().len();
                    lemma_flags_keep_other(s, next, tile.with_flag(found), keyword);
                    if !occurs(s, Keyword::Content.spelling(), c, end) {
                        lemma_occurs_narrows(s, Keyword::Content.spelling(), c, end, next, end);
                    }
                    if !occurs(s, keyword.spelling(), c, end) {
                        lemma_occurs_narrows(s, keyword.spelling(), c, end, next, end);
                    }
                },
                None => {
                    if has_word_at(s, c, Keyword::Content.spelling()) {
                        let from = c + Keyword::Content.spelling().len();
                        lemma_spelling_nonempty(Keyword::Content);
                        lemma_read_items_bounds(s, from, MAX_DEPTH as nat, Seq::empty());
                        law_unwritten_attribute_stays_out_of_list(
                            s,
                            from,
                            MAX_DEPTH as nat,
                            Seq::empty(),
                            keyword,
                        );
                        if !occurs(s, keyword.spelling(), c, end) {
                            lemma_occurs_narrows(s, keyword.spelling(), c, end, from, end);
                        }
                    }
                },
            }
        }
    }
}

/// What is not written of a tile is absent from it. Where a flag does not
/// occur in what the tile is read from, the flag is not raised; where
/// `Content:` does not occur, the tile has no list of items; and where the
/// keyword of an attribute does not occur, no item of the tile mentions it,
/// at any depth.
pub proof fn law_unwritten_stays_out_of_tile(s: Seq<char>, i: int, flag: Flag, keyword: Keyword)
    requires
        0 <= i <= s.len(),
    ensures
        read_tile(s, i) matches Parsed::Done { value, end } ==> {
            &&& !occurs(s, flag.spelling(), i, end) ==> !is_raised(value, flag)
            &&& !occurs(s, Keyword::Content.spelling(), i, end) ==> value.content is None
            &&& !occurs(s, keyword.spelling(), i, end) ==> (value.content matches Some(items)
                ==> none_mentions(items, keyword))
        },
{
    if let Parsed::Done { value: (x, y), end: from } = read_header(s, i) {
        lemma_header_end_bounds(s, i);
        let blank = TileView::new(x, y);
        lemma_flags_keep_clear(s, from, blank, flag, keyword);
        lemma_read_flags_bounds(s, from, blank);
        if let Parsed::Done { value, end } = read_flags(s, from, blank) {
            if !occurs(s, flag.spelling(), i, end) {
                lemma_occurs_narrows(s, flag.spelling(), i, end, from, end);
            }
            if !occurs(s, Keyword::Content.spelling(), i, end) {
                lemma_occurs_narrows(s, Keyword::Content.spelling(), i, end, from, end);
            }
            if !occurs(s, keyword.spelling(), i, end) {
                lemma_occurs_narrows(s, keyword.spelling(), i, end, from, end);
            }
        }
    }
}

/// A keyword is found exactly where it is written: the one that is found at
/// a position stands there, and one that stands there is the one that is
/// found. So the order of the table does not matter.
pub proof fn law_keyword_found_where_written(s: Seq<char>, i: int, keyword: Keyword)
    ensures
        keyword_at(s, i) == Some(keyword) <==> has_word_at(s, i, keyword.spelling()),
{
    reveal_strlit("Amount:");
    reveal_strlit("AbsTeleportDestination:");
    reveal_strlit("KeyNumber:");
    reveal_strlit("KeyholeNumber:");
    reveal_strlit("DoorLevel:");
    reveal_strlit("DoorQuestNumber:");
    reveal_strlit("DoorQuestValue:");
    reveal_strlit("Responsible:");
    reveal_strlit("RemainingExpireTime:");
    reveal_strlit("RemainingUses:");
    reveal_strlit("Level:");
    reveal_strlit("Editor:");
    reveal_strlit("String:");
    reveal_strlit("SavedExpireTime:");
    reveal_strlit("PoolLiquidType:");
    reveal_strlit("Charges:");
    reveal_strlit("ChestQuestNumber:");
    reveal_strlit("ContainerLiquidType:");
    reveal_strlit("Content:");
    // The places at which two spellings with the same first letter part.
    let _ = (
        letter_at(s, i, 0),
        letter_at(s, i, 1),
        letter_at(s, i, 2),
        letter_at(s, i, 3),
        letter_at(s, i, 4),
        letter_at(s, i, 9),
    );
    lemma_word_letters(s, i, Keyword::Amount.spelling());
    lemma_word_letters(s, i, Keyword::AbsTeleportDestination.spelling());
    lemma_word_letters(s, i, Keyword::KeyNumber.spelling());
    lemma_word_letters(s, i, Keyword::KeyholeNumber.spelling());
    lemma_word_letters(s, i, Keyword::DoorLevel.spelling());
    lemma_word_letters(s, i, Keyword::DoorQuestNumber.spelling());
    lemma_word_letters(s, i, Keyword::DoorQuestValue.spelling());
    lemma_word_letters(s, i, Keyword::Responsible.spelling());
    lemma_word_letters(s, i, Keyword::RemainingExpireTime.spelling());
    lemma_word_letters(s, i, Keyword::RemainingUses.spelling());
    lemma_word_letters(s, i, Keyword::Level.spelling());
    lemma_word_letters(s, i, Keyword::Editor.spelling());
    lemma_word_letters(s, i, Keyword::Text.spelling());
    lemma_word_letters(s, i, Keyword::SavedExpireTime.spelling());
    lemma_word_letters(s, i, Keyword::PoolLiquidType.spelling());
    lemma_word_letters(s, i, Keyword::Charges.spelling());
    lemma_word_letters(s, i, Keyword::ChestQuestNumber.spelling());
    lemma_word_letters(s, i, Keyword::ContainerLiquidType.spelling());
    lemma_word_letters(s, i, Keyword::Content.spelling());
}

/// A flag is found exactly where it is written, and where a flag is written
/// `Content:` is not.
pub proof fn law_flag_found_where_written(s: Seq<char>, i: int, flag: Flag)
    ensures
        flag_at(s, i) == Some(flag) <==> has_word_at(s, i, flag.spelling()),
        has_word_at(s, i, flag.spelling()) ==> !has_word_at(s, i, Keyword::Content.spelling()),
{
    reveal_strlit("Refresh:");
    reveal_strlit("NoLogout:");
    reveal_strlit("Protection Zone:");
    reveal_strlit("Content:");
    let _ = letter_at(s, i, 0);
    lemma_word_letters(s, i, Flag::Refresh.spelling());
    lemma_word_letters(s, i, Flag::NoLogout.spelling());
    lemma_word_letters(s, i, Flag::ProtectionZone.spelling());
    lemma_word_letters(s, i, Keyword::Content.spelling());
}

/// A tile header with more than one `-` is refused, so a header with a
/// negative offset is: the tile is not read, the failure is a malformed
/// header, and the cursor rests at the end of the header.
pub proof fn law_second_dash_refuses_header(s: Seq<char>, i: int, a: int, b: int)
    requires
        0 <= i <= a < b < header_end(s, i) < s.len(),
        s[a] == '-',
        s[b] == '-',
    ensures
        read_tile(s, i) == (Parsed::<TileView>::Failed {
            error: ParseError::MalformedHeader,
            at: header_end(s, i),
        }),
{
    let d = next_char(s, i, '-');
    lemma_next_char_bounds(s, i, '-');
    lemma_next_char_bounds(s, d + 1, '-');
}

/// A quoted string moves the cursor by its own length and its two quotes,
/// counted in characters: what is returned is what stands between the
/// quotes, with nothing taken away and nothing put in.
pub proof fn law_text_moves_cursor_by_its_length(s: Seq<char>, i: int)
    ensures
        read_text(s, i) matches Parsed::Done { value, end } ==> end == i + value.len() + 2
            && value == s.subrange(i + 1, end - 1),
{
    lemma_read_text_advances(s, i);
}

} // verus!
