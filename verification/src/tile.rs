//! The reader of one tile: its header, its flags and its content.

use crate::content::{lemma_read_items_bounds, parse_content, read_items, MAX_DEPTH};
use crate::error::{ParseError, Parsed};
use crate::keyword::Keyword;
use crate::lexis::{
    find_char_before, has_word_at, is_digit, lemma_next_char_bounds, next_char, starts_with_at,
};
use crate::model::{content_view, Item, ItemView, Tile, TileView};
use crate::number::{parse_number, read_number};
use vstd::prelude::*;

verus! {

/// The flags that a tile can carry.
#[derive(Clone, Copy, Debug, PartialEq, Eq, Structural)]
pub enum Flag {
    Refresh,
    NoLogout,
    ProtectionZone,
}

impl Flag {
    /// The flag as it is written, its colon included.
    pub open spec fn spelling(self) -> Seq<char> {
        match self {
            Flag::Refresh => "Refresh:"@,
            Flag::NoLogout => "NoLogout:"@,
            Flag::ProtectionZone => "Protection Zone:"@,
        }
    }

    /// The flag as it is written, its colon included.
    pub fn text(self) -> (word: &'static str)
        ensures
            word@ == self.spelling(),
    {
        match self {
            Flag::Refresh => "Refresh:",
            Flag::NoLogout => "NoLogout:",
            Flag::ProtectionZone => "Protection Zone:",
        }
    }
}

impl TileView {
    /// This tile with `flag` raised.
    pub open spec fn with_flag(self, flag: Flag) -> TileView {
        match flag {
            Flag::Refresh => TileView { refresh: Some(true), ..self },
            Flag::NoLogout => TileView { no_logout: Some(true), ..self },
            Flag::ProtectionZone => TileView { protection_zone: Some(true), ..self },
        }
    }
}

impl Tile {
    /// Raises `flag` on the tile.
    pub fn set_flag(&mut self, flag: Flag)
        ensures
            final(self)@ == old(self)@.with_flag(flag),
    {
        match flag {
            Flag::Refresh => {
                self.refresh = Some(true);
            },
            Flag::NoLogout => {
                self.no_logout = Some(true);
            },
            Flag::ProtectionZone => {
                self.protection_zone = Some(true);
            },
        }
    }
}

/// The flag that is written in `s` at position `i`, if one is.
pub open spec fn flag_at(s: Seq<char>, i: int) -> Option<Flag> {
    if has_word_at(s, i, Flag::Refresh.spelling()) {
        Some(Flag::Refresh)
    } else if has_word_at(s, i, Flag::NoLogout.spelling()) {
        Some(Flag::NoLogout)
    } else if has_word_at(s, i, Flag::ProtectionZone.spelling()) {
        Some(Flag::ProtectionZone)
    } else {
        None
    }
}

/// The first position from `i` on where a colon and a space stand together,
/// or the length of `s` where they do not follow: the end of a tile header.
pub open spec fn header_end(s: Seq<char>, i: int) -> int
    decreases s.len() - i,
{
    if i < 0 || i + 1 >= s.len() {
        s.len() as int
    } else if s[i] == ':' && s[i + 1] == ' ' {
        i
    } else {
        header_end(s, i + 1)
    }
}

/// The two offsets of a tile header at `i`. The header runs up to the next
/// `": "`. Cut at each `-`, it has to fall into exactly two parts, which a
/// header with a negative offset does not; each part has to be an integer
/// and nothing more. The cursor ends behind the `": "`; where the header is
/// refused as malformed it ends at the end of the header. Where no `": "`
/// follows at all, the header is the rest of the text, and is refused.
pub open spec fn read_header(s: Seq<char>, i: int) -> Parsed<(int, int)> {
    let p = header_end(s, i);
    let d = next_char(s, i, '-');
    if i < 0 || i >= s.len() {
        Parsed::Failed { error: ParseError::MalformedHeader, at: i }
    } else if p >= s.len() || d >= p || next_char(s, d + 1, '-') < p {
        Parsed::Failed { error: ParseError::MalformedHeader, at: p }
    } else {
        match read_number(s, i) {
            Parsed::Done { value: x, end } if end == d => match read_number(s, d + 1) {
                Parsed::Done { value: y, end } if end == p => Parsed::Done {
                    value: (x, y),
                    end: p + 2,
                },
                _ => Parsed::Failed { error: ParseError::MalformedNumber, at: d + 1 },
            },
            _ => Parsed::Failed { error: ParseError::MalformedNumber, at: i },
        }
    }
}

/// The flags of a tile, read from `c` on into `tile`. Spaces are passed
/// over. Each flag that stands there is raised; `Content:` is followed by
/// the list of the tile's items and ends the run; anything else ends the run
/// where it stands, and so does the end of the text.
pub open spec fn read_flags(s: Seq<char>, c: int, tile: TileView) -> Parsed<TileView>
    decreases s.len() - c,
{
    if c < 0 || c >= s.len() {
        Parsed::Done { value: tile, end: c }
    } else if s[c] == ' ' {
        read_flags(s, c + 1, tile)
    } else {
        match flag_at(s, c) {
            Some(flag) => {
                proof {
                    lemma_flag_spelling_nonempty(flag);
                }
                read_flags(s, c + flag.spelling().len(), tile.with_flag(flag))
            },
            None => if has_word_at(s, c, Keyword::Content.spelling()) {
                match read_items(
                    s,
                    c + Keyword::Content.spelling().len(),
                    MAX_DEPTH as nat,
                    Seq::empty(),
                ) {
                    Parsed::Done { value, end } => Parsed::Done {
                        value: TileView { content: Some(value), ..tile },
                        end,
                    },
                    Parsed::Failed { error, at } => Parsed::Failed { error, at },
                }
            } else {
                Parsed::Done { value: tile, end: c }
            },
        }
    }
}

/// One tile at `i`: its header, then its flags and content.
pub open spec fn read_tile(s: Seq<char>, i: int) -> Parsed<TileView> {
    match read_header(s, i) {
        Parsed::Failed { error, at } => Parsed::Failed { error, at },
        Parsed::Done { value: (x, y), end } => read_flags(s, end, TileView::new(x, y)),
    }
}

/// Every flag has at least one character.
pub proof fn lemma_flag_spelling_nonempty(flag: Flag)
    ensures
        flag.spelling().len() > 0,
{
    reveal_strlit("Refresh:");
    reveal_strlit("NoLogout:");
    reveal_strlit("Protection Zone:");
}

/// Where a header ends: not before `i`, and inside the text only at a colon
/// with a space behind it.
pub proof fn lemma_header_end_bounds(s: Seq<char>, i: int)
    requires
        0 <= i,
    ensures
        header_end(s, i) <= s.len(),
        i <= header_end(s, i) || header_end(s, i) == s.len(),
        header_end(s, i) < s.len() ==> header_end(s, i) + 1 < s.len() && s[header_end(s, i)] == ':'
            && s[header_end(s, i) + 1] == ' ',
    decreases s.len() - i,
{
    if i + 1 < s.len() && !(s[i] == ':' && s[i + 1] == ' ') {
        lemma_header_end_bounds(s, i + 1);
    }
}

/// Flags are read forwards and inside the text.
pub proof fn lemma_read_flags_bounds(s: Seq<char>, c: int, tile: TileView)
    requires
        0 <= c <= s.len(),
    ensures
        match read_flags(s, c, tile) {
            Parsed::Done { end, .. } => c <= end <= s.len(),
            Parsed::Failed { at, .. } => c <= at <= s.len(),
        },
    decreases s.len() - c,
{
    if c >= s.len() {
    } else if s[c] == ' ' {
        lemma_read_flags_bounds(s, c + 1, tile);
    } else {
        match flag_at(s, c) {
            Some(flag) => {
                lemma_flag_spelling_nonempty(flag);
                lemma_read_flags_bounds(s, c + flag.spelling().len(), tile.with_flag(flag));
            },
            None => {
                if has_word_at(s, c, Keyword::Content.spelling()) {
                    lemma_read_items_bounds(
                        s,
                        c + Keyword::Content.spelling().len(),
                        MAX_DEPTH as nat,
                        Seq::empty(),
                    );
                }
            },
        }
    }
}

/// A tile whose header starts with a digit is read forwards and inside the
/// text, and whether it is read or refused, the cursor leaves the digit
/// behind.
pub proof fn lemma_read_tile_bounds(s: Seq<char>, i: int)
    requires
        0 <= i < s.len(),
        is_digit(s[i]),
    ensures
        match read_tile(s, i) {
            Parsed::Done { end, .. } => i < end <= s.len(),
            Parsed::Failed { error, at } => i <= at <= s.len() && (error
                == ParseError::MalformedHeader ==> i < at),
        },
{
    let p = header_end(s, i);
    let d = next_char(s, i, '-');
    lemma_header_end_bounds(s, i);
    lemma_next_char_bounds(s, i, '-');
    if d < s.len() {
        lemma_next_char_bounds(s, d + 1, '-');
    }
    match read_header(s, i) {
        Parsed::Failed { .. } => {},
        Parsed::Done { value: (x, y), end } => {
            lemma_read_flags_bounds(s, end, TileView::new(x, y));
        },
    }
}

/// Moves from `from` to the end of the tile header of `text`.
fn find_header_end(text: &[char], from: usize) -> (at: usize)
    ensures
        at as int == header_end(text@, from as int),
{
    let len = text.len();
    let mut i: usize = from;
    while i < len && len - i >= 2
        invariant
            len == text@.len(),
            header_end(text@, i as int) == header_end(text@, from as int),
        decreases len - i,
    {
        if text[i] == ':' && text[i + 1] == ' ' {
            return i;
        }
        i += 1;
    }
    len
}

/// Looks for a flag in `text` at position `at`.
fn match_flag(text: &[char], at: usize) -> (found: Option<Flag>)
    ensures
        found == flag_at(text@, at as int),
{
    if starts_with_at(text, at, Flag::Refresh.text()) {
        Some(Flag::Refresh)
    } else if starts_with_at(text, at, Flag::NoLogout.text()) {
        Some(Flag::NoLogout)
    } else if starts_with_at(text, at, Flag::ProtectionZone.text()) {
        Some(Flag::ProtectionZone)
    } else {
        None
    }
}

/// Reads the two offsets of the tile header of `text` at `from`. The result
/// is the offsets and the cursor behind the header; a failure comes with the
/// position where reading stopped.
fn parse_header(text: &[char], from: usize) -> (r: Result<(i32, i32, usize), (ParseError, usize)>)
    ensures
        match read_header(text@, from as int) {
            Parsed::Done { value: (x, y), end } => r matches Ok((offset_x, offset_y, cursor))
                && offset_x == x && offset_y == y && cursor == end,
            Parsed::Failed { error, at } => r matches Err((reason, cursor)) && reason == error
                && cursor == at,
        },
{
    let len = text.len();
    if from >= len {
        return Err((ParseError::MalformedHeader, from));
    }
    let p = find_header_end(text, from);
    proof {
        lemma_header_end_bounds(text@, from as int);
        lemma_next_char_bounds(text@, from as int, '-');
    }
    if p >= len {
        return Err((ParseError::MalformedHeader, p));
    }
    let d = match find_char_before(text, from, p, '-') {
        None => {
            return Err((ParseError::MalformedHeader, p));
        },
        Some(d) => d,
    };
    if find_char_before(text, d + 1, p, '-').is_some() {
        return Err((ParseError::MalformedHeader, p));
    }
    let mut cursor = from;
    let offset_x = match parse_number(&mut cursor, text) {
        Ok(number) => number,
        Err(_) => {
            return Err((ParseError::MalformedNumber, from));
        },
    };
    if cursor != d {
        return Err((ParseError::MalformedNumber, from));
    }
    cursor = d + 1;
    let offset_y = match parse_number(&mut cursor, text) {
        Ok(number) => number,
        Err(_) => {
            return Err((ParseError::MalformedNumber, d + 1));
        },
    };
    if cursor != p {
        return Err((ParseError::MalformedNumber, d + 1));
    }
    Ok((offset_x, offset_y, p + 2))
}

/// Reads the flags and the content of a tile from `from` on into `blank`. The
/// result is the tile and the cursor behind it; a failure comes with the
/// position where it was found.
fn parse_flags(text: &[char], from: usize, blank: Tile) -> (r: Result<
    (Tile, usize),
    (ParseError, usize),
>)
    requires
        from <= text@.len(),
    ensures
        match read_flags(text@, from as int, blank@) {
            Parsed::Done { value, end } => r matches Ok((seen, cursor)) && seen@ == value
                && cursor == end,
            Parsed::Failed { error, at } => r matches Err((reason, cursor)) && reason == error
                && cursor == at,
        },
{
    let len = text.len();
    let mut tile = blank;
    let mut c: usize = from;
    loop
        invariant
            len == text@.len(),
            c <= len,
            read_flags(text@, c as int, tile@) == read_flags(text@, from as int, blank@),
        decreases len - c,
    {
        if c >= len {
            return Ok((tile, c));
        }
        if text[c] == ' ' {
            c += 1;
            continue ;
        }
        match match_flag(text, c) {
            Some(flag) => {
                proof {
                    lemma_flag_spelling_nonempty(flag);
                }
                tile.set_flag(flag);
                c += flag.text().unicode_len();
            },
            None => {
                if !starts_with_at(text, c, Keyword::Content.text()) {
                    return Ok((tile, c));
                }
                let mut cursor = c + Keyword::Content.text().unicode_len();
                let mut content: Option<Vec<Item>> = Some(Vec::new());
                assert(content_view(content)->0 =~= Seq::<ItemView>::empty());
                match parse_content(&mut content, text, &mut cursor) {
                    Err(error) => {
                        return Err((error, cursor));
                    },
                    Ok(()) => {
                        tile.content = content;
                        return Ok((tile, cursor));
                    },
                }
            },
        }
    }
}

/// Reads the tile of `text` whose header starts at `*index`, with its flags
/// and content, and moves the cursor behind it. On a failure the cursor
/// marks the place; for a malformed header that is the end of the header.
pub fn parse_tile(text: &[char], index: &mut usize) -> (r: Result<Tile, ParseError>)
    ensures
        match read_tile(text@, *old(index) as int) {
            Parsed::Done { value, end } => r matches Ok(tile) && tile@ == value && *final(index)
                == end,
            Parsed::Failed { error, at } => r matches Err(reason) && reason == error
                && *final(index) == at,
        },
{
    let start = *index;
    match parse_header(text, start) {
        Err((error, at)) => {
            *index = at;
            Err(error)
        },
        Ok((offset_x, offset_y, cursor)) => {
            proof {
                lemma_header_end_bounds(text@, start as int);
            }
            match parse_flags(text, cursor, Tile::new(offset_x, offset_y)) {
                Err((error, at)) => {
                    *index = at;
                    Err(error)
                },
                Ok((tile, end)) => {
                    *index = end;
                    Ok(tile)
                },
            }
        },
    }
}

} // verus!
