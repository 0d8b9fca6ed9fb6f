//! The reader of whole sector texts: it cuts the text into lines, leaves out
//! empty lines and comments, and gathers the tiles of the other lines.

use crate::error::{ParseError, Parsed};
use crate::lexis::{chars_of, find_char, lemma_next_char_bounds, next_char};
use crate::model::{tiles_view, Sector, Tile, TileView};
use crate::scan::{columns_view, scan_line, scan_tiles, LineView};
use crate::trusted::{decode_windows_1252, windows_1252_text};
use vstd::prelude::*;

verus! {

/// A place in a sector text: the number of its line, counted from 1, and
/// the number of characters that stand before it in that line.
#[derive(Clone, Copy, Debug, PartialEq, Eq)]
pub struct Position {
    pub line: usize,
    pub column: usize,
}

/// What a [`Position`] stands for in contracts.
pub struct Place {
    pub line: int,
    pub column: int,
}

/// A sector that was read, and the places of the tile headers that were
/// refused as malformed on the way.
#[derive(Debug, PartialEq, Eq)]
pub struct Report {
    pub sector: Sector,
    pub rejected: Vec<Position>,
}

/// What a [`Report`] stands for in contracts.
pub struct ReportView {
    pub tiles: Seq<TileView>,
    pub rejected: Seq<Place>,
}

/// Why a sector text was given up, and where.
#[derive(Clone, Copy, Debug, PartialEq, Eq)]
pub struct Failure {
    pub error: ParseError,
    pub at: Position,
}

/// What a [`Failure`] stands for in contracts.
pub struct FailedAt {
    pub error: ParseError,
    pub at: Place,
}

impl View for Position {
    type V = Place;

    open spec fn view(&self) -> Place {
        Place { line: self.line as int, column: self.column as int }
    }
}

/// The places in `positions`, in the same order.
pub open spec fn places_view(positions: Seq<Position>) -> Seq<Place> {
    Seq::new(positions.len(), |k: int| positions[k]@)
}

/// The places of `columns` in the line with the number `line`.
pub open spec fn places_in_line(line: int, columns: Seq<int>) -> Seq<Place> {
    Seq::new(columns.len(), |k: int| Place { line, column: columns[k] })
}

impl View for Report {
    type V = ReportView;

    open spec fn view(&self) -> ReportView {
        ReportView { tiles: self.sector@, rejected: places_view(self.rejected@) }
    }
}

impl View for Failure {
    type V = FailedAt;

    open spec fn view(&self) -> FailedAt {
        FailedAt { error: self.error, at: self.at@ }
    }
}

impl ReportView {
    /// The report of a text without tiles.
    pub open spec fn empty() -> ReportView {
        ReportView { tiles: Seq::empty(), rejected: Seq::empty() }
    }

    /// This report with what the line with the number `line` holds behind
    /// it.
    pub open spec fn with_line(self, line: int, found: LineView) -> ReportView {
        ReportView {
            tiles: self.tiles + found.tiles,
            rejected: self.rejected + places_in_line(line, found.rejected),
        }
    }
}

/// The line that starts at `i`: the characters up to the next line feed, or
/// to the end of the text where none follows. A carriage return just before
/// the line feed belongs to the line break, not to the line.
pub open spec fn line_text(s: Seq<char>, i: int) -> Seq<char> {
    let e = next_char(s, i, '\n');
    if i < e < s.len() && s[e - 1] == '\r' {
        s.subrange(i, e - 1)
    } else {
        s.subrange(i, e)
    }
}

/// Where the line behind the one at `i` starts.
pub open spec fn next_line(s: Seq<char>, i: int) -> int {
    let e = next_char(s, i, '\n');
    if e < s.len() {
        e + 1
    } else {
        s.len() as int
    }
}

/// Whether a line is left out: an empty line, or a comment, which starts
/// with `#`.
pub open spec fn is_skipped(line: Seq<char>) -> bool {
    line.len() == 0 || line[0] == '#'
}

/// The lines of `s` from position `i` on, where the line with the number
/// `line` starts, added to `acc`. Lines that are left out add nothing. The
/// first failure that ends a line ends the text, and comes back with its
/// place.
pub open spec fn read_lines(s: Seq<char>, i: int, line: int, acc: ReportView) -> Result<
    ReportView,
    FailedAt,
>
    decreases s.len() - i,
{
    if i < 0 || i >= s.len() {
        Ok(acc)
    } else {
        proof {
            lemma_next_char_bounds(s, i, '\n');
        }
        if is_skipped(line_text(s, i)) {
            read_lines(s, next_line(s, i), line + 1, acc)
        } else {
            match scan_tiles(line_text(s, i), 0, LineView::empty()) {
                Parsed::Failed { error, at } => Err(
                    FailedAt { error, at: Place { line, column: at } },
                ),
                Parsed::Done { value, .. } => read_lines(
                    s,
                    next_line(s, i),
                    line + 1,
                    acc.with_line(line, value),
                ),
            }
        }
    }
}

/// What a whole sector text comes to.
pub open spec fn read_sector(s: Seq<char>) -> Result<ReportView, FailedAt> {
    read_lines(s, 0, 1, ReportView::empty())
}

/// Whether `r` is what reading the text `s` comes to: the same tiles in the
/// same order with the same refused headers, or the same failure at the same
/// place.
pub open spec fn is_reading_of(r: Result<Report, Failure>, s: Seq<char>) -> bool {
    match read_sector(s) {
        Ok(report) => r matches Ok(found) && found@ == report,
        Err(failure) => r matches Err(reason) && reason@ == failure,
    }
}

/// Notes the refused headers of one line.
fn note_rejected(rejected: &mut Vec<Position>, line: usize, columns: &Vec<usize>)
    ensures
        places_view(final(rejected)@) == places_view(old(rejected)@) + places_in_line(
            line as int,
            columns_view(columns@),
        ),
{
    let mut k: usize = 0;
    while k < columns.len()
        invariant
            k <= columns@.len(),
            places_view(rejected@) == places_view(old(rejected)@) + places_in_line(
                line as int,
                columns_view(columns@.take(k as int)),
            ),
        decreases columns@.len() - k,
    {
        let ghost before = rejected@;
        rejected.push(Position { line, column: columns[k] });
        assert(places_view(rejected@) =~= places_view(old(rejected)@) + places_in_line(
            line as int,
            columns_view(columns@.take(k + 1)),
        )) by {
            let added = places_in_line(line as int, columns_view(columns@.take(k as int)));
            assert(places_view(before) == places_view(old(rejected)@) + added);
            assert(places_view(rejected@) =~= places_view(before).push(
                Place { line: line as int, column: columns@[k as int] as int },
            ));
        }
        k += 1;
    }
    assert(columns@.take(k as int) =~= columns@);
}

/// Reads a whole sector text, line by line.
pub fn parse_lines(text: &[char]) -> (r: Result<Report, Failure>)
    ensures
        is_reading_of(r, text@),
{
    let len = text.len();
    let mut tiles: Vec<Tile> = Vec::new();
    let mut rejected: Vec<Position> = Vec::new();
    let mut i: usize = 0;
    // The number of lines that lie before `i`.
    let mut passed: usize = 0;
    assert(tiles_view(tiles@) =~= Seq::<TileView>::empty());
    assert(places_view(rejected@) =~= Seq::<Place>::empty());
    while i < len
        invariant
            len == text@.len(),
            i <= len,
            passed <= i,
            read_lines(
                text@,
                i as int,
                passed + 1,
                ReportView { tiles: tiles_view(tiles@), rejected: places_view(rejected@) },
            ) == read_sector(text@),
        decreases len - i,
    {
        proof {
            lemma_next_char_bounds(text@, i as int, '\n');
        }
        let e = find_char(text, i, '\n');
        let stop = if i < e && e < len && text[e - 1] == '\r' {
            e - 1
        } else {
            e
        };
        let next = if e < len {
            e + 1
        } else {
            len
        };
        let line = &text[i..stop];
        if stop > i && line[0] != '#' {
            match scan_line(line) {
                Err(fault) => {
                    return Err(
                        Failure {
                            error: fault.error,
                            at: Position { line: passed + 1, column: fault.column },
                        },
                    );
                },
                Ok(scan) => {
                    let mut scan = scan;
                    assert(tiles_view(tiles@ + scan.tiles@) =~= tiles_view(tiles@) + tiles_view(
                        scan.tiles@,
                    ));
                    tiles.append(&mut scan.tiles);
                    note_rejected(&mut rejected, passed + 1, &scan.rejected);
                },
            }
        }
        i = next;
        passed += 1;
    }
    Ok(Report { sector: Sector { tiles }, rejected })
}

/// Reads a whole sector text.
pub fn parse_sector_text(text: &str) -> (r: Result<Report, Failure>)
    ensures
        is_reading_of(r, text@),
{
    let chars = chars_of(text);
    parse_lines(chars.as_slice())
}

/// Reads a whole sector file: its bytes are taken as Windows-1252, one
/// character for each byte, and the text is read.
pub fn parse_sector(bytes: &[u8]) -> (r: Result<Report, Failure>)
    requires
        bytes@.len() * 3 <= isize::MAX,
    ensures
        is_reading_of(r, windows_1252_text(bytes@)),
{
    let text = decode_windows_1252(bytes);
    parse_sector_text(text.as_str())
}

} // verus!
