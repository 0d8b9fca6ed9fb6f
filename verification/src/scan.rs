//! The scanner that finds the tiles of one line.

use crate::error::{ParseError, Parsed};
use crate::lexis::{find_digit, lemma_next_digit_bounds, next_digit};
use crate::model::{lemma_tiles_view_push, tiles_view, Tile, TileView};
use crate::tile::{lemma_read_tile_bounds, parse_tile, read_tile};
use vstd::prelude::*;

verus! {

/// What one line holds: its tiles, in the order of the line, and the columns
/// of the headers that were refused as malformed.
#[derive(Debug, PartialEq, Eq)]
pub struct LineScan {
    pub tiles: Vec<Tile>,
    pub rejected: Vec<usize>,
}

/// What a [`LineScan`] stands for in contracts.
pub struct LineView {
    pub tiles: Seq<TileView>,
    pub rejected: Seq<int>,
}

/// A failure that ends the reading of a line, and the column where it was
/// found: the number of characters before it.
#[derive(Clone, Copy, Debug, PartialEq, Eq)]
pub struct Fault {
    pub error: ParseError,
    pub column: usize,
}

/// The columns in `columns`, as numbers.
pub open spec fn columns_view(columns: Seq<usize>) -> Seq<int> {
    Seq::new(columns.len(), |k: int| columns[k] as int)
}

impl View for LineScan {
    type V = LineView;

    open spec fn view(&self) -> LineView {
        LineView { tiles: tiles_view(self.tiles@), rejected: columns_view(self.rejected@) }
    }
}

impl LineView {
    /// A line without tiles.
    pub open spec fn empty() -> LineView {
        LineView { tiles: Seq::empty(), rejected: Seq::empty() }
    }
}

/// The tiles of a line from `i` on, added to `acc`. Whatever stands before
/// the next decimal digit separates entries and is passed over; the digit
/// starts a tile header. A tile that is read is kept, and reading goes on
/// behind it. A header that is refused as malformed is noted by its column,
/// and reading goes on behind the header. Any other failure ends the line.
pub open spec fn scan_tiles(s: Seq<char>, i: int, acc: LineView) -> Parsed<LineView>
    decreases s.len() - i,
{
    if i < 0 || i >= s.len() {
        Parsed::Done { value: acc, end: i }
    } else {
        let j = next_digit(s, i);
        if j >= s.len() {
            Parsed::Done { value: acc, end: s.len() as int }
        } else {
            proof {
                lemma_next_digit_bounds(s, i);
                lemma_read_tile_bounds(s, j);
            }
            match read_tile(s, j) {
                Parsed::Done { value, end } => scan_tiles(
                    s,
                    end,
                    LineView { tiles: acc.tiles.push(value), ..acc },
                ),
                Parsed::Failed { error, at } => if error == ParseError::MalformedHeader {
                    scan_tiles(s, at, LineView { rejected: acc.rejected.push(j), ..acc })
                } else {
                    Parsed::Failed { error, at }
                },
            }
        }
    }
}

/// Reads every tile of one line. A malformed header costs its tile alone;
/// any other failure ends the line and comes back with its column.
pub fn scan_line(text: &[char]) -> (r: Result<LineScan, Fault>)
    ensures
        match scan_tiles(text@, 0, LineView::empty()) {
            Parsed::Done { value, .. } => r matches Ok(scan) && scan@ == value,
            Parsed::Failed { error, at } => r matches Err(fault) && fault.error == error
                && fault.column == at,
        },
{
    let len = text.len();
    let mut scan = LineScan { tiles: Vec::new(), rejected: Vec::new() };
    let mut i: usize = 0;
    assert(scan@.tiles =~= Seq::<TileView>::empty());
    assert(scan@.rejected =~= Seq::<int>::empty());
    loop
        invariant
            len == text@.len(),
            i <= len,
            scan_tiles(text@, i as int, scan@) == scan_tiles(text@, 0, LineView::empty()),
        decreases len - i,
    {
        if i >= len {
            return Ok(scan);
        }
        proof {
            lemma_next_digit_bounds(text@, i as int);
        }
        let j = find_digit(text, i);
        if j >= len {
            return Ok(scan);
        }
        proof {
            lemma_read_tile_bounds(text@, j as int);
        }
        let mut cursor = j;
        match parse_tile(text, &mut cursor) {
            Ok(tile) => {
                proof {
                    lemma_tiles_view_push(scan.tiles@, tile);
                }
                scan.tiles.push(tile);
            },
            Err(error) => {
                match error {
                    ParseError::MalformedHeader => {
                        assert(columns_view(scan.rejected@.push(j)) =~= columns_view(
                            scan.rejected@,
                        ).push(j as int));
                        scan.rejected.push(j);
                    },
                    _ => {
                        return Err(Fault { error, column: cursor });
                    },
                }
            },
        }
        i = cursor;
    }
}

} // verus!
