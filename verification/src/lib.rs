//! Reader for the line-oriented text form of map sectors.
//!
//! A sector file lists the tiles of one sector of a game map. Its bytes are
//! Windows-1252. Empty lines and lines that start with `#` say nothing. Every
//! other line holds one tile or several:
//!
//! ```text
//! <int>-<int>: [Refresh: ][NoLogout: ][Protection Zone:][Content:{<items>}]
//! ```
//!
//! The two integers are the offsets of the tile in its sector. The items of a
//! list are separated by commas, and each is an id followed by attributes,
//! `Keyword:value`, with spaces between them. A value is an integer, a quoted
//! string, or, behind `Content:`, the list of the items that a container
//! holds.
//!
//! The modules follow the grammar from the bottom up: [`lexis`] has the
//! character-level helpers, [`number`] and [`quoted`] read the two kinds of
//! literal, [`keyword`] is the table of attribute keywords, [`content`] reads
//! lists of items, [`tile`] reads one tile, [`scan`] finds the tiles of a
//! line, and [`sector`] reads a whole text or file. [`model`] holds the
//! document that comes out and [`error`] the ways in which reading fails.
//!
//! Every reader is specified by a function on `Seq<char>` that says what it
//! reads at a position, and is proved to return exactly that. [`laws`] states
//! what follows for every text: the order of the source is kept, what is not
//! written is absent, and reading is repeatable.

pub mod content;
pub mod error;
pub mod keyword;
pub mod laws;
pub mod lexis;
pub mod model;
pub mod number;
pub mod quoted;
pub mod scan;
pub mod sector;
pub mod tile;
pub mod trusted;
