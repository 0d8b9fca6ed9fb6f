use sector_parser::error::ParseError;
use sector_parser::model::{Item, Sector, Tile};
use sector_parser::scan::{scan_line, Fault, LineScan};
use sector_parser::tile::{parse_tile, Flag};

fn signs(s: &str) -> Vec<char> {
    s.chars().collect()
}

fn tile_at(s: &str, at: usize) -> (Result<Tile, ParseError>, usize) {
    let text = signs(s);
    let mut cursor = at;
    let r = parse_tile(&text, &mut cursor);
    (r, cursor)
}

fn line(s: &str) -> Result<LineScan, Fault> {
    scan_line(&signs(s))
}

fn tile(x: i32, y: i32) -> Tile {
    Tile::new(x, y)
}

#[test]
fn new_tile_and_sector_are_empty() {
    let t = Tile::new(3, -4);
    assert_eq!(t.offset_x, 3);
    assert_eq!(t.offset_y, -4);
    assert_eq!(t.refresh, None);
    assert_eq!(t.protection_zone, None);
    assert_eq!(t.no_logout, None);
    assert_eq!(t.content, None);
    assert_eq!(Sector::new().tiles, vec![]);
}

#[test]
fn flags_are_spelled_with_their_colon() {
    assert_eq!(Flag::Refresh.text(), "Refresh:");
    assert_eq!(Flag::NoLogout.text(), "NoLogout:");
    assert_eq!(Flag::ProtectionZone.text(), "Protection Zone:");
    let mut t = tile(0, 0);
    t.set_flag(Flag::NoLogout);
    assert_eq!(t.no_logout, Some(true));
    assert_eq!(t.refresh, None);
    assert_eq!(t.protection_zone, None);
}

#[test]
fn negative_first_offset_is_rejected() {
    assert_eq!(tile_at("-5-3: Refresh:", 0), (Err(ParseError::MalformedHeader), 4));
}

#[test]
fn negative_second_offset_is_rejected() {
    assert_eq!(tile_at("5--3: Refresh:", 0), (Err(ParseError::MalformedHeader), 4));
    assert_eq!(line("5--3: Refresh:"), Ok(LineScan { tiles: vec![], rejected: vec![0] }));
}

#[test]
fn sign_before_a_header_separates_entries_in_a_line() {
    // Read as a line, the sign is among what stands between entries.
    let mut expected = tile(5, 3);
    expected.refresh = Some(true);
    assert_eq!(line("-5-3: Refresh:"), Ok(LineScan { tiles: vec![expected], rejected: vec![] }));
}

#[test]
fn nested_containers_on_a_tile() {
    let (r, cursor) = tile_at("0-0: Content:{1000 Content:{2000}, 3000}", 0);
    let mut first = Item::new(1000);
    first.content = Some(vec![Item::new(2000)]);
    let mut expected = tile(0, 0);
    expected.content = Some(vec![first, Item::new(3000)]);
    assert_eq!(r, Ok(expected));
    assert_eq!(cursor, 40);
}

#[test]
fn tile_without_flags() {
    assert_eq!(tile_at("12-31: ", 0), (Ok(tile(12, 31)), 7));
    assert_eq!(tile_at("12-31: x", 0), (Ok(tile(12, 31)), 7));
    assert_eq!(tile_at("0-0: 1-0: ", 0), (Ok(tile(0, 0)), 5));
}

#[test]
fn flags_in_any_order() {
    let mut expected = tile(1, 2);
    expected.refresh = Some(true);
    expected.no_logout = Some(true);
    expected.protection_zone = Some(true);
    assert_eq!(
        tile_at("1-2: Refresh: NoLogout: Protection Zone:", 0),
        (Ok(tile_copy(&expected)), 40)
    );
    assert_eq!(
        tile_at("1-2: Protection Zone: NoLogout: Refresh: ", 0),
        (Ok(tile_copy(&expected)), 41)
    );
    assert_eq!(
        tile_at("1-2: Protection Zone:Refresh:NoLogout:", 0).0,
        Ok(tile_copy(&expected))
    );
}

fn tile_copy(t: &Tile) -> Tile {
    let mut copy = Tile::new(t.offset_x, t.offset_y);
    copy.refresh = t.refresh;
    copy.no_logout = t.no_logout;
    copy.protection_zone = t.protection_zone;
    copy
}

#[test]
fn absent_flags_stay_absent() {
    let (r, _) = tile_at("1-2: NoLogout: ", 0);
    let t = r.unwrap();
    assert_eq!(t.no_logout, Some(true));
    assert_eq!(t.refresh, None);
    assert_eq!(t.protection_zone, None);
    assert_eq!(t.content, None);
}

#[test]
fn content_ends_the_flags() {
    let mut expected = tile(9, 9);
    expected.refresh = Some(true);
    expected.content = Some(vec![Item::new(7)]);
    assert_eq!(tile_at("9-9: Refresh: Content:{7} NoLogout:", 0), (Ok(expected), 25));
}

#[test]
fn flag_must_be_written_in_full() {
    assert_eq!(tile_at("1-2: Refresh", 0), (Ok(tile(1, 2)), 5));
    assert_eq!(tile_at("1-2: refresh:", 0), (Ok(tile(1, 2)), 5));
    assert_eq!(tile_at("1-2: ProtectionZone:", 0), (Ok(tile(1, 2)), 5));
    assert_eq!(tile_at("1-2: Content {1}", 0), (Ok(tile(1, 2)), 5));
}

#[test]
fn header_needs_its_delimiter() {
    assert_eq!(tile_at("1-2:Refresh:", 0), (Err(ParseError::MalformedHeader), 12));
    assert_eq!(tile_at("1-2", 0), (Err(ParseError::MalformedHeader), 3));
    assert_eq!(tile_at("", 0), (Err(ParseError::MalformedHeader), 0));
    assert_eq!(tile_at("1-2: ", 9), (Err(ParseError::MalformedHeader), 9));
}

#[test]
fn header_needs_exactly_two_parts() {
    assert_eq!(tile_at("12: Refresh:", 0), (Err(ParseError::MalformedHeader), 2));
    assert_eq!(tile_at("1-2-3: ", 0), (Err(ParseError::MalformedHeader), 5));
    assert_eq!(tile_at(": ", 0), (Err(ParseError::MalformedHeader), 0));
}

#[test]
fn header_parts_must_be_integers() {
    assert_eq!(tile_at("1x-2: ", 0), (Err(ParseError::MalformedNumber), 0));
    assert_eq!(tile_at("1-2x: ", 0), (Err(ParseError::MalformedNumber), 2));
    assert_eq!(tile_at("1-: ", 0), (Err(ParseError::MalformedNumber), 2));
    assert_eq!(tile_at("-1: ", 0), (Err(ParseError::MalformedNumber), 0));
    assert_eq!(tile_at("1-+2: ", 0), (Err(ParseError::MalformedNumber), 2));
    assert_eq!(tile_at("1 -2: ", 0), (Err(ParseError::MalformedNumber), 0));
    assert_eq!(tile_at("4294967296-0: ", 0), (Err(ParseError::MalformedNumber), 0));
    assert_eq!(tile_at("0-4294967296: ", 0), (Err(ParseError::MalformedNumber), 2));
}

#[test]
fn content_failure_is_the_tiles_failure() {
    assert_eq!(tile_at("0-0: Content:{1 Bogus:1}", 0), (Err(ParseError::UnknownKeyword), 16));
    assert_eq!(
        tile_at("0-0: Content:{1 String:\"open}", 0),
        (Err(ParseError::UnterminatedString), 23)
    );
}

#[test]
fn line_holds_several_tiles_in_order() {
    let mut a = tile(0, 0);
    a.refresh = Some(true);
    let mut b = tile(1, 0);
    b.content = Some(vec![Item::new(4), Item::new(5)]);
    let mut c = tile(2, 0);
    c.no_logout = Some(true);
    assert_eq!(
        line("  0-0: Refresh:   1-0: Content:{4, 5} ; 2-0: NoLogout: "),
        Ok(LineScan { tiles: vec![a, b, c], rejected: vec![] })
    );
}

#[test]
fn line_without_digits_holds_nothing() {
    assert_eq!(line(""), Ok(LineScan { tiles: vec![], rejected: vec![] }));
    assert_eq!(line("   \t  "), Ok(LineScan { tiles: vec![], rejected: vec![] }));
    assert_eq!(line("Refresh: NoLogout:"), Ok(LineScan { tiles: vec![], rejected: vec![] }));
}

#[test]
fn rejected_header_does_not_end_the_line() {
    let mut kept = tile(7, 8);
    kept.no_logout = Some(true);
    assert_eq!(
        line("5--3: Refresh: 7-8: NoLogout:"),
        Ok(LineScan { tiles: vec![kept], rejected: vec![0] })
    );
}

#[test]
fn digits_behind_the_last_delimiter_are_a_rejected_header() {
    assert_eq!(
        line("0-0: Refresh: 5"),
        Ok(LineScan { tiles: vec![{
            let mut t = tile(0, 0);
            t.refresh = Some(true);
            t
        }], rejected: vec![14] })
    );
}

#[test]
fn other_failures_end_the_line() {
    assert_eq!(
        line("0-0: Refresh: 1-0: Content:{1 Bogus:1} 2-0: Refresh:"),
        Err(Fault { error: ParseError::UnknownKeyword, column: 30 })
    );
    assert_eq!(
        line(" 1x-0: Refresh:"),
        Err(Fault { error: ParseError::MalformedNumber, column: 1 })
    );
}
