use sector_parser::error::ParseError;
use sector_parser::number::parse_number;
use sector_parser::quoted::parse_text;

fn letters(s: &str) -> Vec<char> {
    s.chars().collect()
}

fn number_at(s: &str, at: usize) -> (Result<i32, ParseError>, usize) {
    let text = letters(s);
    let mut cursor = at;
    let r = parse_number(&mut cursor, &text);
    (r, cursor)
}

fn text_at(s: &str, at: usize) -> (Result<String, ParseError>, usize) {
    let text = letters(s);
    let mut cursor = at;
    let r = parse_text(&text, &mut cursor);
    (r, cursor)
}

#[test]
fn number_stops_at_first_non_digit() {
    assert_eq!(number_at("123 abc", 0), (Ok(123), 3));
    assert_eq!(number_at("x42}", 1), (Ok(42), 3));
    assert_eq!(number_at("7", 0), (Ok(7), 1));
}

#[test]
fn number_takes_one_leading_minus() {
    assert_eq!(number_at("-45,", 0), (Ok(-45), 3));
    assert_eq!(number_at("12-3", 0), (Ok(12), 2));
    assert_eq!(number_at("12-3", 2), (Ok(-3), 4));
}

#[test]
fn number_keeps_leading_zeros_out_of_the_value() {
    assert_eq!(number_at("007", 0), (Ok(7), 3));
    assert_eq!(number_at("-000", 0), (Ok(0), 4));
    assert_eq!(number_at("00000000000000000000012", 0), (Ok(12), 23));
}

#[test]
fn number_without_digits_is_malformed() {
    assert_eq!(number_at("abc", 0), (Err(ParseError::MalformedNumber), 0));
    assert_eq!(number_at("", 0), (Err(ParseError::MalformedNumber), 0));
    assert_eq!(number_at("-", 0), (Err(ParseError::MalformedNumber), 0));
    assert_eq!(number_at("--5", 0), (Err(ParseError::MalformedNumber), 0));
    assert_eq!(number_at("+5", 0), (Err(ParseError::MalformedNumber), 0));
    assert_eq!(number_at(" 5", 0), (Err(ParseError::MalformedNumber), 0));
    assert_eq!(number_at("12", 2), (Err(ParseError::MalformedNumber), 2));
    assert_eq!(number_at("12", 9), (Err(ParseError::MalformedNumber), 9));
}

#[test]
fn number_at_the_limits_of_32_bits() {
    assert_eq!(number_at("2147483647", 0), (Ok(i32::MAX), 10));
    assert_eq!(number_at("-2147483648", 0), (Ok(i32::MIN), 11));
    assert_eq!(number_at("2147483648", 0), (Err(ParseError::MalformedNumber), 0));
    assert_eq!(number_at("-2147483649", 0), (Err(ParseError::MalformedNumber), 0));
    assert_eq!(
        number_at("99999999999999999999999999999999", 0),
        (Err(ParseError::MalformedNumber), 0)
    );
    assert_eq!(number_at("21474836470", 0), (Err(ParseError::MalformedNumber), 0));
}

#[test]
fn number_ignores_digits_of_other_scripts() {
    // An Arabic-Indic digit and a superscript two are no decimal digits here.
    assert_eq!(number_at("1\u{0663}", 0), (Ok(1), 1));
    assert_eq!(number_at("\u{00B2}", 0), (Err(ParseError::MalformedNumber), 0));
}

#[test]
fn text_keeps_escapes_as_written() {
    let source = "\"He said \\\"hi\\\"\"";
    assert_eq!(source.chars().count(), 16);
    let (r, cursor) = text_at(source, 0);
    assert_eq!(r, Ok(String::from("He said \\\"hi\\\"")));
    assert_eq!(cursor, 16);
}

#[test]
fn text_cursor_moves_by_length_and_two() {
    let (r, cursor) = text_at("xx\"abc\" tail", 2);
    assert_eq!(r, Ok(String::from("abc")));
    assert_eq!(cursor, 7);
    let (r, cursor) = text_at("\"\"", 0);
    assert_eq!(r, Ok(String::new()));
    assert_eq!(cursor, 2);
}

#[test]
fn text_counts_characters_not_bytes() {
    let source = "\"caf\u{e9} \u{20ac}5\" Level:3";
    let (r, cursor) = text_at(source, 0);
    let value = r.unwrap();
    assert_eq!(value, "caf\u{e9} \u{20ac}5");
    assert_eq!(value.chars().count(), 7);
    assert_eq!(value.len(), 10);
    assert_eq!(cursor, 9);
    assert_eq!(letters(source)[cursor], ' ');
}

#[test]
fn text_escaped_backslash_does_not_escape_the_quote() {
    let (r, cursor) = text_at("\"a\\\\\" b", 0);
    assert_eq!(r, Ok(String::from("a\\\\")));
    assert_eq!(cursor, 5);
}

#[test]
fn text_without_closing_quote_is_unterminated() {
    assert_eq!(text_at("\"abc", 0), (Err(ParseError::UnterminatedString), 0));
    assert_eq!(text_at("\"abc\\\"", 0), (Err(ParseError::UnterminatedString), 0));
    assert_eq!(text_at("\"abc\\", 0), (Err(ParseError::UnterminatedString), 0));
    assert_eq!(text_at("\"", 0), (Err(ParseError::UnterminatedString), 0));
    assert_eq!(text_at("x \"abc", 2), (Err(ParseError::UnterminatedString), 2));
}

#[test]
fn text_without_opening_quote_is_refused() {
    assert_eq!(text_at("abc\"", 0), (Err(ParseError::UnterminatedString), 0));
    assert_eq!(text_at("", 0), (Err(ParseError::UnterminatedString), 0));
    assert_eq!(text_at("\"a\"", 3), (Err(ParseError::UnterminatedString), 3));
    assert_eq!(text_at("\"a\"", 7), (Err(ParseError::UnterminatedString), 7));
}
