use sector_parser::lexis::{
    chars_of, digit_of, find_char, find_digit, find_non_space, starts_with_at,
};

fn marks(s: &str) -> Vec<char> {
    s.chars().collect()
}

#[test]
fn digits_are_the_ten_decimal_ones() {
    for (n, c) in "0123456789".chars().enumerate() {
        assert_eq!(digit_of(c), Some(n as u8));
    }
    for c in ['/', ':', 'a', ' ', '-', '\u{0663}', '\u{00b2}', '\u{ff11}'] {
        assert_eq!(digit_of(c), None);
    }
}

#[test]
fn next_digit_is_found_or_the_end() {
    let text = marks("ab, {7} x9");
    assert_eq!(find_digit(&text, 0), 5);
    assert_eq!(find_digit(&text, 5), 5);
    assert_eq!(find_digit(&text, 6), 9);
    assert_eq!(find_digit(&text, 10), 10);
    assert_eq!(find_digit(&text, 99), 10);
    assert_eq!(find_digit(&marks("none"), 0), 4);
}

#[test]
fn spaces_are_passed_over() {
    let text = marks("a   b ");
    assert_eq!(find_non_space(&text, 0), 0);
    assert_eq!(find_non_space(&text, 1), 4);
    assert_eq!(find_non_space(&text, 5), 6);
    assert_eq!(find_non_space(&text, 8), 6);
    assert_eq!(find_non_space(&marks("\t"), 0), 0);
}

#[test]
fn next_character_is_found_or_the_end() {
    let text = marks("a-b-c");
    assert_eq!(find_char(&text, 0, '-'), 1);
    assert_eq!(find_char(&text, 2, '-'), 3);
    assert_eq!(find_char(&text, 4, '-'), 5);
    assert_eq!(find_char(&text, 0, 'x'), 5);
}

#[test]
fn word_is_compared_character_by_character() {
    let text = marks("x\u{e9}Level:3");
    assert!(starts_with_at(&text, 2, "Level:"));
    assert!(starts_with_at(&text, 1, "\u{e9}L"));
    assert!(starts_with_at(&text, 3, ""));
    assert!(starts_with_at(&text, 9, ""));
    assert!(!starts_with_at(&text, 10, ""));
    assert!(!starts_with_at(&text, 2, "Level:37"));
    assert!(!starts_with_at(&text, 2, "level:"));
    assert!(!starts_with_at(&text, 3, "Level:"));
    assert!(!starts_with_at(&text, 8, "33"));
}

#[test]
fn string_is_taken_character_by_character() {
    let source = "a\u{20ac}b\u{e9}";
    assert_eq!(chars_of(source), vec!['a', '\u{20ac}', 'b', '\u{e9}']);
    assert_eq!(chars_of(""), Vec::<char>::new());
}
