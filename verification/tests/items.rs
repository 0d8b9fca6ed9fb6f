use sector_parser::content::{parse_content, MAX_DEPTH};
use sector_parser::error::ParseError;
use sector_parser::keyword::{match_keyword, Keyword, ValueKind};
use sector_parser::model::Item;

fn symbols(s: &str) -> Vec<char> {
    s.chars().collect()
}

fn list_at(s: &str, at: usize) -> (Result<Vec<Item>, ParseError>, usize) {
    let text = symbols(s);
    let mut cursor = at;
    let mut content = Some(vec![]);
    match parse_content(&mut content, &text, &mut cursor) {
        Ok(()) => (Ok(content.unwrap()), cursor),
        Err(e) => {
            assert_eq!(content, Some(vec![]));
            (Err(e), cursor)
        }
    }
}

fn list_of(s: &str) -> Vec<Item> {
    list_at(s, 0).0.unwrap()
}

fn only_item(s: &str) -> Item {
    let mut list = list_of(s);
    assert_eq!(list.len(), 1);
    list.pop().unwrap()
}

#[test]
fn new_item_has_only_its_id() {
    let item = Item::new(-7);
    assert_eq!(item.id, -7);
    assert_eq!(item.amount, None);
    assert_eq!(item.chest_quest_number, None);
    assert_eq!(item.key_number, None);
    assert_eq!(item.keyhole_number, None);
    assert_eq!(item.level, None);
    assert_eq!(item.door_level, None);
    assert_eq!(item.door_quest_number, None);
    assert_eq!(item.door_quest_value, None);
    assert_eq!(item.charges, None);
    assert_eq!(item.text, None);
    assert_eq!(item.editor, None);
    assert_eq!(item.container_liquid_type, None);
    assert_eq!(item.pool_liquid_type, None);
    assert_eq!(item.abs_teleport_destination, None);
    assert_eq!(item.responsible, None);
    assert_eq!(item.remaining_expire_time, None);
    assert_eq!(item.saved_expire_time, None);
    assert_eq!(item.remaining_uses, None);
    assert_eq!(item.content, None);
}

#[test]
fn setters_follow_the_keyword() {
    let mut item = Item::new(1);
    item.set_number(Keyword::Level, 4);
    item.set_number(Keyword::Editor, 9);
    item.set_text(Keyword::Editor, String::from("gm"));
    item.set_text(Keyword::Amount, String::from("no"));
    item.set_content(vec![Item::new(2)]);
    let mut expected = Item::new(1);
    expected.level = Some(4);
    expected.editor = Some(String::from("gm"));
    expected.content = Some(vec![Item::new(2)]);
    assert_eq!(item, expected);
}

#[test]
fn keyword_table_is_matched_exactly() {
    let table = [
        ("Amount:", Keyword::Amount, ValueKind::Integer),
        ("AbsTeleportDestination:", Keyword::AbsTeleportDestination, ValueKind::Integer),
        ("KeyNumber:", Keyword::KeyNumber, ValueKind::Integer),
        ("KeyholeNumber:", Keyword::KeyholeNumber, ValueKind::Integer),
        ("DoorLevel:", Keyword::DoorLevel, ValueKind::Integer),
        ("DoorQuestNumber:", Keyword::DoorQuestNumber, ValueKind::Integer),
        ("DoorQuestValue:", Keyword::DoorQuestValue, ValueKind::Integer),
        ("Responsible:", Keyword::Responsible, ValueKind::Integer),
        ("RemainingExpireTime:", Keyword::RemainingExpireTime, ValueKind::Integer),
        ("RemainingUses:", Keyword::RemainingUses, ValueKind::Integer),
        ("Level:", Keyword::Level, ValueKind::Integer),
        ("Editor:", Keyword::Editor, ValueKind::Text),
        ("String:", Keyword::Text, ValueKind::Text),
        ("SavedExpireTime:", Keyword::SavedExpireTime, ValueKind::Integer),
        ("PoolLiquidType:", Keyword::PoolLiquidType, ValueKind::Integer),
        ("Charges:", Keyword::Charges, ValueKind::Integer),
        ("ChestQuestNumber:", Keyword::ChestQuestNumber, ValueKind::Integer),
        ("ContainerLiquidType:", Keyword::ContainerLiquidType, ValueKind::Integer),
        ("Content:", Keyword::Content, ValueKind::Items),
    ];
    for (word, keyword, kind) in table {
        let padded = format!("..{}1", word);
        assert_eq!(match_keyword(&symbols(&padded), 2), Some(keyword));
        assert_eq!(match_keyword(&symbols(&padded), 1), None);
        assert_eq!(match_keyword(&symbols(&padded), 3), None);
        assert_eq!(keyword.text(), word);
        assert_eq!(keyword.value_kind(), kind);
        // The colon belongs to the keyword, and so does every letter.
        let cut = &word[..word.len() - 1];
        assert_eq!(match_keyword(&symbols(cut), 0), None);
        assert_eq!(match_keyword(&symbols(&word.to_lowercase()), 0), None);
    }
    assert_eq!(match_keyword(&symbols("Amount:"), 9), None);
    assert_eq!(match_keyword(&symbols(""), 0), None);
}

#[test]
fn each_integer_keyword_sets_its_own_field() {
    let mut expected = Item::new(100);
    expected.amount = Some(1);
    assert_eq!(only_item("{100 Amount:1}"), expected);

    let mut expected = Item::new(100);
    expected.abs_teleport_destination = Some(2);
    assert_eq!(only_item("{100 AbsTeleportDestination:2}"), expected);

    let mut expected = Item::new(100);
    expected.key_number = Some(3);
    assert_eq!(only_item("{100 KeyNumber:3}"), expected);

    let mut expected = Item::new(100);
    expected.keyhole_number = Some(4);
    assert_eq!(only_item("{100 KeyholeNumber:4}"), expected);

    let mut expected = Item::new(100);
    expected.door_level = Some(5);
    assert_eq!(only_item("{100 DoorLevel:5}"), expected);

    let mut expected = Item::new(100);
    expected.door_quest_number = Some(6);
    assert_eq!(only_item("{100 DoorQuestNumber:6}"), expected);

    let mut expected = Item::new(100);
    expected.door_quest_value = Some(7);
    assert_eq!(only_item("{100 DoorQuestValue:7}"), expected);

    let mut expected = Item::new(100);
    expected.responsible = Some(8);
    assert_eq!(only_item("{100 Responsible:8}"), expected);

    let mut expected = Item::new(100);
    expected.remaining_expire_time = Some(9);
    assert_eq!(only_item("{100 RemainingExpireTime:9}"), expected);

    let mut expected = Item::new(100);
    expected.remaining_uses = Some(10);
    assert_eq!(only_item("{100 RemainingUses:10}"), expected);

    let mut expected = Item::new(100);
    expected.level = Some(11);
    assert_eq!(only_item("{100 Level:11}"), expected);

    let mut expected = Item::new(100);
    expected.saved_expire_time = Some(12);
    assert_eq!(only_item("{100 SavedExpireTime:12}"), expected);

    let mut expected = Item::new(100);
    expected.pool_liquid_type = Some(13);
    assert_eq!(only_item("{100 PoolLiquidType:13}"), expected);

    let mut expected = Item::new(100);
    expected.charges = Some(14);
    assert_eq!(only_item("{100 Charges:14}"), expected);

    let mut expected = Item::new(100);
    expected.chest_quest_number = Some(15);
    assert_eq!(only_item("{100 ChestQuestNumber:15}"), expected);

    let mut expected = Item::new(100);
    expected.container_liquid_type = Some(16);
    assert_eq!(only_item("{100 ContainerLiquidType:16}"), expected);
}

#[test]
fn text_keywords_set_text_and_editor() {
    let mut expected = Item::new(2597);
    expected.text = Some(String::from("Dear \\\"friend\\\", come."));
    expected.editor = Some(String::from("Ren\u{e9}e"));
    assert_eq!(
        only_item("{2597 String:\"Dear \\\"friend\\\", come.\" Editor:\"Ren\u{e9}e\"}"),
        expected
    );
}

#[test]
fn attributes_after_text_with_wide_characters_are_found() {
    let mut expected = Item::new(5);
    expected.text = Some(String::from("\u{20ac}\u{20ac}\u{20ac}"));
    expected.level = Some(3);
    let (r, cursor) = list_at("{5 String:\"\u{20ac}\u{20ac}\u{20ac}\" Level:3} 9", 0);
    assert_eq!(r, Ok(vec![expected]));
    assert_eq!(cursor, 24);
}

#[test]
fn value_may_follow_its_keyword_after_spaces() {
    let mut expected = Item::new(3031);
    expected.amount = Some(25);
    expected.text = Some(String::from("x"));
    assert_eq!(only_item("{3031 Amount: 25 String:   \"x\"}"), expected);
    assert_eq!(only_item("{3031   Amount:25    String:\"x\"   }"), expected);
}

#[test]
fn negative_values_are_read() {
    let mut expected = Item::new(1);
    expected.abs_teleport_destination = Some(-1073);
    assert_eq!(only_item("{1 AbsTeleportDestination:-1073}"), expected);
}

#[test]
fn later_value_of_a_repeated_keyword_wins() {
    let mut expected = Item::new(1);
    expected.amount = Some(9);
    assert_eq!(only_item("{1 Amount:3 Amount:9}"), expected);
}

#[test]
fn keyword_inside_a_string_sets_nothing() {
    let mut expected = Item::new(1);
    expected.text = Some(String::from("Amount:5, Level:2}"));
    assert_eq!(only_item("{1 String:\"Amount:5, Level:2}\"}"), expected);
}

#[test]
fn items_keep_their_order() {
    let list = list_of("{3, 1, 2 Amount:5, 1}");
    let ids: Vec<i32> = list.iter().map(|item| item.id).collect();
    assert_eq!(ids, vec![3, 1, 2, 1]);
    assert_eq!(list[2].amount, Some(5));
    assert_eq!(list[3].amount, None);
}

#[test]
fn nested_containers_close_their_own_list_only() {
    let (r, cursor) = list_at("{1000 Content:{2000}, 3000}", 0);
    let mut first = Item::new(1000);
    first.content = Some(vec![Item::new(2000)]);
    assert_eq!(r, Ok(vec![first, Item::new(3000)]));
    assert_eq!(cursor, 27);
}

#[test]
fn attributes_may_follow_a_nested_list() {
    let mut bag = Item::new(2853);
    let mut inner = Item::new(2854);
    inner.content = Some(vec![Item::new(3031), Item::new(3035)]);
    let mut note = Item::new(2597);
    note.text = Some(String::from("}"));
    bag.content = Some(vec![inner, note]);
    bag.amount = Some(1);
    assert_eq!(
        list_of("{2853 Content:{2854 Content:{3031, 3035}, 2597 String:\"}\"} Amount:1, 7}"),
        vec![bag, Item::new(7)]
    );
}

#[test]
fn list_ends_with_the_text() {
    assert_eq!(list_at("{1, 2", 0), (Ok(vec![Item::new(1), Item::new(2)]), 5));
    assert_eq!(list_at("{1,", 0), (Ok(vec![Item::new(1)]), 3));
    assert_eq!(list_at("", 0), (Ok(vec![]), 0));
    assert_eq!(list_at("{}", 0), (Ok(vec![]), 2));
    assert_eq!(list_at("{ }", 5), (Ok(vec![]), 5));
    let mut holder = Item::new(1);
    holder.content = Some(vec![]);
    assert_eq!(list_at("{1 Content:", 0), (Ok(vec![holder]), 11));
}

#[test]
fn list_stops_behind_its_closing_brace() {
    assert_eq!(list_at("{1, 2} 3-4: Refresh:", 0), (Ok(vec![Item::new(1), Item::new(2)]), 6));
}

#[test]
fn whatever_precedes_the_next_id_is_passed_over() {
    // The sign is among what is passed over, and so is a closing brace.
    assert_eq!(list_at("{-5}", 0), (Ok(vec![Item::new(5)]), 4));
    assert_eq!(list_at("{} 12}", 0), (Ok(vec![Item::new(12)]), 6));
}

#[test]
fn content_is_appended_to_what_is_there() {
    let text = symbols("{2, 3}");
    let mut cursor = 0;
    let mut content = Some(vec![Item::new(1)]);
    assert_eq!(parse_content(&mut content, &text, &mut cursor), Ok(()));
    assert_eq!(content, Some(vec![Item::new(1), Item::new(2), Item::new(3)]));
    assert_eq!(cursor, 6);
}

#[test]
fn content_becomes_a_list_where_there_was_none() {
    let text = symbols("{2}");
    let mut cursor = 0;
    let mut content = None;
    assert_eq!(parse_content(&mut content, &text, &mut cursor), Ok(()));
    assert_eq!(content, Some(vec![Item::new(2)]));
    let mut nothing = None;
    let mut cursor = 3;
    assert_eq!(parse_content(&mut nothing, &text, &mut cursor), Ok(()));
    assert_eq!(nothing, Some(vec![]));
}

#[test]
fn failure_leaves_content_as_it_was() {
    let text = symbols("{2, 3 Bogus:1}");
    let mut cursor = 0;
    let mut content = Some(vec![Item::new(1)]);
    assert_eq!(parse_content(&mut content, &text, &mut cursor), Err(ParseError::UnknownKeyword));
    assert_eq!(content, Some(vec![Item::new(1)]));
    assert_eq!(cursor, 6);
}

#[test]
fn unknown_keyword_is_an_error() {
    assert_eq!(list_at("{1 Bogus:5}", 0), (Err(ParseError::UnknownKeyword), 3));
    assert_eq!(list_at("{1 amount:5}", 0), (Err(ParseError::UnknownKeyword), 3));
    assert_eq!(list_at("{1 Amount 5}", 0), (Err(ParseError::UnknownKeyword), 3));
    assert_eq!(list_at("{1 KeyNumbers:5}", 0), (Err(ParseError::UnknownKeyword), 3));
    assert_eq!(list_at("{1 Amount:5 7}", 0), (Err(ParseError::UnknownKeyword), 12));
    assert_eq!(list_at("{1\tAmount:5}", 0), (Err(ParseError::UnknownKeyword), 2));
    assert_eq!(list_at("{1 {2}}", 0), (Err(ParseError::UnknownKeyword), 3));
}

#[test]
fn value_failures_come_with_their_place() {
    assert_eq!(list_at("{1 Amount:x}", 0), (Err(ParseError::MalformedNumber), 10));
    assert_eq!(list_at("{1 Amount:}", 0), (Err(ParseError::MalformedNumber), 10));
    assert_eq!(list_at("{1 Level:99999999999}", 0), (Err(ParseError::MalformedNumber), 9));
    assert_eq!(list_at("{99999999999}", 0), (Err(ParseError::MalformedNumber), 1));
    assert_eq!(list_at("{1 String:\"abc}", 0), (Err(ParseError::UnterminatedString), 10));
    assert_eq!(list_at("{1 Editor:abc}", 0), (Err(ParseError::UnterminatedString), 10));
    assert_eq!(
        list_at("{1 Content:{2 Content:{3 Level:}}}", 0),
        (Err(ParseError::MalformedNumber), 31)
    );
}

fn nested(levels: usize) -> String {
    let mut s = String::from("{");
    for _ in 0..levels {
        s.push_str("1 Content:{");
    }
    s.push('2');
    for _ in 0..levels + 1 {
        s.push('}');
    }
    s
}

fn depth_of(item: &Item) -> usize {
    match &item.content {
        None => 0,
        Some(list) => 1 + list.iter().map(depth_of).max().unwrap_or(0),
    }
}

#[test]
fn nesting_is_read_down_to_the_limit() {
    assert_eq!(MAX_DEPTH, 64);
    let source = nested(MAX_DEPTH);
    let (r, cursor) = list_at(&source, 0);
    let list = r.unwrap();
    assert_eq!(list.len(), 1);
    assert_eq!(depth_of(&list[0]), MAX_DEPTH);
    assert_eq!(cursor, source.len());
}

#[test]
fn nesting_beyond_the_limit_is_refused() {
    let source = nested(MAX_DEPTH + 1);
    // The keyword that opens one container too many stands behind 64 times
    // "1 Content:{" and "{1 ".
    assert_eq!(list_at(&source, 0), (Err(ParseError::NestingTooDeep), 1 + 64 * 11 + 2));
    assert_eq!(list_at(&nested(500), 0).0, Err(ParseError::NestingTooDeep));
}
