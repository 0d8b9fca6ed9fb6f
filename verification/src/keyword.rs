//! The table of the attribute keywords of items.

use crate::lexis::{has_word_at, starts_with_at};
use vstd::prelude::*;

verus! {

/// The attribute keywords that an item can carry. The vocabulary is closed:
/// no other word is read as an attribute.
#[derive(Clone, Copy, Debug, PartialEq, Eq, Structural)]
pub enum Keyword {
    Amount,
    AbsTeleportDestination,
    KeyNumber,
    KeyholeNumber,
    DoorLevel,
    DoorQuestNumber,
    DoorQuestValue,
    Responsible,
    RemainingExpireTime,
    RemainingUses,
    Level,
    Editor,
    /// The display text of an item, spelled `String:`.
    Text,
    SavedExpireTime,
    PoolLiquidType,
    Charges,
    ChestQuestNumber,
    ContainerLiquidType,
    /// The items that a container holds.
    Content,
}

/// What stands behind a keyword.
#[derive(Clone, Copy, Debug, PartialEq, Eq, Structural)]
pub enum ValueKind {
    /// An integer literal.
    Integer,
    /// A quoted string.
    Text,
    /// A list of items.
    Items,
}

impl Keyword {
    /// The keyword as it is written, its colon included.
    pub open spec fn spelling(self) -> Seq<char> {
        match self {
            Keyword::Amount => "Amount:"@,
            Keyword::AbsTeleportDestination => "AbsTeleportDestination:"@,
            Keyword::KeyNumber => "KeyNumber:"@,
            Keyword::KeyholeNumber => "KeyholeNumber:"@,
            Keyword::DoorLevel => "DoorLevel:"@,
            Keyword::DoorQuestNumber => "DoorQuestNumber:"@,
            Keyword::DoorQuestValue => "DoorQuestValue:"@,
            Keyword::Responsible => "Responsible:"@,
            Keyword::RemainingExpireTime => "RemainingExpireTime:"@,
            Keyword::RemainingUses => "RemainingUses:"@,
            Keyword::Level => "Level:"@,
            Keyword::Editor => "Editor:"@,
            Keyword::Text => "String:"@,
            Keyword::SavedExpireTime => "SavedExpireTime:"@,
            Keyword::PoolLiquidType => "PoolLiquidType:"@,
            Keyword::Charges => "Charges:"@,
            Keyword::ChestQuestNumber => "ChestQuestNumber:"@,
            Keyword::ContainerLiquidType => "ContainerLiquidType:"@,
            Keyword::Content => "Content:"@,
        }
    }

    /// The kind of value that follows the keyword.
    pub open spec fn kind(self) -> ValueKind {
        match self {
            Keyword::Editor | Keyword::Text => ValueKind::Text,
            Keyword::Content => ValueKind::Items,
            _ => ValueKind::Integer,
        }
    }

    /// The keyword as it is written, its colon included.
    pub fn text(self) -> (word: &'static str)
        ensures
            word@ == self.spelling(),
    {
        match self {
            Keyword::Amount => "Amount:",
            Keyword::AbsTeleportDestination => "AbsTeleportDestination:",
            Keyword::KeyNumber => "KeyNumber:",
            Keyword::KeyholeNumber => "KeyholeNumber:",
            Keyword::DoorLevel => "DoorLevel:",
            Keyword::DoorQuestNumber => "DoorQuestNumber:",
            Keyword::DoorQuestValue => "DoorQuestValue:",
            Keyword::Responsible => "Responsible:",
            Keyword::RemainingExpireTime => "RemainingExpireTime:",
            Keyword::RemainingUses => "RemainingUses:",
            Keyword::Level => "Level:",
            Keyword::Editor => "Editor:",
            Keyword::Text => "String:",
            Keyword::SavedExpireTime => "SavedExpireTime:",
            Keyword::PoolLiquidType => "PoolLiquidType:",
            Keyword::Charges => "Charges:",
            Keyword::ChestQuestNumber => "ChestQuestNumber:",
            Keyword::ContainerLiquidType => "ContainerLiquidType:",
            Keyword::Content => "Content:",
        }
    }

    /// The kind of value that follows the keyword.
    pub fn value_kind(self) -> (kind: ValueKind)
        ensures
            kind == self.kind(),
    {
        match self {
            Keyword::Editor | Keyword::Text => ValueKind::Text,
            Keyword::Content => ValueKind::Items,
            _ => ValueKind::Integer,
        }
    }
}

/// The keyword that is written in `s` at position `i`, if one is. The table
/// is tried from its top, which decides nothing: no two spellings can stand
/// at one position (`law_keyword_found_where_written`).
pub open spec fn keyword_at(s: Seq<char>, i: int) -> Option<Keyword> {
    if has_word_at(s, i, Keyword::Amount.spelling()) {
        Some(Keyword::Amount)
    } else if has_word_at(s, i, Keyword::AbsTeleportDestination.spelling()) {
        Some(Keyword::AbsTeleportDestination)
    } else if has_word_at(s, i, Keyword::KeyNumber.spelling()) {
        Some(Keyword::KeyNumber)
    } else if has_word_at(s, i, Keyword::KeyholeNumber.spelling()) {
        Some(Keyword::KeyholeNumber)
    } else if has_word_at(s, i, Keyword::DoorLevel.spelling()) {
        Some(Keyword::DoorLevel)
    } else if has_word_at(s, i, Keyword::DoorQuestNumber.spelling()) {
        Some(Keyword::DoorQuestNumber)
    } else if has_word_at(s, i, Keyword::DoorQuestValue.spelling()) {
        Some(Keyword::DoorQuestValue)
    } else if has_word_at(s, i, Keyword::Responsible.spelling()) {
        Some(Keyword::Responsible)
    } else if has_word_at(s, i, Keyword::RemainingExpireTime.spelling()) {
        Some(Keyword::RemainingExpireTime)
    } else if has_word_at(s, i, Keyword::RemainingUses.spelling()) {
        Some(Keyword::RemainingUses)
    } else if has_word_at(s, i, Keyword::Level.spelling()) {
        Some(Keyword::Level)
    } else if has_word_at(s, i, Keyword::Editor.spelling()) {
        Some(Keyword::Editor)
    } else if has_word_at(s, i, Keyword::Text.spelling()) {
        Some(Keyword::Text)
    } else if has_word_at(s, i, Keyword::SavedExpireTime.spelling()) {
        Some(Keyword::SavedExpireTime)
    } else if has_word_at(s, i, Keyword::PoolLiquidType.spelling()) {
        Some(Keyword::PoolLiquidType)
    } else if has_word_at(s, i, Keyword::Charges.spelling()) {
        Some(Keyword::Charges)
    } else if has_word_at(s, i, Keyword::ChestQuestNumber.spelling()) {
        Some(Keyword::ChestQuestNumber)
    } else if has_word_at(s, i, Keyword::ContainerLiquidType.spelling()) {
        Some(Keyword::ContainerLiquidType)
    } else if has_word_at(s, i, Keyword::Content.spelling()) {
        Some(Keyword::Content)
    } else {
        None
    }
}

/// Every keyword has at least one character.
pub proof fn lemma_spelling_nonempty(keyword: Keyword)
    ensures
        keyword.spelling().len() > 0,
{
    reveal_strlit("Amount:");
    reveal_strlit("AbsTeleportDestination:");
    reveal_strlit("KeyNumber:");
    reveal_strlit("KeyholeNumber:");
    reveal_strlit("DoorLevel:");
    reveal_strlit("DoorQuestNumber:");
    reveal_strlit("DoorQuestValue:");
    reveal_strlit("Responsible:");
    reveal_strlit("RemainingExpireTime:");
    reveal_strlit("RemainingUses:");
    reveal_strlit("Level:");
    reveal_strlit("Editor:");
    reveal_strlit("String:");
    reveal_strlit("SavedExpireTime:");
    reveal_strlit("PoolLiquidType:");
    reveal_strlit("Charges:");
    reveal_strlit("ChestQuestNumber:");
    reveal_strlit("ContainerLiquidType:");
    reveal_strlit("Content:");
}

/// Looks for a keyword of the table in `text` at position `at`.
pub fn match_keyword(text: &[char], at: usize) -> (found: Option<Keyword>)
    ensures
        found == keyword_at(text@, at as int),
{
    if starts_with_at(text, at, Keyword::Amount.text()) {
        Some(Keyword::Amount)
    } else if starts_with_at(text, at, Keyword::AbsTeleportDestination.text()) {
        Some(Keyword::AbsTeleportDestination)
    } else if starts_with_at(text, at, Keyword::KeyNumber.text()) {
        Some(Keyword::KeyNumber)
    } else if starts_with_at(text, at, Keyword::KeyholeNumber.text()) {
        Some(Keyword::KeyholeNumber)
    } else if starts_with_at(text, at, Keyword::DoorLevel.text()) {
        Some(Keyword::DoorLevel)
    } else if starts_with_at(text, at, Keyword::DoorQuestNumber.text()) {
        Some(Keyword::DoorQuestNumber)
    } else if starts_with_at(text, at, Keyword::DoorQuestValue.text()) {
        Some(Keyword::DoorQuestValue)
    } else if starts_with_at(text, at, Keyword::Responsible.text()) {
        Some(Keyword::Responsible)
    } else if starts_with_at(text, at, Keyword::RemainingExpireTime.text()) {
        Some(Keyword::RemainingExpireTime)
    } else if starts_with_at(text, at, Keyword::RemainingUses.text()) {
        Some(Keyword::RemainingUses)
    } else if starts_with_at(text, at, Keyword::Level.text()) {
        Some(Keyword::Level)
    } else if starts_with_at(text, at, Keyword::Editor.text()) {
        Some(Keyword::Editor)
    } else if starts_with_at(text, at, Keyword::Text.text()) {
        Some(Keyword::Text)
    } else if starts_with_at(text, at, Keyword::SavedExpireTime.text()) {
        Some(Keyword::SavedExpireTime)
    } else if starts_with_at(text, at, Keyword::PoolLiquidType.text()) {
        Some(Keyword::PoolLiquidType)
    } else if starts_with_at(text, at, Keyword::Charges.text()) {
        Some(Keyword::Charges)
    } else if starts_with_at(text, at, Keyword::ChestQuestNumber.text()) {
        Some(Keyword::ChestQuestNumber)
    } else if starts_with_at(text, at, Keyword::ContainerLiquidType.text()) {
        Some(Keyword::ContainerLiquidType)
    } else if starts_with_at(text, at, Keyword::Content.text()) {
        Some(Keyword::Content)
    } else {
        None
    }
}

} // verus!
