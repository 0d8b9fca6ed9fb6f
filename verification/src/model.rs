//! The document that reading a sector gives: tiles, and on them items, which
//! may hold items. Each type has a view, which is what contracts speak of.

use crate::keyword::Keyword;
use vstd::prelude::*;

verus! {

/// A placed object, possibly a container that holds further items. Only `id`
/// is always there; every other field is `None` until its keyword is read.
#[derive(Debug, PartialEq, Eq)]
pub struct Item {
    pub id: i32,
    pub amount: Option<i32>,
    pub chest_quest_number: Option<i32>,
    pub key_number: Option<i32>,
    pub keyhole_number: Option<i32>,
    pub level: Option<i32>,
    pub door_level: Option<i32>,
    pub door_quest_number: Option<i32>,
    pub door_quest_value: Option<i32>,
    pub charges: Option<i32>,
    pub text: Option<String>,
    pub editor: Option<String>,
    pub container_liquid_type: Option<i32>,
    pub pool_liquid_type: Option<i32>,
    pub abs_teleport_destination: Option<i32>,
    pub responsible: Option<i32>,
    pub remaining_expire_time: Option<i32>,
    pub saved_expire_time: Option<i32>,
    pub remaining_uses: Option<i32>,
    pub content: Option<Vec<Item>>,
}

/// What an [`Item`] stands for in contracts.
pub struct ItemView {
    pub id: int,
    pub amount: Option<int>,
    pub chest_quest_number: Option<int>,
    pub key_number: Option<int>,
    pub keyhole_number: Option<int>,
    pub level: Option<int>,
    pub door_level: Option<int>,
    pub door_quest_number: Option<int>,
    pub door_quest_value: Option<int>,
    pub charges: Option<int>,
    pub text: Option<Seq<char>>,
    pub editor: Option<Seq<char>>,
    pub container_liquid_type: Option<int>,
    pub pool_liquid_type: Option<int>,
    pub abs_teleport_destination: Option<int>,
    pub responsible: Option<int>,
    pub remaining_expire_time: Option<int>,
    pub saved_expire_time: Option<int>,
    pub remaining_uses: Option<int>,
    pub content: Option<Seq<ItemView>>,
}

/// One map cell: its offsets in the sector, the flags that were read for it
/// and the items that lie on it.
#[derive(Debug, PartialEq, Eq)]
pub struct Tile {
    pub offset_x: i32,
    pub offset_y: i32,
    pub refresh: Option<bool>,
    pub protection_zone: Option<bool>,
    pub no_logout: Option<bool>,
    pub content: Option<Vec<Item>>,
}

/// What a [`Tile`] stands for in contracts.
pub struct TileView {
    pub offset_x: int,
    pub offset_y: int,
    pub refresh: Option<bool>,
    pub protection_zone: Option<bool>,
    pub no_logout: Option<bool>,
    pub content: Option<Seq<ItemView>>,
}

/// The tiles of one sector file, in the order of the file.
#[derive(Debug, PartialEq, Eq)]
pub struct Sector {
    pub tiles: Vec<Tile>,
}

/// An optional number as contracts see it.
pub open spec fn int_view(v: Option<i32>) -> Option<int> {
    match v {
        Some(n) => Some(n as int),
        None => None,
    }
}

/// An optional string as contracts see it: by its characters.
pub open spec fn text_view(v: Option<String>) -> Option<Seq<char>> {
    match v {
        Some(s) => Some(s@),
        None => None,
    }
}

/// The views of `items`, in the same order.
pub open spec fn items_view(items: Seq<Item>) -> Seq<ItemView> {
    Seq::new(items.len(), |i: int| items[i]@)
}

/// An optional list of items as contracts see it.
pub open spec fn content_view(v: Option<Vec<Item>>) -> Option<Seq<ItemView>> {
    match v {
        Some(items) => Some(items_view(items@)),
        None => None,
    }
}

/// The views of `tiles`, in the same order.
pub open spec fn tiles_view(tiles: Seq<Tile>) -> Seq<TileView> {
    Seq::new(tiles.len(), |i: int| tiles[i]@)
}

/// What `item` stands for: its fields as numbers and texts, and what its
/// content stands for, item by item (`lemma_item_content_view`). The test on
/// the index is there for the definition alone.
pub open spec fn item_view(item: Item) -> ItemView
    decreases item,
{
    ItemView {
        id: item.id as int,
        amount: int_view(item.amount),
        chest_quest_number: int_view(item.chest_quest_number),
        key_number: int_view(item.key_number),
        keyhole_number: int_view(item.keyhole_number),
        level: int_view(item.level),
        door_level: int_view(item.door_level),
        door_quest_number: int_view(item.door_quest_number),
        door_quest_value: int_view(item.door_quest_value),
        charges: int_view(item.charges),
        text: text_view(item.text),
        editor: text_view(item.editor),
        container_liquid_type: int_view(item.container_liquid_type),
        pool_liquid_type: int_view(item.pool_liquid_type),
        abs_teleport_destination: int_view(item.abs_teleport_destination),
        responsible: int_view(item.responsible),
        remaining_expire_time: int_view(item.remaining_expire_time),
        saved_expire_time: int_view(item.saved_expire_time),
        remaining_uses: int_view(item.remaining_uses),
        content: match item.content {
            Some(items) => Some(
                Seq::new(
                    items@.len(),
                    |i: int|
                        if 0 <= i < items@.len() {
                            item_view(items@[i])
                        } else {
                            arbitrary()
                        },
                ),
            ),
            None => None,
        },
    }
}

impl View for Item {
    type V = ItemView;

    open spec fn view(&self) -> ItemView {
        item_view(*self)
    }
}

impl View for Tile {
    type V = TileView;

    open spec fn view(&self) -> TileView {
        TileView {
            offset_x: self.offset_x as int,
            offset_y: self.offset_y as int,
            refresh: self.refresh,
            protection_zone: self.protection_zone,
            no_logout: self.no_logout,
            content: content_view(self.content),
        }
    }
}

impl View for Sector {
    type V = Seq<TileView>;

    open spec fn view(&self) -> Seq<TileView> {
        tiles_view(self.tiles@)
    }
}

impl ItemView {
    /// The item that has an id and nothing else.
    pub open spec fn new(id: int) -> ItemView {
        ItemView {
            id,
            amount: None,
            chest_quest_number: None,
            key_number: None,
            keyhole_number: None,
            level: None,
            door_level: None,
            door_quest_number: None,
            door_quest_value: None,
            charges: None,
            text: None,
            editor: None,
            container_liquid_type: None,
            pool_liquid_type: None,
            abs_teleport_destination: None,
            responsible: None,
            remaining_expire_time: None,
            saved_expire_time: None,
            remaining_uses: None,
            content: None,
        }
    }
}

impl TileView {
    /// The tile at the given offsets with no flag and no content.
    pub open spec fn new(offset_x: int, offset_y: int) -> TileView {
        TileView {
            offset_x,
            offset_y,
            refresh: None,
            protection_zone: None,
            no_logout: None,
            content: None,
        }
    }
}

/// The content of an item is seen item by item.
pub proof fn lemma_item_content_view(item: Item)
    ensures
        item@.content == content_view(item.content),
{
    if item.content is Some {
        assert(item@.content->0 =~= items_view(item.content->0@));
    }
}

/// Pushing an item onto a list pushes its view onto the list's view.
pub proof fn lemma_items_view_push(items: Seq<Item>, item: Item)
    ensures
        items_view(items.push(item)) == items_view(items).push(item@),
{
    assert(items_view(items.push(item)) =~= items_view(items).push(item@));
}

/// Pushing a tile onto a list pushes its view onto the list's view.
pub proof fn lemma_tiles_view_push(tiles: Seq<Tile>, tile: Tile)
    ensures
        tiles_view(tiles.push(tile)) == tiles_view(tiles).push(tile@),
{
    assert(tiles_view(tiles.push(tile)) =~= tiles_view(tiles).push(tile@));
}

impl Item {
    /// An item with the given id and no attribute.
    pub fn new(id: i32) -> (item: Item)
        ensures
            item@ == ItemView::new(id as int),
    {
        Item {
            id,
            amount: None,
            chest_quest_number: None,
            key_number: None,
            keyhole_number: None,
            level: None,
            door_level: None,
            door_quest_number: None,
            door_quest_value: None,
            charges: None,
            text: None,
            editor: None,
            container_liquid_type: None,
            pool_liquid_type: None,
            abs_teleport_destination: None,
            responsible: None,
            remaining_expire_time: None,
            saved_expire_time: None,
            remaining_uses: None,
            content: None,
        }
    }
}

impl Tile {
    /// A tile at the given offsets with no flag and no content.
    pub fn new(offset_x: i32, offset_y: i32) -> (tile: Tile)
        ensures
            tile@ == TileView::new(offset_x as int, offset_y as int),
    {
        Tile {
            offset_x,
            offset_y,
            refresh: None,
            protection_zone: None,
            no_logout: None,
            content: None,
        }
    }
}

impl Sector {
    /// A sector without tiles.
    pub fn new() -> (sector: Sector)
        ensures
            sector@ == Seq::<TileView>::empty(),
    {
        let sector = Sector { tiles: Vec::new() };
        assert(sector@ =~= Seq::<TileView>::empty());
        sector
    }
}

impl ItemView {
    /// This item with the integer attribute of `keyword` set to `value`. A
    /// keyword of another kind changes nothing.
    pub open spec fn with_number(self, keyword: Keyword, value: int) -> ItemView {
        match keyword {
            Keyword::Amount => ItemView { amount: Some(value), ..self },
            Keyword::AbsTeleportDestination => ItemView { abs_teleport_destination: Some(value), ..self },
            Keyword::KeyNumber => ItemView { key_number: Some(value), ..self },
            Keyword::KeyholeNumber => ItemView { keyhole_number: Some(value), ..self },
            Keyword::DoorLevel => ItemView { door_level: Some(value), ..self },
            Keyword::DoorQuestNumber => ItemView { door_quest_number: Some(value), ..self },
            Keyword::DoorQuestValue => ItemView { door_quest_value: Some(value), ..self },
            Keyword::Responsible => ItemView { responsible: Some(value), ..self },
            Keyword::RemainingExpireTime => ItemView { remaining_expire_time: Some(value), ..self },
            Keyword::RemainingUses => ItemView { remaining_uses: Some(value), ..self },
            Keyword::Level => ItemView { level: Some(value), ..self },
            Keyword::SavedExpireTime => ItemView { saved_expire_time: Some(value), ..self },
            Keyword::PoolLiquidType => ItemView { pool_liquid_type: Some(value), ..self },
            Keyword::Charges => ItemView { charges: Some(value), ..self },
            Keyword::ChestQuestNumber => ItemView { chest_quest_number: Some(value), ..self },
            Keyword::ContainerLiquidType => ItemView { container_liquid_type: Some(value), ..self },
            _ => self,
        }
    }

    /// This item with the text attribute of `keyword` set to `value`. A
    /// keyword of another kind changes nothing.
    pub open spec fn with_text(self, keyword: Keyword, value: Seq<char>) -> ItemView {
        match keyword {
            Keyword::Editor => ItemView { editor: Some(value), ..self },
            Keyword::Text => ItemView { text: Some(value), ..self },
            _ => self,
        }
    }

    /// This item as a container that holds `items`.
    pub open spec fn with_content(self, items: Seq<ItemView>) -> ItemView {
        ItemView { content: Some(items), ..self }
    }

    /// Whether the attribute of `keyword` is set.
    pub open spec fn has(self, keyword: Keyword) -> bool {
        match keyword {
            Keyword::Amount => self.amount is Some,
            Keyword::AbsTeleportDestination => self.abs_teleport_destination is Some,
            Keyword::KeyNumber => self.key_number is Some,
            Keyword::KeyholeNumber => self.keyhole_number is Some,
            Keyword::DoorLevel => self.door_level is Some,
            Keyword::DoorQuestNumber => self.door_quest_number is Some,
            Keyword::DoorQuestValue => self.door_quest_value is Some,
            Keyword::Responsible => self.responsible is Some,
            Keyword::RemainingExpireTime => self.remaining_expire_time is Some,
            Keyword::RemainingUses => self.remaining_uses is Some,
            Keyword::Level => self.level is Some,
            Keyword::Editor => self.editor is Some,
            Keyword::Text => self.text is Some,
            Keyword::SavedExpireTime => self.saved_expire_time is Some,
            Keyword::PoolLiquidType => self.pool_liquid_type is Some,
            Keyword::Charges => self.charges is Some,
            Keyword::ChestQuestNumber => self.chest_quest_number is Some,
            Keyword::ContainerLiquidType => self.container_liquid_type is Some,
            Keyword::Content => self.content is Some,
        }
    }
}

impl Item {
    /// Sets the integer attribute of `keyword`. A keyword of another kind
    /// changes nothing.
    pub fn set_number(&mut self, keyword: Keyword, value: i32)
        ensures
            final(self)@ == old(self)@.with_number(keyword, value as int),
    {
        match keyword {
            Keyword::Amount => {
                self.amount = Some(value);
            },
            Keyword::AbsTeleportDestination => {
                self.abs_teleport_destination = Some(value);
            },
            Keyword::KeyNumber => {
                self.key_number = Some(value);
            },
            Keyword::KeyholeNumber => {
                self.keyhole_number = Some(value);
            },
            Keyword::DoorLevel => {
                self.door_level = Some(value);
            },
            Keyword::DoorQuestNumber => {
                self.door_quest_number = Some(value);
            },
            Keyword::DoorQuestValue => {
                self.door_quest_value = Some(value);
            },
            Keyword::Responsible => {
                self.responsible = Some(value);
            },
            Keyword::RemainingExpireTime => {
                self.remaining_expire_time = Some(value);
            },
            Keyword::RemainingUses => {
                self.remaining_uses = Some(value);
            },
            Keyword::Level => {
                self.level = Some(value);
            },
            Keyword::SavedExpireTime => {
                self.saved_expire_time = Some(value);
            },
            Keyword::PoolLiquidType => {
                self.pool_liquid_type = Some(value);
            },
            Keyword::Charges => {
                self.charges = Some(value);
            },
            Keyword::ChestQuestNumber => {
                self.chest_quest_number = Some(value);
            },
            Keyword::ContainerLiquidType => {
                self.container_liquid_type = Some(value);
            },
            _ => {},
        }
    }

    /// Sets the text attribute of `keyword`. A keyword of another kind
    /// changes nothing.
    pub fn set_text(&mut self, keyword: Keyword, value: String)
        ensures
            final(self)@ == old(self)@.with_text(keyword, value@),
    {
        match keyword {
            Keyword::Editor => {
                self.editor = Some(value);
            },
            Keyword::Text => {
                self.text = Some(value);
            },
            _ => {},
        }
    }

    /// Makes the item a container that holds `items`.
    pub fn set_content(&mut self, items: Vec<Item>)
        ensures
            final(self)@ == old(self)@.with_content(items_view(items@)),
    {
        self.content = Some(items);
        proof {
            lemma_item_content_view(*self);
        }
    }
}

} // verus!
