//! The entity model: one `Object` per simulated thing (player, monster,
//! item, stairs), each a bundle of optional components (Fighter, Ai, Item,
//! Equipment), plus the structured message log vocabulary.

use vstd::prelude::*;

verus! {

/// A display colour; consumed only by the (excluded) renderer but owned by
/// the entity and carried through saves.
#[derive(Clone, Copy, Debug, PartialEq, Eq, Structural)]
pub struct Color {
    pub r: u8,
    pub g: u8,
    pub b: u8,
}

/// The body slot an equippable item occupies.
#[derive(Clone, Copy, Debug, PartialEq, Eq, Structural)]
pub enum Slot {
    RightHand,
    LeftHand,
    Chest,
}

impl Slot {
    /// The slot's display name.
    pub fn label(&self) -> (r: &'static str)
        ensures
            self is RightHand ==> r@ == "right hand"@,
            self is LeftHand ==> r@ == "left hand"@,
            self is Chest ==> r@ == "chest"@,
    {
        match self {
            Slot::RightHand => "right hand",
            Slot::LeftHand => "left hand",
            Slot::Chest => "chest",
        }
    }
}

/// Which use-effect an item applies.
#[derive(Clone, Copy, Debug, PartialEq, Eq, Structural)]
pub enum Item {
    Heal,
    AttackBuff,
    Lightning,
    Sword,
    Chest,
    Targe,
}

/// The monster behaviour tag: a closed, extensible set of variants.
#[derive(Clone, Copy, Debug, PartialEq, Eq, Structural)]
pub enum Ai {
    Basic,
}

/// What happens when an entity's hit points reach zero.
#[derive(Clone, Copy, Debug, PartialEq, Eq, Structural)]
pub enum DeathCallback {
    Player,
    Monster,
}

/// Combat stats: base values plus banked experience and a death tag.
#[derive(Clone, Copy, Debug, PartialEq, Eq, Structural)]
pub struct Fighter {
    pub base_max_hp: i32,
    pub hp: i32,
    pub base_defense: i32,
    pub base_power: i32,
    pub on_death: DeathCallback,
    pub xp: i32,
}

/// Equippable-item data: its slot, whether it is worn, and the additive
/// bonuses it grants while worn.
#[derive(Clone, Copy, Debug, PartialEq, Eq, Structural)]
pub struct Equipment {
    pub slot: Slot,
    pub equipped: bool,
    pub max_hp_bonus: i32,
    pub power_bonus: i32,
    pub defense_bonus: i32,
}

/// One entry of the message log. Entries are structured; a front end
/// renders them as text. The log is append-only and display-only.
#[derive(Clone, Debug, PartialEq)]
pub enum Message {
    Welcome,
    Attack { attacker: String, target: String, damage: i32 },
    Miss { attacker: String, target: String },
    NoEffect { attacker: String, target: String },
    CannotEquipNotItem { name: String },
    Equipped { name: String, slot: Slot },
    CannotEquipNotEquipment { name: String },
    CannotDequipNotItem { name: String },
    Dequipped { name: String, slot: Slot },
    CannotDequipNotEquipment { name: String },
    AlreadyFullHealth,
    WoundsHeal,
    AttackTooHigh,
    AttackBuffed { amount: i32 },
    Lightning { target: String, damage: i32 },
    NoEnemyInRange,
    CancelledUse,
    CannotUse { name: String },
    ReachedLevel { level: i32 },
    InventoryFull { name: String },
    PickedUp { name: String },
    Dropped { name: String },
    PlayerDied,
    MonsterDied { name: String, xp: i32 },
    Rest,
    Descend,
}

impl Message {
    /// The display colour of this entry.
    pub fn color(&self) -> (c: Color)
        ensures
            c == self.spec_color(),
    {
        match self {
            Message::Welcome => Color { r: 255, g: 0, b: 0 },
            Message::Attack { .. } => Color { r: 255, g: 255, b: 255 },
            Message::Miss { .. } => Color { r: 255, g: 127, b: 0 },
            Message::NoEffect { .. } => Color { r: 255, g: 255, b: 255 },
            Message::CannotEquipNotItem { .. } => Color { r: 255, g: 0, b: 0 },
            Message::Equipped { .. } => Color { r: 114, g: 255, b: 114 },
            Message::CannotEquipNotEquipment { .. } => Color { r: 255, g: 0, b: 0 },
            Message::CannotDequipNotItem { .. } => Color { r: 255, g: 0, b: 0 },
            Message::Dequipped { .. } => Color { r: 255, g: 255, b: 114 },
            Message::CannotDequipNotEquipment { .. } => Color { r: 255, g: 0, b: 0 },
            Message::AlreadyFullHealth => Color { r: 255, g: 0, b: 0 },
            Message::WoundsHeal => Color { r: 184, g: 114, b: 255 },
            Message::AttackTooHigh => Color { r: 255, g: 0, b: 0 },
            Message::AttackBuffed { .. } => Color { r: 0, g: 255, b: 0 },
            Message::Lightning { .. } => Color { r: 114, g: 114, b: 255 },
            Message::NoEnemyInRange => Color { r: 255, g: 0, b: 0 },
            Message::CancelledUse => Color { r: 255, g: 255, b: 255 },
            Message::CannotUse { .. } => Color { r: 255, g: 0, b: 0 },
            Message::ReachedLevel { .. } => Color { r: 255, g: 255, b: 0 },
            Message::InventoryFull { .. } => Color { r: 255, g: 0, b: 0 },
            Message::PickedUp { .. } => Color { r: 0, g: 255, b: 0 },
            Message::Dropped { .. } => Color { r: 255, g: 255, b: 0 },
            Message::PlayerDied => Color { r: 255, g: 0, b: 0 },
            Message::MonsterDied { .. } => Color { r: 255, g: 127, b: 0 },
            Message::Rest => Color { r: 255, g: 0, b: 255 },
            Message::Descend => Color { r: 255, g: 0, b: 0 },
        }
    }

    /// The display colour, as a specification-level function.
    pub open spec fn spec_color(self) -> Color {
        match self {
            Message::Welcome => Color { r: 255, g: 0, b: 0 },
            Message::Attack { .. } => Color { r: 255, g: 255, b: 255 },
            Message::Miss { .. } => Color { r: 255, g: 127, b: 0 },
            Message::NoEffect { .. } => Color { r: 255, g: 255, b: 255 },
            Message::CannotEquipNotItem { .. } => Color { r: 255, g: 0, b: 0 },
            Message::Equipped { .. } => Color { r: 114, g: 255, b: 114 },
            Message::CannotEquipNotEquipment { .. } => Color { r: 255, g: 0, b: 0 },
            Message::CannotDequipNotItem { .. } => Color { r: 255, g: 0, b: 0 },
            Message::Dequipped { .. } => Color { r: 255, g: 255, b: 114 },
            Message::CannotDequipNotEquipment { .. } => Color { r: 255, g: 0, b: 0 },
            Message::AlreadyFullHealth => Color { r: 255, g: 0, b: 0 },
            Message::WoundsHeal => Color { r: 184, g: 114, b: 255 },
            Message::AttackTooHigh => Color { r: 255, g: 0, b: 0 },
            Message::AttackBuffed { .. } => Color { r: 0, g: 255, b: 0 },
            Message::Lightning { .. } => Color { r: 114, g: 114, b: 255 },
            Message::NoEnemyInRange => Color { r: 255, g: 0, b: 0 },
            Message::CancelledUse => Color { r: 255, g: 255, b: 255 },
            Message::CannotUse { .. } => Color { r: 255, g: 0, b: 0 },
            Message::ReachedLevel { .. } => Color { r: 255, g: 255, b: 0 },
            Message::InventoryFull { .. } => Color { r: 255, g: 0, b: 0 },
            Message::PickedUp { .. } => Color { r: 0, g: 255, b: 0 },
            Message::Dropped { .. } => Color { r: 255, g: 255, b: 0 },
            Message::PlayerDied => Color { r: 255, g: 0, b: 0 },
            Message::MonsterDied { .. } => Color { r: 255, g: 127, b: 0 },
            Message::Rest => Color { r: 255, g: 0, b: 255 },
            Message::Descend => Color { r: 255, g: 0, b: 0 },
        }
    }
}

/// Coordinates the arithmetic in this crate can handle without overflow;
/// far wider than any grid the generator produces.
pub open spec fn coord_ok(v: int) -> bool {
    -1000000 <= v <= 1000000
}

/// One simulated thing. The player sits at a fixed, well-known index of
/// the entity store; any other entity's index may change when the store is
/// reordered by pick-up or drop.
#[derive(Clone, Debug, PartialEq)]
pub struct Object {
    pub x: i32,
    pub y: i32,
    pub glyph: char,
    pub color: Color,
    pub name: String,
    pub blocks: bool,
    pub alive: bool,
    pub fighter: Option<Fighter>,
    pub ai: Option<Ai>,
    pub item: Option<Item>,
    pub level: i32,
    pub equipment: Option<Equipment>,
    pub always_visible: bool,
}

impl Object {
    /// Whether this entity is the player. Only the player gathers
    /// equipment bonuses from the inventory.
    pub open spec fn is_player(self) -> bool {
        self.name@ == "player"@
    }

    /// Whether both coordinates are within the range the arithmetic here
    /// accepts.
    pub open spec fn pos_ok(self) -> bool {
        coord_ok(self.x as int) && coord_ok(self.y as int)
    }

    /// A fresh entity with no components, not alive, at character level 1.
    pub fn new(x: i32, y: i32, glyph: char, name: &str, color: Color, blocks: bool) -> (o: Object)
        ensures
            o.x == x,
            o.y == y,
            o.glyph == glyph,
            o.color == color,
            o.name@ == name@,
            o.blocks == blocks,
            !o.alive,
            o.fighter is None,
            o.ai is None,
            o.item is None,
            o.level == 1,
            o.equipment is None,
            !o.always_visible,
    {
        Object {
            x,
            y,
            glyph,
            color,
            name: String::from_str(name),
            blocks,
            alive: false,
            fighter: None,
            ai: None,
            item: None,
            level: 1,
            equipment: None,
            always_visible: false,
        }
    }

    /// Checks at run time whether this entity is the player.
    pub fn check_is_player(&self) -> (r: bool)
        ensures
            r == self.is_player(),
    {
        let player_name = String::from_str("player");
        self.name == player_name
    }

    pub fn pos(&self) -> (p: (i32, i32))
        ensures
            p.0 == self.x,
            p.1 == self.y,
    {
        (self.x, self.y)
    }

    pub fn set_pos(&mut self, x: i32, y: i32)
        ensures
            *final(self) == (Object { x, y, ..*old(self) }),
    {
        self.x = x;
        self.y = y;
    }

    /// The squared Euclidean distance to another entity. Distances are
    /// compared, never measured, so the square preserves every decision
    /// made on them.
    pub fn distance_sq(&self, other: &Object) -> (d: i64)
        requires
            self.pos_ok(),
            other.pos_ok(),
        ensures
            d == spec_distance_sq(self.x as int, self.y as int, other.x as int, other.y as int),
            d >= 0,
    {
        let dx: i64 = other.x as i64 - self.x as i64;
        let dy: i64 = other.y as i64 - self.y as i64;
        proof {
            assert(0 <= dx * dx <= 4000000000000int && 0 <= dy * dy <= 4000000000000int)
                by (nonlinear_arith)
                requires
                    -2000000 <= dx <= 2000000,
                    -2000000 <= dy <= 2000000,
            ;
        }
        dx * dx + dy * dy
    }
}

/// Squared Euclidean distance between two points.
pub open spec fn spec_distance_sq(x1: int, y1: int, x2: int, y2: int) -> int {
    (x2 - x1) * (x2 - x1) + (y2 - y1) * (y2 - y1)
}

/// Whether every entity in the store stands on coordinates the arithmetic
/// here accepts.
pub open spec fn positions_ok(objs: Seq<Object>) -> bool {
    forall|i: int| 0 <= i < objs.len() ==> (#[trigger] objs[i]).pos_ok()
}

} // verus!
