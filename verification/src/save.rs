//! Persistence: the entity store and world state serialize as one atomic
//! unit into a flat token stream, and deserialize back to values equal in
//! every observable field — or fail cleanly as a whole on any malformed
//! or incompatible stream. A front end frames the tokens into whatever
//! storage it uses.

use vstd::prelude::*;
use crate::game::Game;
use crate::map::Tile;
use crate::object::{
    Ai, Color, DeathCallback, Equipment, Fighter, Item, Message, Object, Slot,
};

verus! {

/// One unit of the serialized stream: a nonnegative number, a signed
/// number, a flag, or a character.
#[derive(Clone, Copy, Debug, PartialEq, Eq, Structural)]
pub enum SaveToken {
    N(u64),
    I(i32),
    B(bool),
    C(char),
}

/// The leading marker of every saved world, so that a stream of another
/// shape fails cleanly instead of half-loading.
pub const SAVE_TAG: u64 = 0xD1CE;

// --- primitive encoders, as specification functions ---

pub open spec fn enc_u64(v: u64) -> Seq<SaveToken> {
    seq![SaveToken::N(v)]
}

pub open spec fn enc_i32(v: i32) -> Seq<SaveToken> {
    seq![SaveToken::I(v)]
}

pub open spec fn enc_bool(v: bool) -> Seq<SaveToken> {
    seq![SaveToken::B(v)]
}

pub open spec fn enc_char(v: char) -> Seq<SaveToken> {
    seq![SaveToken::C(v)]
}

// --- primitive decoders ---

pub open spec fn dec_u64(s: Seq<SaveToken>) -> Option<(u64, Seq<SaveToken>)> {
    if s.len() > 0 && s[0] is N {
        Some((s[0]->N_0, s.drop_first()))
    } else {
        None
    }
}

pub open spec fn dec_i32(s: Seq<SaveToken>) -> Option<(i32, Seq<SaveToken>)> {
    if s.len() > 0 && s[0] is I {
        Some((s[0]->I_0, s.drop_first()))
    } else {
        None
    }
}

pub open spec fn dec_bool(s: Seq<SaveToken>) -> Option<(bool, Seq<SaveToken>)> {
    if s.len() > 0 && s[0] is B {
        Some((s[0]->B_0, s.drop_first()))
    } else {
        None
    }
}

pub open spec fn dec_char(s: Seq<SaveToken>) -> Option<(char, Seq<SaveToken>)> {
    if s.len() > 0 && s[0] is C {
        Some((s[0]->C_0, s.drop_first()))
    } else {
        None
    }
}

// --- primitive round trips ---

pub proof fn lemma_dec_u64(v: u64, rest: Seq<SaveToken>)
    ensures
        dec_u64(enc_u64(v) + rest) == Some((v, rest)),
{
    assert((enc_u64(v) + rest).drop_first() =~= rest);
}

pub proof fn lemma_dec_i32(v: i32, rest: Seq<SaveToken>)
    ensures
        dec_i32(enc_i32(v) + rest) == Some((v, rest)),
{
    assert((enc_i32(v) + rest).drop_first() =~= rest);
}

pub proof fn lemma_dec_bool(v: bool, rest: Seq<SaveToken>)
    ensures
        dec_bool(enc_bool(v) + rest) == Some((v, rest)),
{
    assert((enc_bool(v) + rest).drop_first() =~= rest);
}

pub proof fn lemma_dec_char(v: char, rest: Seq<SaveToken>)
    ensures
        dec_char(enc_char(v) + rest) == Some((v, rest)),
{
    assert((enc_char(v) + rest).drop_first() =~= rest);
}

// --- primitive executable readers ---

/// Reads one nonnegative number at `pos`.
fn read_u64(data: &Vec<SaveToken>, pos: usize) -> (r: Option<(u64, usize)>)
    requires
        pos <= data@.len(),
    ensures
        r is Some ==> {
            &&& pos < r.unwrap().1 <= data@.len()
            &&& dec_u64(data@.skip(pos as int)) is Some
            &&& dec_u64(data@.skip(pos as int)).unwrap().0 == r.unwrap().0
            &&& dec_u64(data@.skip(pos as int)).unwrap().1 == data@.skip(r.unwrap().1 as int)
        },
        r is None ==> dec_u64(data@.skip(pos as int)) is None,
{
    if pos < data.len() {
        proof {
            assert(data@.skip(pos as int)[0] == data@[pos as int]);
            assert(data@.skip(pos as int).drop_first() =~= data@.skip(pos + 1int));
        }
        match data[pos] {
            SaveToken::N(v) => Some((v, pos + 1)),
            _ => None,
        }
    } else {
        None
    }
}

/// Reads one signed number at `pos`.
fn read_i32(data: &Vec<SaveToken>, pos: usize) -> (r: Option<(i32, usize)>)
    requires
        pos <= data@.len(),
    ensures
        r is Some ==> {
            &&& pos < r.unwrap().1 <= data@.len()
            &&& dec_i32(data@.skip(pos as int)) is Some
            &&& dec_i32(data@.skip(pos as int)).unwrap().0 == r.unwrap().0
            &&& dec_i32(data@.skip(pos as int)).unwrap().1 == data@.skip(r.unwrap().1 as int)
        },
        r is None ==> dec_i32(data@.skip(pos as int)) is None,
{
    if pos < data.len() {
        proof {
            assert(data@.skip(pos as int)[0] == data@[pos as int]);
            assert(data@.skip(pos as int).drop_first() =~= data@.skip(pos + 1int));
        }
        match data[pos] {
            SaveToken::I(v) => Some((v, pos + 1)),
            _ => None,
        }
    } else {
        None
    }
}

/// Reads one flag at `pos`.
fn read_bool(data: &Vec<SaveToken>, pos: usize) -> (r: Option<(bool, usize)>)
    requires
        pos <= data@.len(),
    ensures
        r is Some ==> {
            &&& pos < r.unwrap().1 <= data@.len()
            &&& dec_bool(data@.skip(pos as int)) is Some
            &&& dec_bool(data@.skip(pos as int)).unwrap().0 == r.unwrap().0
            &&& dec_bool(data@.skip(pos as int)).unwrap().1 == data@.skip(r.unwrap().1 as int)
        },
        r is None ==> dec_bool(data@.skip(pos as int)) is None,
{
    if pos < data.len() {
        proof {
            assert(data@.skip(pos as int)[0] == data@[pos as int]);
            assert(data@.skip(pos as int).drop_first() =~= data@.skip(pos + 1int));
        }
        match data[pos] {
            SaveToken::B(v) => Some((v, pos + 1)),
            _ => None,
        }
    } else {
        None
    }
}

/// Reads one character at `pos`.
fn read_char(data: &Vec<SaveToken>, pos: usize) -> (r: Option<(char, usize)>)
    requires
        pos <= data@.len(),
    ensures
        r is Some ==> {
            &&& pos < r.unwrap().1 <= data@.len()
            &&& dec_char(data@.skip(pos as int)) is Some
            &&& dec_char(data@.skip(pos as int)).unwrap().0 == r.unwrap().0
            &&& dec_char(data@.skip(pos as int)).unwrap().1 == data@.skip(r.unwrap().1 as int)
        },
        r is None ==> dec_char(data@.skip(pos as int)) is None,
{
    if pos < data.len() {
        proof {
            assert(data@.skip(pos as int)[0] == data@[pos as int]);
            assert(data@.skip(pos as int).drop_first() =~= data@.skip(pos + 1int));
        }
        match data[pos] {
            SaveToken::C(v) => Some((v, pos + 1)),
            _ => None,
        }
    } else {
        None
    }
}

// --- primitive executable writers ---

fn write_u64(out: &mut Vec<SaveToken>, v: u64)
    ensures
        final(out)@ == old(out)@ + enc_u64(v),
{
    out.push(SaveToken::N(v));
    proof {
        assert(out@ =~= old(out)@ + enc_u64(v));
    }
}

fn write_i32(out: &mut Vec<SaveToken>, v: i32)
    ensures
        final(out)@ == old(out)@ + enc_i32(v),
{
    out.push(SaveToken::I(v));
    proof {
        assert(out@ =~= old(out)@ + enc_i32(v));
    }
}

fn write_bool(out: &mut Vec<SaveToken>, v: bool)
    ensures
        final(out)@ == old(out)@ + enc_bool(v),
{
    out.push(SaveToken::B(v));
    proof {
        assert(out@ =~= old(out)@ + enc_bool(v));
    }
}

fn write_char(out: &mut Vec<SaveToken>, v: char)
    ensures
        final(out)@ == old(out)@ + enc_char(v),
{
    out.push(SaveToken::C(v));
    proof {
        assert(out@ =~= old(out)@ + enc_char(v));
    }
}

// --- small enums, encoded as numeric tags ---

pub open spec fn slot_tag(v: Slot) -> u64 {
    match v {
        Slot::RightHand => 0,
        Slot::LeftHand => 1,
        Slot::Chest => 2,
    }
}

pub open spec fn enc_slot(v: Slot) -> Seq<SaveToken> {
    enc_u64(slot_tag(v))
}

pub open spec fn dec_slot(s: Seq<SaveToken>) -> Option<(Slot, Seq<SaveToken>)> {
    match dec_u64(s) {
        Some((t, r)) => if t == 0 {
            Some((Slot::RightHand, r))
        } else if t == 1 {
            Some((Slot::LeftHand, r))
        } else if t == 2 {
            Some((Slot::Chest, r))
        } else {
            None
        },
        None => None,
    }
}

pub proof fn lemma_dec_slot(v: Slot, rest: Seq<SaveToken>)
    ensures
        dec_slot(enc_slot(v) + rest) == Some((v, rest)),
{
    lemma_dec_u64(slot_tag(v), rest);
}

fn slot_to_tag(v: Slot) -> (t: u64)
    ensures
        t == slot_tag(v),
{
    match v {
        Slot::RightHand => 0,
        Slot::LeftHand => 1,
        Slot::Chest => 2,
    }
}

fn slot_from_tag(t: u64) -> (r: Option<Slot>)
    ensures
        match r {
            Some(v) => slot_tag(v) == t,
            None => t > 2,
        },
{
    if t == 0 {
        Some(Slot::RightHand)
    } else if t == 1 {
        Some(Slot::LeftHand)
    } else if t == 2 {
        Some(Slot::Chest)
    } else {
        None
    }
}

pub open spec fn item_tag(v: Item) -> u64 {
    match v {
        Item::Heal => 0,
        Item::AttackBuff => 1,
        Item::Lightning => 2,
        Item::Sword => 3,
        Item::Chest => 4,
        Item::Targe => 5,
    }
}

pub open spec fn enc_item(v: Item) -> Seq<SaveToken> {
    enc_u64(item_tag(v))
}

pub open spec fn dec_item(s: Seq<SaveToken>) -> Option<(Item, Seq<SaveToken>)> {
    match dec_u64(s) {
        Some((t, r)) => if t == 0 {
            Some((Item::Heal, r))
        } else if t == 1 {
            Some((Item::AttackBuff, r))
        } else if t == 2 {
            Some((Item::Lightning, r))
        } else if t == 3 {
            Some((Item::Sword, r))
        } else if t == 4 {
            Some((Item::Chest, r))
        } else if t == 5 {
            Some((Item::Targe, r))
        } else {
            None
        },
        None => None,
    }
}

pub proof fn lemma_dec_item(v: Item, rest: Seq<SaveToken>)
    ensures
        dec_item(enc_item(v) + rest) == Some((v, rest)),
{
    lemma_dec_u64(item_tag(v), rest);
}

fn item_to_tag(v: Item) -> (t: u64)
    ensures
        t == item_tag(v),
{
    match v {
        Item::Heal => 0,
        Item::AttackBuff => 1,
        Item::Lightning => 2,
        Item::Sword => 3,
        Item::Chest => 4,
        Item::Targe => 5,
    }
}

fn item_from_tag(t: u64) -> (r: Option<Item>)
    ensures
        match r {
            Some(v) => item_tag(v) == t,
            None => t > 5,
        },
{
    if t == 0 {
        Some(Item::Heal)
    } else if t == 1 {
        Some(Item::AttackBuff)
    } else if t == 2 {
        Some(Item::Lightning)
    } else if t == 3 {
        Some(Item::Sword)
    } else if t == 4 {
        Some(Item::Chest)
    } else if t == 5 {
        Some(Item::Targe)
    } else {
        None
    }
}

pub open spec fn death_tag(v: DeathCallback) -> u64 {
    match v {
        DeathCallback::Player => 0,
        DeathCallback::Monster => 1,
    }
}

pub open spec fn enc_death(v: DeathCallback) -> Seq<SaveToken> {
    enc_u64(death_tag(v))
}

pub open spec fn dec_death(s: Seq<SaveToken>) -> Option<(DeathCallback, Seq<SaveToken>)> {
    match dec_u64(s) {
        Some((t, r)) => if t == 0 {
            Some((DeathCallback::Player, r))
        } else if t == 1 {
            Some((DeathCallback::Monster, r))
        } else {
            None
        },
        None => None,
    }
}

pub proof fn lemma_dec_death(v: DeathCallback, rest: Seq<SaveToken>)
    ensures
        dec_death(enc_death(v) + rest) == Some((v, rest)),
{
    lemma_dec_u64(death_tag(v), rest);
}

// The one Ai variant is stored as its tag, ready for further variants.
pub open spec fn ai_tag(v: Ai) -> u64 {
    match v {
        Ai::Basic => 0,
    }
}

pub open spec fn enc_ai(v: Ai) -> Seq<SaveToken> {
    enc_u64(ai_tag(v))
}

pub open spec fn dec_ai(s: Seq<SaveToken>) -> Option<(Ai, Seq<SaveToken>)> {
    match dec_u64(s) {
        Some((t, r)) => if t == 0 {
            Some((Ai::Basic, r))
        } else {
            None
        },
        None => None,
    }
}

pub proof fn lemma_dec_ai(v: Ai, rest: Seq<SaveToken>)
    ensures
        dec_ai(enc_ai(v) + rest) == Some((v, rest)),
{
    lemma_dec_u64(ai_tag(v), rest);
}

// --- colour ---

pub open spec fn enc_color(c: Color) -> Seq<SaveToken> {
    enc_u64(c.r as u64) + enc_u64(c.g as u64) + enc_u64(c.b as u64)
}

pub open spec fn dec_color(s: Seq<SaveToken>) -> Option<(Color, Seq<SaveToken>)> {
    match dec_u64(s) {
        Some((r, s1)) => match dec_u64(s1) {
            Some((g, s2)) => match dec_u64(s2) {
                Some((b, s3)) => if r <= 255 && g <= 255 && b <= 255 {
                    Some((Color { r: r as u8, g: g as u8, b: b as u8 }, s3))
                } else {
                    None
                },
                None => None,
            },
            None => None,
        },
        None => None,
    }
}

pub proof fn lemma_dec_color(c: Color, rest: Seq<SaveToken>)
    ensures
        dec_color(enc_color(c) + rest) == Some((c, rest)),
{
    let s1 = enc_u64(c.g as u64) + (enc_u64(c.b as u64) + rest);
    assert(enc_color(c) + rest =~= enc_u64(c.r as u64) + s1);
    lemma_dec_u64(c.r as u64, s1);
    let s2 = enc_u64(c.b as u64) + rest;
    lemma_dec_u64(c.g as u64, s2);
    lemma_dec_u64(c.b as u64, rest);
}

// --- Fighter ---

pub open spec fn enc_fighter(f: Fighter) -> Seq<SaveToken> {
    enc_i32(f.base_max_hp) + enc_i32(f.hp) + enc_i32(f.base_defense) + enc_i32(f.base_power)
        + enc_death(f.on_death) + enc_i32(f.xp)
}

pub open spec fn dec_fighter(s: Seq<SaveToken>) -> Option<(Fighter, Seq<SaveToken>)> {
    match dec_i32(s) {
        Some((base_max_hp, s1)) => match dec_i32(s1) {
            Some((hp, s2)) => match dec_i32(s2) {
                Some((base_defense, s3)) => match dec_i32(s3) {
                    Some((base_power, s4)) => match dec_death(s4) {
                        Some((on_death, s5)) => match dec_i32(s5) {
                            Some((xp, s6)) => Some(
                                (
                                    Fighter {
                                        base_max_hp,
                                        hp,
                                        base_defense,
                                        base_power,
                                        on_death,
                                        xp,
                                    },
                                    s6,
                                ),
                            ),
                            None => None,
                        },
                        None => None,
                    },
                    None => None,
                },
                None => None,
            },
            None => None,
        },
        None => None,
    }
}

pub proof fn lemma_dec_fighter(f: Fighter, rest: Seq<SaveToken>)
    ensures
        dec_fighter(enc_fighter(f) + rest) == Some((f, rest)),
{
    let s5 = enc_i32(f.xp) + rest;
    let s4 = enc_death(f.on_death) + s5;
    let s3 = enc_i32(f.base_power) + s4;
    let s2 = enc_i32(f.base_defense) + s3;
    let s1 = enc_i32(f.hp) + s2;
    assert(enc_fighter(f) + rest =~= enc_i32(f.base_max_hp) + s1);
    lemma_dec_i32(f.base_max_hp, s1);
    lemma_dec_i32(f.hp, s2);
    lemma_dec_i32(f.base_defense, s3);
    lemma_dec_i32(f.base_power, s4);
    lemma_dec_death(f.on_death, s5);
    lemma_dec_i32(f.xp, rest);
}

// --- Equipment ---

pub open spec fn enc_equipment(e: Equipment) -> Seq<SaveToken> {
    enc_slot(e.slot) + enc_bool(e.equipped) + enc_i32(e.max_hp_bonus) + enc_i32(e.power_bonus)
        + enc_i32(e.defense_bonus)
}

pub open spec fn dec_equipment(s: Seq<SaveToken>) -> Option<(Equipment, Seq<SaveToken>)> {
    match dec_slot(s) {
        Some((slot, s1)) => match dec_bool(s1) {
            Some((equipped, s2)) => match dec_i32(s2) {
                Some((max_hp_bonus, s3)) => match dec_i32(s3) {
                    Some((power_bonus, s4)) => match dec_i32(s4) {
                        Some((defense_bonus, s5)) => Some(
                            (
                                Equipment {
                                    slot,
                                    equipped,
                                    max_hp_bonus,
                                    power_bonus,
                                    defense_bonus,
                                },
                                s5,
                            ),
                        ),
                        None => None,
                    },
                    None => None,
                },
                None => None,
            },
            None => None,
        },
        None => None,
    }
}

pub proof fn lemma_dec_equipment(e: Equipment, rest: Seq<SaveToken>)
    ensures
        dec_equipment(enc_equipment(e) + rest) == Some((e, rest)),
{
    let s4 = enc_i32(e.defense_bonus) + rest;
    let s3 = enc_i32(e.power_bonus) + s4;
    let s2 = enc_i32(e.max_hp_bonus) + s3;
    let s1 = enc_bool(e.equipped) + s2;
    assert(enc_equipment(e) + rest =~= enc_slot(e.slot) + s1);
    lemma_dec_slot(e.slot, s1);
    lemma_dec_bool(e.equipped, s2);
    lemma_dec_i32(e.max_hp_bonus, s3);
    lemma_dec_i32(e.power_bonus, s4);
    lemma_dec_i32(e.defense_bonus, rest);
}

// --- options, tagged by a presence flag ---

pub open spec fn enc_opt_fighter(v: Option<Fighter>) -> Seq<SaveToken> {
    match v {
        Some(f) => enc_bool(true) + enc_fighter(f),
        None => enc_bool(false),
    }
}

pub open spec fn dec_opt_fighter(s: Seq<SaveToken>) -> Option<(Option<Fighter>, Seq<SaveToken>)> {
    match dec_bool(s) {
        Some((present, s1)) => if present {
            match dec_fighter(s1) {
                Some((f, s2)) => Some((Some(f), s2)),
                None => None,
            }
        } else {
            Some((None, s1))
        },
        None => None,
    }
}

pub proof fn lemma_dec_opt_fighter(v: Option<Fighter>, rest: Seq<SaveToken>)
    ensures
        dec_opt_fighter(enc_opt_fighter(v) + rest) == Some((v, rest)),
{
    match v {
        Some(f) => {
            let s1 = enc_fighter(f) + rest;
            assert(enc_opt_fighter(v) + rest =~= enc_bool(true) + s1);
            lemma_dec_bool(true, s1);
            lemma_dec_fighter(f, rest);
        },
        None => {
            lemma_dec_bool(false, rest);
        },
    }
}

pub open spec fn enc_opt_ai(v: Option<Ai>) -> Seq<SaveToken> {
    match v {
        Some(a) => enc_bool(true) + enc_ai(a),
        None => enc_bool(false),
    }
}

pub open spec fn dec_opt_ai(s: Seq<SaveToken>) -> Option<(Option<Ai>, Seq<SaveToken>)> {
    match dec_bool(s) {
        Some((present, s1)) => if present {
            match dec_ai(s1) {
                Some((a, s2)) => Some((Some(a), s2)),
                None => None,
            }
        } else {
            Some((None, s1))
        },
        None => None,
    }
}

pub proof fn lemma_dec_opt_ai(v: Option<Ai>, rest: Seq<SaveToken>)
    ensures
        dec_opt_ai(enc_opt_ai(v) + rest) == Some((v, rest)),
{
    match v {
        Some(a) => {
            let s1 = enc_ai(a) + rest;
            assert(enc_opt_ai(v) + rest =~= enc_bool(true) + s1);
            lemma_dec_bool(true, s1);
            lemma_dec_ai(a, rest);
        },
        None => {
            lemma_dec_bool(false, rest);
        },
    }
}

pub open spec fn enc_opt_item(v: Option<Item>) -> Seq<SaveToken> {
    match v {
        Some(i) => enc_bool(true) + enc_item(i),
        None => enc_bool(false),
    }
}

pub open spec fn dec_opt_item(s: Seq<SaveToken>) -> Option<(Option<Item>, Seq<SaveToken>)> {
    match dec_bool(s) {
        Some((present, s1)) => if present {
            match dec_item(s1) {
                Some((i, s2)) => Some((Some(i), s2)),
                None => None,
            }
        } else {
            Some((None, s1))
        },
        None => None,
    }
}

pub proof fn lemma_dec_opt_item(v: Option<Item>, rest: Seq<SaveToken>)
    ensures
        dec_opt_item(enc_opt_item(v) + rest) == Some((v, rest)),
{
    match v {
        Some(i) => {
            let s1 = enc_item(i) + rest;
            assert(enc_opt_item(v) + rest =~= enc_bool(true) + s1);
            lemma_dec_bool(true, s1);
            lemma_dec_item(i, rest);
        },
        None => {
            lemma_dec_bool(false, rest);
        },
    }
}

pub open spec fn enc_opt_equipment(v: Option<Equipment>) -> Seq<SaveToken> {
    match v {
        Some(e) => enc_bool(true) + enc_equipment(e),
        None => enc_bool(false),
    }
}

pub open spec fn dec_opt_equipment(s: Seq<SaveToken>) -> Option<
    (Option<Equipment>, Seq<SaveToken>),
> {
    match dec_bool(s) {
        Some((present, s1)) => if present {
            match dec_equipment(s1) {
                Some((e, s2)) => Some((Some(e), s2)),
                None => None,
            }
        } else {
            Some((None, s1))
        },
        None => None,
    }
}

pub proof fn lemma_dec_opt_equipment(v: Option<Equipment>, rest: Seq<SaveToken>)
    ensures
        dec_opt_equipment(enc_opt_equipment(v) + rest) == Some((v, rest)),
{
    match v {
        Some(e) => {
            let s1 = enc_equipment(e) + rest;
            assert(enc_opt_equipment(v) + rest =~= enc_bool(true) + s1);
            lemma_dec_bool(true, s1);
            lemma_dec_equipment(e, rest);
        },
        None => {
            lemma_dec_bool(false, rest);
        },
    }
}

// --- character sequences and strings ---

pub open spec fn enc_chars(cs: Seq<char>) -> Seq<SaveToken>
    decreases cs.len(),
{
    if cs.len() == 0 {
        Seq::empty()
    } else {
        enc_char(cs[0]) + enc_chars(cs.drop_first())
    }
}

pub open spec fn enc_str(cs: Seq<char>) -> Seq<SaveToken> {
    enc_u64(cs.len() as u64) + enc_chars(cs)
}

pub open spec fn dec_chars(s: Seq<SaveToken>, n: nat) -> Option<(Seq<char>, Seq<SaveToken>)>
    decreases n,
{
    if n == 0 {
        Some((Seq::empty(), s))
    } else {
        match dec_char(s) {
            Some((c, s1)) => match dec_chars(s1, (n - 1) as nat) {
                Some((cs, s2)) => Some((seq![c] + cs, s2)),
                None => None,
            },
            None => None,
        }
    }
}

pub open spec fn dec_str(s: Seq<SaveToken>) -> Option<(Seq<char>, Seq<SaveToken>)> {
    match dec_u64(s) {
        Some((n, s1)) => dec_chars(s1, n as nat),
        None => None,
    }
}

pub proof fn lemma_dec_chars(cs: Seq<char>, rest: Seq<SaveToken>)
    ensures
        dec_chars(enc_chars(cs) + rest, cs.len()) == Some((cs, rest)),
    decreases cs.len(),
{
    if cs.len() == 0 {
        assert(enc_chars(cs) + rest =~= rest);
        assert(dec_chars(rest, 0) == Some((Seq::<char>::empty(), rest)));
        assert(cs =~= Seq::<char>::empty());
    } else {
        let tail = cs.drop_first();
        let s1 = enc_chars(tail) + rest;
        assert(enc_chars(cs) + rest =~= enc_char(cs[0]) + s1);
        lemma_dec_char(cs[0], s1);
        lemma_dec_chars(tail, rest);
        assert(seq![cs[0]] + tail =~= cs);
    }
}

pub proof fn lemma_dec_str(cs: Seq<char>, rest: Seq<SaveToken>)
    requires
        cs.len() <= u64::MAX,
    ensures
        dec_str(enc_str(cs) + rest) == Some((cs, rest)),
{
    let s1 = enc_chars(cs) + rest;
    assert(enc_str(cs) + rest =~= enc_u64(cs.len() as u64) + s1);
    lemma_dec_u64(cs.len() as u64, s1);
    lemma_dec_chars(cs, rest);
}

/// Appending one character extends the encoding by one token.
pub proof fn lemma_enc_chars_push(cs: Seq<char>, c: char)
    ensures
        enc_chars(cs.push(c)) == enc_chars(cs) + enc_char(c),
    decreases cs.len(),
{
    if cs.len() == 0 {
        assert(cs.push(c)[0] == c);
        assert(cs.push(c).drop_first() =~= Seq::<char>::empty());
        assert(enc_chars(Seq::<char>::empty()) == Seq::<SaveToken>::empty());
        assert(enc_chars(cs.push(c)) =~= enc_char(c));
        assert(enc_chars(cs) + enc_char(c) =~= enc_char(c));
    } else {
        assert(cs.push(c)[0] == cs[0]);
        assert(cs.push(c).drop_first() =~= cs.drop_first().push(c));
        lemma_enc_chars_push(cs.drop_first(), c);
        assert(enc_chars(cs.push(c)) =~= enc_char(cs[0]) + (enc_chars(cs.drop_first())
            + enc_char(c)));
        assert(enc_chars(cs) + enc_char(c) =~= enc_char(cs[0]) + (enc_chars(cs.drop_first())
            + enc_char(c)));
    }
}

/// Relies on String::push: appends the given character to the end of the
/// string.
#[verifier::external_body]
fn string_push_char(s: &mut String, c: char)
    ensures
        final(s)@ == old(s)@.push(c),
{
    s.push(c);
}

/// The characters of a string, in order, as a vector.
fn chars_of(s: &str) -> (r: Vec<char>)
    ensures
        r@ == s@,
{
    broadcast use vstd::string::axiom_spec_iter, vstd::string::next_postcondition;

    let mut it = s.chars();
    let mut out: Vec<char> = Vec::new();
    loop
        invariant
            vstd::std_specs::iter::IteratorSpec::obeys_prophetic_iter_laws(&it),
            vstd::std_specs::iter::IteratorSpec::decrease(&it) is Some,
            out@ + vstd::std_specs::iter::IteratorSpec::remaining(&it) == s@,
        ensures
            out@ == s@,
        decreases vstd::std_specs::iter::IteratorSpec::decrease(&it).unwrap(),
    {
        match it.next() {
            Some(c) => {
                out.push(c);
                proof {
                    assert(out@ + vstd::std_specs::iter::IteratorSpec::remaining(&it) =~= s@);
                }
            },
            None => {
                proof {
                    assert(out@ =~= s@);
                }
                break ;
            },
        }
    }
    out
}

// --- tiles ---

pub open spec fn enc_tile(t: Tile) -> Seq<SaveToken> {
    enc_bool(t.blocked) + enc_bool(t.block_sight) + enc_bool(t.explored)
}

pub open spec fn dec_tile(s: Seq<SaveToken>) -> Option<(Tile, Seq<SaveToken>)> {
    match dec_bool(s) {
        Some((blocked, s1)) => match dec_bool(s1) {
            Some((block_sight, s2)) => match dec_bool(s2) {
                Some((explored, s3)) => Some((Tile { blocked, block_sight, explored }, s3)),
                None => None,
            },
            None => None,
        },
        None => None,
    }
}

pub proof fn lemma_dec_tile(t: Tile, rest: Seq<SaveToken>)
    ensures
        dec_tile(enc_tile(t) + rest) == Some((t, rest)),
{
    let s2 = enc_bool(t.explored) + rest;
    let s1 = enc_bool(t.block_sight) + s2;
    assert(enc_tile(t) + rest =~= enc_bool(t.blocked) + s1);
    lemma_dec_bool(t.blocked, s1);
    lemma_dec_bool(t.block_sight, s2);
    lemma_dec_bool(t.explored, rest);
}


// --- entity lists ---

pub open spec fn objs_model(objs: Seq<Object>) -> Seq<ObjectModel> {
    Seq::new(objs.len(), |i: int| obj_model(objs[i]))
}

pub open spec fn enc_obj_list(ms: Seq<ObjectModel>) -> Seq<SaveToken>
    decreases ms.len(),
{
    if ms.len() == 0 {
        Seq::empty()
    } else {
        enc_object(ms[0]) + enc_obj_list(ms.drop_first())
    }
}

pub open spec fn enc_objects(ms: Seq<ObjectModel>) -> Seq<SaveToken> {
    enc_u64(ms.len() as u64) + enc_obj_list(ms)
}

pub open spec fn dec_obj_list(s: Seq<SaveToken>, n: nat) -> Option<
    (Seq<ObjectModel>, Seq<SaveToken>),
>
    decreases n,
{
    if n == 0 {
        Some((Seq::empty(), s))
    } else {
        match dec_object(s) {
            Some((m, s1)) => match dec_obj_list(s1, (n - 1) as nat) {
                Some((ms, s2)) => Some((seq![m] + ms, s2)),
                None => None,
            },
            None => None,
        }
    }
}

pub open spec fn dec_objects(s: Seq<SaveToken>) -> Option<(Seq<ObjectModel>, Seq<SaveToken>)> {
    match dec_u64(s) {
        Some((n, s1)) => dec_obj_list(s1, n as nat),
        None => None,
    }
}

/// Whether every name in a model list fits the length field.
pub open spec fn obj_models_fit(ms: Seq<ObjectModel>) -> bool {
    forall|i: int| 0 <= i < ms.len() ==> (#[trigger] ms[i]).name.len() <= u64::MAX
}

pub proof fn lemma_dec_obj_list(ms: Seq<ObjectModel>, rest: Seq<SaveToken>)
    requires
        obj_models_fit(ms),
    ensures
        dec_obj_list(enc_obj_list(ms) + rest, ms.len()) == Some((ms, rest)),
    decreases ms.len(),
{
    if ms.len() == 0 {
        assert(enc_obj_list(ms) + rest =~= rest);
        assert(ms =~= Seq::<ObjectModel>::empty());
    } else {
        let tail = ms.drop_first();
        let s1 = enc_obj_list(tail) + rest;
        vstd::seq_lib::lemma_concat_associative(enc_object(ms[0]), enc_obj_list(tail), rest);
        lemma_dec_object(ms[0], s1);
        assert(obj_models_fit(tail)) by {
            assert(forall|i: int| 0 <= i < tail.len() ==> #[trigger] tail[i] == ms[i + 1]);
        }
        lemma_dec_obj_list(tail, rest);
        assert(seq![ms[0]] + tail =~= ms);
    }
}

pub proof fn lemma_dec_objects(ms: Seq<ObjectModel>, rest: Seq<SaveToken>)
    requires
        obj_models_fit(ms),
        ms.len() <= u64::MAX,
    ensures
        dec_objects(enc_objects(ms) + rest) == Some((ms, rest)),
{
    let s1 = enc_obj_list(ms) + rest;
    assert(enc_objects(ms) + rest =~= enc_u64(ms.len() as u64) + s1);
    lemma_dec_u64(ms.len() as u64, s1);
    lemma_dec_obj_list(ms, rest);
}

/// Appending one entity extends the list encoding by that entity.
pub proof fn lemma_enc_obj_list_push(ms: Seq<ObjectModel>, m: ObjectModel)
    ensures
        enc_obj_list(ms.push(m)) == enc_obj_list(ms) + enc_object(m),
    decreases ms.len(),
{
    if ms.len() == 0 {
        assert(ms.push(m)[0] == m);
        assert(ms.push(m).drop_first() =~= Seq::<ObjectModel>::empty());
        assert(enc_obj_list(Seq::<ObjectModel>::empty()) == Seq::<SaveToken>::empty());
        assert(enc_obj_list(ms.push(m)) =~= enc_object(m));
        assert(enc_obj_list(ms) + enc_object(m) =~= enc_object(m));
    } else {
        assert(ms.push(m)[0] == ms[0]);
        assert(ms.push(m).drop_first() =~= ms.drop_first().push(m));
        lemma_enc_obj_list_push(ms.drop_first(), m);
        assert(enc_obj_list(ms.push(m)) =~= enc_object(ms[0]) + (enc_obj_list(ms.drop_first())
            + enc_object(m)));
        assert(enc_obj_list(ms) + enc_object(m) =~= enc_object(ms[0]) + (enc_obj_list(
            ms.drop_first(),
        ) + enc_object(m)));
    }
}

fn write_objects(out: &mut Vec<SaveToken>, objs: &Vec<Object>)
    ensures
        final(out)@ == old(out)@ + enc_objects(objs_model(objs@)),
{
    write_u64(out, objs.len() as u64);
    let ghost base = out@;
    let ghost ms = objs_model(objs@);
    let mut k: usize = 0;
    while k < objs.len()
        invariant
            k <= objs@.len(),
            ms == objs_model(objs@),
            ms.len() == objs@.len(),
            out@ == base + enc_obj_list(ms.take(k as int)),
        decreases objs@.len() - k,
    {
        proof {
            lemma_enc_obj_list_push(ms.take(k as int), ms[k as int]);
            assert(ms.take(k + 1int) =~= ms.take(k as int).push(ms[k as int]));
        }
        write_object(out, &objs[k]);
        proof {
            assert(out@ =~= base + enc_obj_list(ms.take(k + 1int)));
        }
        k = k + 1;
    }
    proof {
        assert(ms.take(ms.len() as int) =~= ms);
        assert(enc_obj_list(Seq::<ObjectModel>::empty()) == Seq::<SaveToken>::empty());
        assert(out@ =~= old(out)@ + enc_objects(ms));
    }
}

fn read_obj_list(data: &Vec<SaveToken>, pos: usize, n: u64) -> (r: Option<(Vec<Object>, usize)>)
    requires
        pos <= data@.len(),
    ensures
        r is Some ==> {
            &&& pos <= r.unwrap().1 <= data@.len()
            &&& dec_obj_list(data@.skip(pos as int), n as nat) is Some
            &&& dec_obj_list(data@.skip(pos as int), n as nat).unwrap().0 == objs_model(
                r.unwrap().0@,
            )
            &&& dec_obj_list(data@.skip(pos as int), n as nat).unwrap().1 == data@.skip(
                r.unwrap().1 as int,
            )
        },
        r is None ==> dec_obj_list(data@.skip(pos as int), n as nat) is None,
    decreases n,
{
    if n == 0 {
        let empty: Vec<Object> = Vec::new();
        proof {
            assert(objs_model(empty@) =~= Seq::<ObjectModel>::empty());
        }
        Some((empty, pos))
    } else {
        match read_object(data, pos) {
            Some((o, p1)) => {
                match read_obj_list(data, p1, n - 1) {
                    Some((tail, p2)) => {
                        let ghost tail0 = tail@;
                        let mut whole = tail;
                        whole.insert(0, o);
                        proof {
                            assert(objs_model(whole@) =~= seq![obj_model(o)] + objs_model(tail0));
                        }
                        Some((whole, p2))
                    },
                    None => None,
                }
            },
            None => None,
        }
    }
}

fn read_objects(data: &Vec<SaveToken>, pos: usize) -> (r: Option<(Vec<Object>, usize)>)
    requires
        pos <= data@.len(),
    ensures
        r is Some ==> {
            &&& pos <= r.unwrap().1 <= data@.len()
            &&& dec_objects(data@.skip(pos as int)) is Some
            &&& dec_objects(data@.skip(pos as int)).unwrap().0 == objs_model(r.unwrap().0@)
            &&& dec_objects(data@.skip(pos as int)).unwrap().1 == data@.skip(r.unwrap().1 as int)
        },
        r is None ==> dec_objects(data@.skip(pos as int)) is None,
{
    match read_u64(data, pos) {
        Some((n, p1)) => read_obj_list(data, p1, n),
        None => None,
    }
}

// --- tile columns and the grid ---

pub open spec fn grid_model(g: Seq<Vec<Tile>>) -> Seq<Seq<Tile>> {
    Seq::new(g.len(), |i: int| g[i]@)
}

pub open spec fn enc_tile_list(ts: Seq<Tile>) -> Seq<SaveToken>
    decreases ts.len(),
{
    if ts.len() == 0 {
        Seq::empty()
    } else {
        enc_tile(ts[0]) + enc_tile_list(ts.drop_first())
    }
}

pub open spec fn enc_col(ts: Seq<Tile>) -> Seq<SaveToken> {
    enc_u64(ts.len() as u64) + enc_tile_list(ts)
}

pub open spec fn dec_tile_list(s: Seq<SaveToken>, n: nat) -> Option<(Seq<Tile>, Seq<SaveToken>)>
    decreases n,
{
    if n == 0 {
        Some((Seq::empty(), s))
    } else {
        match dec_tile(s) {
            Some((t, s1)) => match dec_tile_list(s1, (n - 1) as nat) {
                Some((ts, s2)) => Some((seq![t] + ts, s2)),
                None => None,
            },
            None => None,
        }
    }
}

pub open spec fn dec_col(s: Seq<SaveToken>) -> Option<(Seq<Tile>, Seq<SaveToken>)> {
    match dec_u64(s) {
        Some((n, s1)) => dec_tile_list(s1, n as nat),
        None => None,
    }
}

pub open spec fn enc_col_list(cols: Seq<Seq<Tile>>) -> Seq<SaveToken>
    decreases cols.len(),
{
    if cols.len() == 0 {
        Seq::empty()
    } else {
        enc_col(cols[0]) + enc_col_list(cols.drop_first())
    }
}

pub open spec fn enc_grid(cols: Seq<Seq<Tile>>) -> Seq<SaveToken> {
    enc_u64(cols.len() as u64) + enc_col_list(cols)
}

pub open spec fn dec_col_list(s: Seq<SaveToken>, n: nat) -> Option<
    (Seq<Seq<Tile>>, Seq<SaveToken>),
>
    decreases n,
{
    if n == 0 {
        Some((Seq::empty(), s))
    } else {
        match dec_col(s) {
            Some((c, s1)) => match dec_col_list(s1, (n - 1) as nat) {
                Some((cs, s2)) => Some((seq![c] + cs, s2)),
                None => None,
            },
            None => None,
        }
    }
}

pub open spec fn dec_grid(s: Seq<SaveToken>) -> Option<(Seq<Seq<Tile>>, Seq<SaveToken>)> {
    match dec_u64(s) {
        Some((n, s1)) => dec_col_list(s1, n as nat),
        None => None,
    }
}

pub proof fn lemma_dec_tile_list(ts: Seq<Tile>, rest: Seq<SaveToken>)
    ensures
        dec_tile_list(enc_tile_list(ts) + rest, ts.len()) == Some((ts, rest)),
    decreases ts.len(),
{
    if ts.len() == 0 {
        assert(enc_tile_list(ts) + rest =~= rest);
        assert(ts =~= Seq::<Tile>::empty());
    } else {
        let tail = ts.drop_first();
        let s1 = enc_tile_list(tail) + rest;
        assert(enc_tile_list(ts) + rest =~= enc_tile(ts[0]) + s1);
        lemma_dec_tile(ts[0], s1);
        lemma_dec_tile_list(tail, rest);
        assert(seq![ts[0]] + tail =~= ts);
    }
}

pub proof fn lemma_dec_col(ts: Seq<Tile>, rest: Seq<SaveToken>)
    requires
        ts.len() <= u64::MAX,
    ensures
        dec_col(enc_col(ts) + rest) == Some((ts, rest)),
{
    let s1 = enc_tile_list(ts) + rest;
    assert(enc_col(ts) + rest =~= enc_u64(ts.len() as u64) + s1);
    lemma_dec_u64(ts.len() as u64, s1);
    lemma_dec_tile_list(ts, rest);
}

pub proof fn lemma_dec_col_list(cols: Seq<Seq<Tile>>, rest: Seq<SaveToken>)
    requires
        forall|i: int| 0 <= i < cols.len() ==> (#[trigger] cols[i]).len() <= u64::MAX,
    ensures
        dec_col_list(enc_col_list(cols) + rest, cols.len()) == Some((cols, rest)),
    decreases cols.len(),
{
    if cols.len() == 0 {
        assert(enc_col_list(cols) + rest =~= rest);
        assert(cols =~= Seq::<Seq<Tile>>::empty());
    } else {
        let tail = cols.drop_first();
        let s1 = enc_col_list(tail) + rest;
        assert(enc_col_list(cols) + rest =~= enc_col(cols[0]) + s1);
        lemma_dec_col(cols[0], s1);
        assert(forall|i: int| 0 <= i < tail.len() ==> #[trigger] tail[i] == cols[i + 1]);
        lemma_dec_col_list(tail, rest);
        assert(seq![cols[0]] + tail =~= cols);
    }
}

pub proof fn lemma_dec_grid(cols: Seq<Seq<Tile>>, rest: Seq<SaveToken>)
    requires
        forall|i: int| 0 <= i < cols.len() ==> (#[trigger] cols[i]).len() <= u64::MAX,
        cols.len() <= u64::MAX,
    ensures
        dec_grid(enc_grid(cols) + rest) == Some((cols, rest)),
{
    let s1 = enc_col_list(cols) + rest;
    assert(enc_grid(cols) + rest =~= enc_u64(cols.len() as u64) + s1);
    lemma_dec_u64(cols.len() as u64, s1);
    lemma_dec_col_list(cols, rest);
}

pub proof fn lemma_enc_tile_list_push(ts: Seq<Tile>, t: Tile)
    ensures
        enc_tile_list(ts.push(t)) == enc_tile_list(ts) + enc_tile(t),
    decreases ts.len(),
{
    if ts.len() == 0 {
        assert(ts.push(t)[0] == t);
        assert(ts.push(t).drop_first() =~= Seq::<Tile>::empty());
        assert(enc_tile_list(Seq::<Tile>::empty()) == Seq::<SaveToken>::empty());
        assert(enc_tile_list(ts.push(t)) =~= enc_tile(t));
        assert(enc_tile_list(ts) + enc_tile(t) =~= enc_tile(t));
    } else {
        assert(ts.push(t)[0] == ts[0]);
        assert(ts.push(t).drop_first() =~= ts.drop_first().push(t));
        lemma_enc_tile_list_push(ts.drop_first(), t);
        assert(enc_tile_list(ts.push(t)) =~= enc_tile(ts[0]) + (enc_tile_list(ts.drop_first())
            + enc_tile(t)));
        assert(enc_tile_list(ts) + enc_tile(t) =~= enc_tile(ts[0]) + (enc_tile_list(
            ts.drop_first(),
        ) + enc_tile(t)));
    }
}

pub proof fn lemma_enc_col_list_push(cols: Seq<Seq<Tile>>, c: Seq<Tile>)
    ensures
        enc_col_list(cols.push(c)) == enc_col_list(cols) + enc_col(c),
    decreases cols.len(),
{
    if cols.len() == 0 {
        assert(cols.push(c)[0] == c);
        assert(cols.push(c).drop_first() =~= Seq::<Seq<Tile>>::empty());
        assert(enc_col_list(Seq::<Seq<Tile>>::empty()) == Seq::<SaveToken>::empty());
        assert(enc_col_list(cols.push(c)) =~= enc_col(c));
        assert(enc_col_list(cols) + enc_col(c) =~= enc_col(c));
    } else {
        assert(cols.push(c)[0] == cols[0]);
        assert(cols.push(c).drop_first() =~= cols.drop_first().push(c));
        lemma_enc_col_list_push(cols.drop_first(), c);
        assert(enc_col_list(cols.push(c)) =~= enc_col(cols[0]) + (enc_col_list(cols.drop_first())
            + enc_col(c)));
        assert(enc_col_list(cols) + enc_col(c) =~= enc_col(cols[0]) + (enc_col_list(
            cols.drop_first(),
        ) + enc_col(c)));
    }
}

fn write_col(out: &mut Vec<SaveToken>, col: &Vec<Tile>)
    ensures
        final(out)@ == old(out)@ + enc_col(col@),
{
    write_u64(out, col.len() as u64);
    let ghost base = out@;
    let mut k: usize = 0;
    while k < col.len()
        invariant
            k <= col@.len(),
            out@ == base + enc_tile_list(col@.take(k as int)),
        decreases col@.len() - k,
    {
        proof {
            lemma_enc_tile_list_push(col@.take(k as int), col@[k as int]);
            assert(col@.take(k + 1int) =~= col@.take(k as int).push(col@[k as int]));
        }
        let t = col[k];
        write_bool(out, t.blocked);
        write_bool(out, t.block_sight);
        write_bool(out, t.explored);
        proof {
            assert(out@ =~= base + enc_tile_list(col@.take(k + 1int)));
        }
        k = k + 1;
    }
    proof {
        assert(col@.take(col@.len() as int) =~= col@);
        assert(enc_tile_list(Seq::<Tile>::empty()) == Seq::<SaveToken>::empty());
        assert(out@ =~= old(out)@ + enc_col(col@));
    }
}

fn write_grid(out: &mut Vec<SaveToken>, grid: &Vec<Vec<Tile>>)
    ensures
        final(out)@ == old(out)@ + enc_grid(grid_model(grid@)),
{
    write_u64(out, grid.len() as u64);
    let ghost base = out@;
    let ghost gm = grid_model(grid@);
    let mut k: usize = 0;
    while k < grid.len()
        invariant
            k <= grid@.len(),
            gm == grid_model(grid@),
            gm.len() == grid@.len(),
            out@ == base + enc_col_list(gm.take(k as int)),
        decreases grid@.len() - k,
    {
        proof {
            lemma_enc_col_list_push(gm.take(k as int), gm[k as int]);
            assert(gm.take(k + 1int) =~= gm.take(k as int).push(gm[k as int]));
        }
        write_col(out, &grid[k]);
        proof {
            assert(out@ =~= base + enc_col_list(gm.take(k + 1int)));
        }
        k = k + 1;
    }
    proof {
        assert(gm.take(gm.len() as int) =~= gm);
        assert(enc_col_list(Seq::<Seq<Tile>>::empty()) == Seq::<SaveToken>::empty());
        assert(out@ =~= old(out)@ + enc_grid(gm));
    }
}

fn read_tile_list(data: &Vec<SaveToken>, pos: usize, n: u64) -> (r: Option<(Vec<Tile>, usize)>)
    requires
        pos <= data@.len(),
    ensures
        r is Some ==> {
            &&& pos <= r.unwrap().1 <= data@.len()
            &&& dec_tile_list(data@.skip(pos as int), n as nat) is Some
            &&& dec_tile_list(data@.skip(pos as int), n as nat).unwrap().0 == r.unwrap().0@
            &&& dec_tile_list(data@.skip(pos as int), n as nat).unwrap().1 == data@.skip(
                r.unwrap().1 as int,
            )
        },
        r is None ==> dec_tile_list(data@.skip(pos as int), n as nat) is None,
    decreases n,
{
    if n == 0 {
        let empty: Vec<Tile> = Vec::new();
        proof {
            assert(empty@ =~= Seq::<Tile>::empty());
        }
        Some((empty, pos))
    } else {
        let (blocked, q1) = match read_bool(data, pos) {
            Some(v) => v,
            None => {
                return None;
            },
        };
        let (block_sight, q2) = match read_bool(data, q1) {
            Some(v) => v,
            None => {
                return None;
            },
        };
        let (explored, q3) = match read_bool(data, q2) {
            Some(v) => v,
            None => {
                return None;
            },
        };
        let t = Tile { blocked, block_sight, explored };
        match read_tile_list(data, q3, n - 1) {
            Some((tail, p2)) => {
                let ghost tail0 = tail@;
                let mut whole = tail;
                whole.insert(0, t);
                proof {
                    assert(whole@ =~= seq![t] + tail0);
                }
                Some((whole, p2))
            },
            None => None,
        }
    }
}

fn read_col(data: &Vec<SaveToken>, pos: usize) -> (r: Option<(Vec<Tile>, usize)>)
    requires
        pos <= data@.len(),
    ensures
        r is Some ==> {
            &&& pos <= r.unwrap().1 <= data@.len()
            &&& dec_col(data@.skip(pos as int)) is Some
            &&& dec_col(data@.skip(pos as int)).unwrap().0 == r.unwrap().0@
            &&& dec_col(data@.skip(pos as int)).unwrap().1 == data@.skip(r.unwrap().1 as int)
        },
        r is None ==> dec_col(data@.skip(pos as int)) is None,
{
    match read_u64(data, pos) {
        Some((n, p1)) => read_tile_list(data, p1, n),
        None => None,
    }
}

fn read_col_list(data: &Vec<SaveToken>, pos: usize, n: u64) -> (r: Option<
    (Vec<Vec<Tile>>, usize),
>)
    requires
        pos <= data@.len(),
    ensures
        r is Some ==> {
            &&& pos <= r.unwrap().1 <= data@.len()
            &&& dec_col_list(data@.skip(pos as int), n as nat) is Some
            &&& dec_col_list(data@.skip(pos as int), n as nat).unwrap().0 == grid_model(
                r.unwrap().0@,
            )
            &&& dec_col_list(data@.skip(pos as int), n as nat).unwrap().1 == data@.skip(
                r.unwrap().1 as int,
            )
        },
        r is None ==> dec_col_list(data@.skip(pos as int), n as nat) is None,
    decreases n,
{
    if n == 0 {
        let empty: Vec<Vec<Tile>> = Vec::new();
        proof {
            assert(grid_model(empty@) =~= Seq::<Seq<Tile>>::empty());
        }
        Some((empty, pos))
    } else {
        match read_col(data, pos) {
            Some((c, p1)) => {
                match read_col_list(data, p1, n - 1) {
                    Some((tail, p2)) => {
                        let ghost tail0 = tail@;
                        let mut whole = tail;
                        whole.insert(0, c);
                        proof {
                            assert(grid_model(whole@) =~= seq![whole@[0]@] + grid_model(tail0));
                        }
                        Some((whole, p2))
                    },
                    None => None,
                }
            },
            None => None,
        }
    }
}

fn read_grid(data: &Vec<SaveToken>, pos: usize) -> (r: Option<(Vec<Vec<Tile>>, usize)>)
    requires
        pos <= data@.len(),
    ensures
        r is Some ==> {
            &&& pos <= r.unwrap().1 <= data@.len()
            &&& dec_grid(data@.skip(pos as int)) is Some
            &&& dec_grid(data@.skip(pos as int)).unwrap().0 == grid_model(r.unwrap().0@)
            &&& dec_grid(data@.skip(pos as int)).unwrap().1 == data@.skip(r.unwrap().1 as int)
        },
        r is None ==> dec_grid(data@.skip(pos as int)) is None,
{
    match read_u64(data, pos) {
        Some((n, p1)) => read_col_list(data, p1, n),
        None => None,
    }
}

// --- specification-level images of stored values ---
// Spec code cannot build heap strings, so the decoders speak of models in
// which text is a character sequence.

/// The observable content of one entity.
pub struct ObjectModel {
    pub x: i32,
    pub y: i32,
    pub glyph: char,
    pub color: Color,
    pub name: Seq<char>,
    pub blocks: bool,
    pub alive: bool,
    pub fighter: Option<Fighter>,
    pub ai: Option<Ai>,
    pub item: Option<Item>,
    pub level: i32,
    pub equipment: Option<Equipment>,
    pub always_visible: bool,
}

/// The observable content of an entity value.
pub open spec fn obj_model(o: Object) -> ObjectModel {
    ObjectModel {
        x: o.x,
        y: o.y,
        glyph: o.glyph,
        color: o.color,
        name: o.name@,
        blocks: o.blocks,
        alive: o.alive,
        fighter: o.fighter,
        ai: o.ai,
        item: o.item,
        level: o.level,
        equipment: o.equipment,
        always_visible: o.always_visible,
    }
}

pub open spec fn enc_object(m: ObjectModel) -> Seq<SaveToken> {
    enc_i32(m.x) + enc_i32(m.y) + enc_char(m.glyph) + enc_color(m.color) + enc_str(m.name)
        + enc_bool(m.blocks) + enc_bool(m.alive) + enc_opt_fighter(m.fighter) + enc_opt_ai(m.ai)
        + enc_opt_item(m.item) + enc_i32(m.level) + enc_opt_equipment(m.equipment) + enc_bool(
        m.always_visible,
    )
}

pub open spec fn dec_object(s: Seq<SaveToken>) -> Option<(ObjectModel, Seq<SaveToken>)> {
    match dec_i32(s) {
        Some((x, s1)) => match dec_i32(s1) {
            Some((y, s2)) => match dec_char(s2) {
                Some((glyph, s3)) => match dec_color(s3) {
                    Some((color, s4)) => match dec_str(s4) {
                        Some((name, s5)) => match dec_bool(s5) {
                            Some((blocks, s6)) => match dec_bool(s6) {
                                Some((alive, s7)) => match dec_opt_fighter(s7) {
                                    Some((fighter, s8)) => match dec_opt_ai(s8) {
                                        Some((ai, s9)) => match dec_opt_item(s9) {
                                            Some((item, s10)) => match dec_i32(s10) {
                                                Some((level, s11)) => match dec_opt_equipment(s11) {
                                                    Some((equipment, s12)) => match dec_bool(s12) {
                                                        Some((always_visible, s13)) => Some(
                                                            (
                                                                ObjectModel {
                                                                    x,
                                                                    y,
                                                                    glyph,
                                                                    color,
                                                                    name,
                                                                    blocks,
                                                                    alive,
                                                                    fighter,
                                                                    ai,
                                                                    item,
                                                                    level,
                                                                    equipment,
                                                                    always_visible,
                                                                },
                                                                s13,
                                                            ),
                                                        ),
                                                        None => None,
                                                    },
                                                    None => None,
                                                },
                                                None => None,
                                            },
                                            None => None,
                                        },
                                        None => None,
                                    },
                                    None => None,
                                },
                                None => None,
                            },
                            None => None,
                        },
                        None => None,
                    },
                    None => None,
                },
                None => None,
            },
            None => None,
        },
        None => None,
    }
}

pub proof fn lemma_dec_object(m: ObjectModel, rest: Seq<SaveToken>)
    requires
        m.name.len() <= u64::MAX,
    ensures
        dec_object(enc_object(m) + rest) == Some((m, rest)),
{
    let e1 = enc_i32(m.x);
    let e2 = enc_i32(m.y);
    let e3 = enc_char(m.glyph);
    let e4 = enc_color(m.color);
    let e5 = enc_str(m.name);
    let e6 = enc_bool(m.blocks);
    let e7 = enc_bool(m.alive);
    let e8 = enc_opt_fighter(m.fighter);
    let e9 = enc_opt_ai(m.ai);
    let e10 = enc_opt_item(m.item);
    let e11 = enc_i32(m.level);
    let e12 = enc_opt_equipment(m.equipment);
    let e13 = enc_bool(m.always_visible);
    let a2 = e1 + e2;
    let a3 = a2 + e3;
    let a4 = a3 + e4;
    let a5 = a4 + e5;
    let a6 = a5 + e6;
    let a7 = a6 + e7;
    let a8 = a7 + e8;
    let a9 = a8 + e9;
    let a10 = a9 + e10;
    let a11 = a10 + e11;
    let a12 = a11 + e12;
    let a13 = a12 + e13;
    let s13 = rest;
    let s12 = e13 + s13;
    let s11 = e12 + s12;
    let s10 = e11 + s11;
    let s9 = e10 + s10;
    let s8 = e9 + s9;
    let s7 = e8 + s8;
    let s6 = e7 + s7;
    let s5 = e6 + s6;
    let s4 = e5 + s5;
    let s3 = e4 + s4;
    let s2 = e3 + s3;
    let s1 = e2 + s2;
    vstd::seq_lib::lemma_concat_associative(a12, e13, s13);
    vstd::seq_lib::lemma_concat_associative(a11, e12, s12);
    vstd::seq_lib::lemma_concat_associative(a10, e11, s11);
    vstd::seq_lib::lemma_concat_associative(a9, e10, s10);
    vstd::seq_lib::lemma_concat_associative(a8, e9, s9);
    vstd::seq_lib::lemma_concat_associative(a7, e8, s8);
    vstd::seq_lib::lemma_concat_associative(a6, e7, s7);
    vstd::seq_lib::lemma_concat_associative(a5, e6, s6);
    vstd::seq_lib::lemma_concat_associative(a4, e5, s5);
    vstd::seq_lib::lemma_concat_associative(a3, e4, s4);
    vstd::seq_lib::lemma_concat_associative(a2, e3, s3);
    vstd::seq_lib::lemma_concat_associative(e1, e2, s2);
    lemma_dec_i32(m.x, s1);
    lemma_dec_i32(m.y, s2);
    lemma_dec_char(m.glyph, s3);
    lemma_dec_color(m.color, s4);
    lemma_dec_str(m.name, s5);
    lemma_dec_bool(m.blocks, s6);
    lemma_dec_bool(m.alive, s7);
    lemma_dec_opt_fighter(m.fighter, s8);
    lemma_dec_opt_ai(m.ai, s9);
    lemma_dec_opt_item(m.item, s10);
    lemma_dec_i32(m.level, s11);
    lemma_dec_opt_equipment(m.equipment, s12);
    lemma_dec_bool(m.always_visible, s13);
}

// --- string writer and reader ---

fn write_str(out: &mut Vec<SaveToken>, s: &String)
    ensures
        final(out)@ == old(out)@ + enc_str(s@),
{
    let cv = chars_of(s.as_str());
    write_u64(out, cv.len() as u64);
    let ghost base = out@;
    let mut k: usize = 0;
    while k < cv.len()
        invariant
            k <= cv@.len(),
            cv@ == s@,
            out@ == base + enc_chars(s@.take(k as int)),
        decreases cv@.len() - k,
    {
        proof {
            lemma_enc_chars_push(s@.take(k as int), s@[k as int]);
            assert(s@.take(k + 1int) =~= s@.take(k as int).push(s@[k as int]));
        }
        write_char(out, cv[k]);
        proof {
            assert(out@ =~= base + enc_chars(s@.take(k + 1int)));
        }
        k = k + 1;
    }
    proof {
        assert(s@.take(s@.len() as int) =~= s@);
        assert(enc_chars(Seq::<char>::empty()) == Seq::<SaveToken>::empty());
        assert(base =~= old(out)@ + enc_u64(s@.len() as u64));
        assert(out@ =~= old(out)@ + enc_str(s@));
    }
}

fn read_chars_exec(data: &Vec<SaveToken>, pos: usize, n: u64) -> (r: Option<(String, usize)>)
    requires
        pos <= data@.len(),
    ensures
        r is Some ==> {
            &&& pos <= r.unwrap().1 <= data@.len()
            &&& dec_chars(data@.skip(pos as int), n as nat) is Some
            &&& dec_chars(data@.skip(pos as int), n as nat).unwrap().0 == r.unwrap().0@
            &&& dec_chars(data@.skip(pos as int), n as nat).unwrap().1 == data@.skip(
                r.unwrap().1 as int,
            )
        },
        r is None ==> dec_chars(data@.skip(pos as int), n as nat) is None,
    decreases n,
{
    if n == 0 {
        let empty = String::new();
        Some((empty, pos))
    } else {
        match read_char(data, pos) {
            Some((c, p1)) => {
                match read_chars_exec(data, p1, n - 1) {
                    Some((tail, p2)) => {
                        let mut head = String::new();
                        string_push_char(&mut head, c);
                        head.append(tail.as_str());
                        proof {
                            assert(head@ =~= seq![c] + tail@);
                        }
                        Some((head, p2))
                    },
                    None => None,
                }
            },
            None => None,
        }
    }
}

fn read_str(data: &Vec<SaveToken>, pos: usize) -> (r: Option<(String, usize)>)
    requires
        pos <= data@.len(),
    ensures
        r is Some ==> {
            &&& pos <= r.unwrap().1 <= data@.len()
            &&& dec_str(data@.skip(pos as int)) is Some
            &&& dec_str(data@.skip(pos as int)).unwrap().0 == r.unwrap().0@
            &&& dec_str(data@.skip(pos as int)).unwrap().1 == data@.skip(r.unwrap().1 as int)
        },
        r is None ==> dec_str(data@.skip(pos as int)) is None,
{
    match read_u64(data, pos) {
        Some((n, p1)) => read_chars_exec(data, p1, n),
        None => None,
    }
}


// --- compound writers and readers for entity components ---

fn write_color(out: &mut Vec<SaveToken>, c: Color)
    ensures
        final(out)@ == old(out)@ + enc_color(c),
{
    write_u64(out, c.r as u64);
    write_u64(out, c.g as u64);
    write_u64(out, c.b as u64);
    proof {
        let o0 = old(out)@;
        let e1 = enc_u64(c.r as u64);
        let e2 = enc_u64(c.g as u64);
        let e3 = enc_u64(c.b as u64);
        assert((o0 + e1) + e2 =~= o0 + (e1 + e2));
        assert((o0 + (e1 + e2)) + e3 =~= o0 + ((e1 + e2) + e3));
    }
}

fn read_color(data: &Vec<SaveToken>, pos: usize) -> (r: Option<(Color, usize)>)
    requires
        pos <= data@.len(),
    ensures
        r is Some ==> {
            &&& pos <= r.unwrap().1 <= data@.len()
            &&& dec_color(data@.skip(pos as int)) is Some
            &&& dec_color(data@.skip(pos as int)).unwrap().0 == r.unwrap().0
            &&& dec_color(data@.skip(pos as int)).unwrap().1 == data@.skip(r.unwrap().1 as int)
        },
        r is None ==> dec_color(data@.skip(pos as int)) is None,
{
    let (cr, p1) = match read_u64(data, pos) {
        Some(v) => v,
        None => {
            return None;
        },
    };
    let (cg, p2) = match read_u64(data, p1) {
        Some(v) => v,
        None => {
            return None;
        },
    };
    let (cb, p3) = match read_u64(data, p2) {
        Some(v) => v,
        None => {
            return None;
        },
    };
    if cr <= 255 && cg <= 255 && cb <= 255 {
        Some((Color { r: cr as u8, g: cg as u8, b: cb as u8 }, p3))
    } else {
        None
    }
}

fn write_opt_fighter(out: &mut Vec<SaveToken>, v: Option<Fighter>)
    ensures
        final(out)@ == old(out)@ + enc_opt_fighter(v),
{
    match v {
        Some(f) => {
            write_bool(out, true);
            write_i32(out, f.base_max_hp);
            write_i32(out, f.hp);
            write_i32(out, f.base_defense);
            write_i32(out, f.base_power);
            let dt: u64 = match f.on_death {
                DeathCallback::Player => 0,
                DeathCallback::Monster => 1,
            };
            write_u64(out, dt);
            write_i32(out, f.xp);
            proof {
                let o0 = old(out)@;
                let b = enc_bool(true);
                let e1 = enc_i32(f.base_max_hp);
                let e2 = enc_i32(f.hp);
                let e3 = enc_i32(f.base_defense);
                let e4 = enc_i32(f.base_power);
                let e5 = enc_death(f.on_death);
                let e6 = enc_i32(f.xp);
                assert((o0 + b) + e1 =~= o0 + (b + e1));
                assert((o0 + (b + e1)) + e2 =~= o0 + ((b + e1) + e2));
                assert((o0 + ((b + e1) + e2)) + e3 =~= o0 + (((b + e1) + e2) + e3));
                assert((o0 + (((b + e1) + e2) + e3)) + e4 =~= o0 + ((((b + e1) + e2) + e3) + e4));
                assert((o0 + ((((b + e1) + e2) + e3) + e4)) + e5 =~= o0 + (((((b + e1) + e2) + e3)
                    + e4) + e5));
                assert((o0 + (((((b + e1) + e2) + e3) + e4) + e5)) + e6 =~= o0 + ((((((b + e1)
                    + e2) + e3) + e4) + e5) + e6));
                assert(b + enc_fighter(f) =~= (((((b + e1) + e2) + e3) + e4) + e5) + e6);
            }
        },
        None => {
            write_bool(out, false);
        },
    }
}

fn read_opt_fighter(data: &Vec<SaveToken>, pos: usize) -> (r: Option<(Option<Fighter>, usize)>)
    requires
        pos <= data@.len(),
    ensures
        r is Some ==> {
            &&& pos <= r.unwrap().1 <= data@.len()
            &&& dec_opt_fighter(data@.skip(pos as int)) is Some
            &&& dec_opt_fighter(data@.skip(pos as int)).unwrap().0 == r.unwrap().0
            &&& dec_opt_fighter(data@.skip(pos as int)).unwrap().1 == data@.skip(
                r.unwrap().1 as int,
            )
        },
        r is None ==> dec_opt_fighter(data@.skip(pos as int)) is None,
{
    let (present, p0) = match read_bool(data, pos) {
        Some(v) => v,
        None => {
            return None;
        },
    };
    if !present {
        return Some((None, p0));
    }
    let (base_max_hp, q1) = match read_i32(data, p0) {
        Some(v) => v,
        None => {
            return None;
        },
    };
    let (hp, q2) = match read_i32(data, q1) {
        Some(v) => v,
        None => {
            return None;
        },
    };
    let (base_defense, q3) = match read_i32(data, q2) {
        Some(v) => v,
        None => {
            return None;
        },
    };
    let (base_power, q4) = match read_i32(data, q3) {
        Some(v) => v,
        None => {
            return None;
        },
    };
    let (dt, q5) = match read_u64(data, q4) {
        Some(v) => v,
        None => {
            return None;
        },
    };
    let on_death = if dt == 0 {
        DeathCallback::Player
    } else if dt == 1 {
        DeathCallback::Monster
    } else {
        return None;
    };
    let (xp, q6) = match read_i32(data, q5) {
        Some(v) => v,
        None => {
            return None;
        },
    };
    Some((Some(Fighter { base_max_hp, hp, base_defense, base_power, on_death, xp }), q6))
}

fn write_opt_ai(out: &mut Vec<SaveToken>, v: Option<Ai>)
    ensures
        final(out)@ == old(out)@ + enc_opt_ai(v),
{
    match v {
        Some(Ai::Basic) => {
            write_bool(out, true);
            write_u64(out, 0);
            proof {
                assert((old(out)@ + enc_bool(true)) + enc_u64(0) =~= old(out)@ + (enc_bool(true)
                    + enc_u64(0)));
            }
        },
        None => {
            write_bool(out, false);
        },
    }
}

fn read_opt_ai(data: &Vec<SaveToken>, pos: usize) -> (r: Option<(Option<Ai>, usize)>)
    requires
        pos <= data@.len(),
    ensures
        r is Some ==> {
            &&& pos <= r.unwrap().1 <= data@.len()
            &&& dec_opt_ai(data@.skip(pos as int)) is Some
            &&& dec_opt_ai(data@.skip(pos as int)).unwrap().0 == r.unwrap().0
            &&& dec_opt_ai(data@.skip(pos as int)).unwrap().1 == data@.skip(r.unwrap().1 as int)
        },
        r is None ==> dec_opt_ai(data@.skip(pos as int)) is None,
{
    let (present, p0) = match read_bool(data, pos) {
        Some(v) => v,
        None => {
            return None;
        },
    };
    if !present {
        return Some((None, p0));
    }
    let (at, q1) = match read_u64(data, p0) {
        Some(v) => v,
        None => {
            return None;
        },
    };
    if at == 0 {
        Some((Some(Ai::Basic), q1))
    } else {
        None
    }
}

fn write_opt_item(out: &mut Vec<SaveToken>, v: Option<Item>)
    ensures
        final(out)@ == old(out)@ + enc_opt_item(v),
{
    match v {
        Some(i) => {
            write_bool(out, true);
            let t = item_to_tag(i);
            write_u64(out, t);
            proof {
                assert((old(out)@ + enc_bool(true)) + enc_u64(item_tag(i)) =~= old(out)@ + (
                enc_bool(true) + enc_u64(item_tag(i))));
            }
        },
        None => {
            write_bool(out, false);
        },
    }
}

fn read_opt_item(data: &Vec<SaveToken>, pos: usize) -> (r: Option<(Option<Item>, usize)>)
    requires
        pos <= data@.len(),
    ensures
        r is Some ==> {
            &&& pos <= r.unwrap().1 <= data@.len()
            &&& dec_opt_item(data@.skip(pos as int)) is Some
            &&& dec_opt_item(data@.skip(pos as int)).unwrap().0 == r.unwrap().0
            &&& dec_opt_item(data@.skip(pos as int)).unwrap().1 == data@.skip(r.unwrap().1 as int)
        },
        r is None ==> dec_opt_item(data@.skip(pos as int)) is None,
{
    let (present, p0) = match read_bool(data, pos) {
        Some(v) => v,
        None => {
            return None;
        },
    };
    if !present {
        return Some((None, p0));
    }
    let (it, q1) = match read_u64(data, p0) {
        Some(v) => v,
        None => {
            return None;
        },
    };
    match item_from_tag(it) {
        Some(iv) => Some((Some(iv), q1)),
        None => None,
    }
}

fn write_opt_equipment(out: &mut Vec<SaveToken>, v: Option<Equipment>)
    ensures
        final(out)@ == old(out)@ + enc_opt_equipment(v),
{
    match v {
        Some(e) => {
            write_bool(out, true);
            let t = slot_to_tag(e.slot);
            write_u64(out, t);
            write_bool(out, e.equipped);
            write_i32(out, e.max_hp_bonus);
            write_i32(out, e.power_bonus);
            write_i32(out, e.defense_bonus);
            proof {
                let o0 = old(out)@;
                let b = enc_bool(true);
                let e1 = enc_slot(e.slot);
                let e2 = enc_bool(e.equipped);
                let e3 = enc_i32(e.max_hp_bonus);
                let e4 = enc_i32(e.power_bonus);
                let e5 = enc_i32(e.defense_bonus);
                assert((o0 + b) + e1 =~= o0 + (b + e1));
                assert((o0 + (b + e1)) + e2 =~= o0 + ((b + e1) + e2));
                assert((o0 + ((b + e1) + e2)) + e3 =~= o0 + (((b + e1) + e2) + e3));
                assert((o0 + (((b + e1) + e2) + e3)) + e4 =~= o0 + ((((b + e1) + e2) + e3) + e4));
                assert((o0 + ((((b + e1) + e2) + e3) + e4)) + e5 =~= o0 + (((((b + e1) + e2) + e3)
                    + e4) + e5));
                assert(b + enc_equipment(e) =~= ((((b + e1) + e2) + e3) + e4) + e5);
            }
        },
        None => {
            write_bool(out, false);
        },
    }
}

fn read_opt_equipment(data: &Vec<SaveToken>, pos: usize) -> (r: Option<(Option<Equipment>, usize)>)
    requires
        pos <= data@.len(),
    ensures
        r is Some ==> {
            &&& pos <= r.unwrap().1 <= data@.len()
            &&& dec_opt_equipment(data@.skip(pos as int)) is Some
            &&& dec_opt_equipment(data@.skip(pos as int)).unwrap().0 == r.unwrap().0
            &&& dec_opt_equipment(data@.skip(pos as int)).unwrap().1 == data@.skip(
                r.unwrap().1 as int,
            )
        },
        r is None ==> dec_opt_equipment(data@.skip(pos as int)) is None,
{
    let (present, p0) = match read_bool(data, pos) {
        Some(v) => v,
        None => {
            return None;
        },
    };
    if !present {
        return Some((None, p0));
    }
    let (st, q1) = match read_u64(data, p0) {
        Some(v) => v,
        None => {
            return None;
        },
    };
    let slot = match slot_from_tag(st) {
        Some(sv) => sv,
        None => {
            return None;
        },
    };
    let (equipped, q2) = match read_bool(data, q1) {
        Some(v) => v,
        None => {
            return None;
        },
    };
    let (max_hp_bonus, q3) = match read_i32(data, q2) {
        Some(v) => v,
        None => {
            return None;
        },
    };
    let (power_bonus, q4) = match read_i32(data, q3) {
        Some(v) => v,
        None => {
            return None;
        },
    };
    let (defense_bonus, q5) = match read_i32(data, q4) {
        Some(v) => v,
        None => {
            return None;
        },
    };
    Some((Some(Equipment { slot, equipped, max_hp_bonus, power_bonus, defense_bonus }), q5))
}

// --- object writer and reader ---

fn write_object(out: &mut Vec<SaveToken>, o: &Object)
    ensures
        final(out)@ == old(out)@ + enc_object(obj_model(*o)),
{
    write_i32(out, o.x);
    write_i32(out, o.y);
    write_char(out, o.glyph);
    write_color(out, o.color);
    write_str(out, &o.name);
    write_bool(out, o.blocks);
    write_bool(out, o.alive);
    write_opt_fighter(out, o.fighter);
    write_opt_ai(out, o.ai);
    write_opt_item(out, o.item);
    write_i32(out, o.level);
    write_opt_equipment(out, o.equipment);
    write_bool(out, o.always_visible);
    proof {
        let o0 = old(out)@;
        let m = obj_model(*o);
        let e1 = enc_i32(m.x);
        let e2 = enc_i32(m.y);
        let e3 = enc_char(m.glyph);
        let e4 = enc_color(m.color);
        let e5 = enc_str(m.name);
        let e6 = enc_bool(m.blocks);
        let e7 = enc_bool(m.alive);
        let e8 = enc_opt_fighter(m.fighter);
        let e9 = enc_opt_ai(m.ai);
        let e10 = enc_opt_item(m.item);
        let e11 = enc_i32(m.level);
        let e12 = enc_opt_equipment(m.equipment);
        let e13 = enc_bool(m.always_visible);
        let a2 = e1 + e2;
        let a3 = a2 + e3;
        let a4 = a3 + e4;
        let a5 = a4 + e5;
        let a6 = a5 + e6;
        let a7 = a6 + e7;
        let a8 = a7 + e8;
        let a9 = a8 + e9;
        let a10 = a9 + e10;
        let a11 = a10 + e11;
        let a12 = a11 + e12;
        let a13 = a12 + e13;
        assert((o0 + e1) + e2 =~= o0 + a2);
        assert((o0 + a2) + e3 =~= o0 + a3);
        assert((o0 + a3) + e4 =~= o0 + a4);
        assert((o0 + a4) + e5 =~= o0 + a5);
        assert((o0 + a5) + e6 =~= o0 + a6);
        assert((o0 + a6) + e7 =~= o0 + a7);
        assert((o0 + a7) + e8 =~= o0 + a8);
        assert((o0 + a8) + e9 =~= o0 + a9);
        assert((o0 + a9) + e10 =~= o0 + a10);
        assert((o0 + a10) + e11 =~= o0 + a11);
        assert((o0 + a11) + e12 =~= o0 + a12);
        assert((o0 + a12) + e13 =~= o0 + a13);
    }
}

#[verifier::rlimit(100)]
fn read_object(data: &Vec<SaveToken>, pos: usize) -> (r: Option<(Object, usize)>)
    requires
        pos <= data@.len(),
    ensures
        r is Some ==> {
            &&& pos <= r.unwrap().1 <= data@.len()
            &&& dec_object(data@.skip(pos as int)) is Some
            &&& dec_object(data@.skip(pos as int)).unwrap().0 == obj_model(r.unwrap().0)
            &&& dec_object(data@.skip(pos as int)).unwrap().1 == data@.skip(r.unwrap().1 as int)
        },
        r is None ==> dec_object(data@.skip(pos as int)) is None,
{
    let (x, p1) = match read_i32(data, pos) {
        Some(v) => v,
        None => {
            return None;
        },
    };
    let (y, p2) = match read_i32(data, p1) {
        Some(v) => v,
        None => {
            return None;
        },
    };
    let (glyph, p3) = match read_char(data, p2) {
        Some(v) => v,
        None => {
            return None;
        },
    };
    let (color, p4) = match read_color(data, p3) {
        Some(v) => v,
        None => {
            return None;
        },
    };
    let (name, p5) = match read_str(data, p4) {
        Some(v) => v,
        None => {
            return None;
        },
    };
    let (blocks, p6) = match read_bool(data, p5) {
        Some(v) => v,
        None => {
            return None;
        },
    };
    let (alive, p7) = match read_bool(data, p6) {
        Some(v) => v,
        None => {
            return None;
        },
    };
    let (fighter, p8) = match read_opt_fighter(data, p7) {
        Some(v) => v,
        None => {
            return None;
        },
    };
    let (ai, p9) = match read_opt_ai(data, p8) {
        Some(v) => v,
        None => {
            return None;
        },
    };
    let (item, p10) = match read_opt_item(data, p9) {
        Some(v) => v,
        None => {
            return None;
        },
    };
    let (level, p11) = match read_i32(data, p10) {
        Some(v) => v,
        None => {
            return None;
        },
    };
    let (equipment, p12) = match read_opt_equipment(data, p11) {
        Some(v) => v,
        None => {
            return None;
        },
    };
    let (always_visible, p13) = match read_bool(data, p12) {
        Some(v) => v,
        None => {
            return None;
        },
    };
    let o = Object {
        x,
        y,
        glyph,
        color,
        name,
        blocks,
        alive,
        fighter,
        ai,
        item,
        level,
        equipment,
        always_visible,
    };
    Some((o, p13))
}

// --- messages, stored as a fixed-shape record: tag, two text payloads, a
// number, and a slot, with canonical defaults for the unused fields ---

/// The observable content of one log entry.
pub struct MsgModel {
    pub tag: u64,
    pub s1: Seq<char>,
    pub s2: Seq<char>,
    pub n: i32,
    pub slot: Slot,
}

/// The observable content of a log entry.
pub open spec fn msg_model(m: Message) -> MsgModel {
    let empty = Seq::<char>::empty();
    match m {
        Message::Welcome => MsgModel { tag: 0, s1: empty, s2: empty, n: 0, slot: Slot::RightHand },
        Message::Attack { attacker, target, damage } => MsgModel {
            tag: 1,
            s1: attacker@,
            s2: target@,
            n: damage,
            slot: Slot::RightHand,
        },
        Message::Miss { attacker, target } => MsgModel {
            tag: 2,
            s1: attacker@,
            s2: target@,
            n: 0,
            slot: Slot::RightHand,
        },
        Message::NoEffect { attacker, target } => MsgModel {
            tag: 3,
            s1: attacker@,
            s2: target@,
            n: 0,
            slot: Slot::RightHand,
        },
        Message::CannotEquipNotItem { name } => MsgModel {
            tag: 4,
            s1: name@,
            s2: empty,
            n: 0,
            slot: Slot::RightHand,
        },
        Message::Equipped { name, slot } => MsgModel {
            tag: 5,
            s1: name@,
            s2: empty,
            n: 0,
            slot,
        },
        Message::CannotEquipNotEquipment { name } => MsgModel {
            tag: 6,
            s1: name@,
            s2: empty,
            n: 0,
            slot: Slot::RightHand,
        },
        Message::CannotDequipNotItem { name } => MsgModel {
            tag: 7,
            s1: name@,
            s2: empty,
            n: 0,
            slot: Slot::RightHand,
        },
        Message::Dequipped { name, slot } => MsgModel {
            tag: 8,
            s1: name@,
            s2: empty,
            n: 0,
            slot,
        },
        Message::CannotDequipNotEquipment { name } => MsgModel {
            tag: 9,
            s1: name@,
            s2: empty,
            n: 0,
            slot: Slot::RightHand,
        },
        Message::AlreadyFullHealth => MsgModel {
            tag: 10,
            s1: empty,
            s2: empty,
            n: 0,
            slot: Slot::RightHand,
        },
        Message::WoundsHeal => MsgModel {
            tag: 11,
            s1: empty,
            s2: empty,
            n: 0,
            slot: Slot::RightHand,
        },
        Message::AttackTooHigh => MsgModel {
            tag: 12,
            s1: empty,
            s2: empty,
            n: 0,
            slot: Slot::RightHand,
        },
        Message::AttackBuffed { amount } => MsgModel {
            tag: 13,
            s1: empty,
            s2: empty,
            n: amount,
            slot: Slot::RightHand,
        },
        Message::Lightning { target, damage } => MsgModel {
            tag: 14,
            s1: target@,
            s2: empty,
            n: damage,
            slot: Slot::RightHand,
        },
        Message::NoEnemyInRange => MsgModel {
            tag: 15,
            s1: empty,
            s2: empty,
            n: 0,
            slot: Slot::RightHand,
        },
        Message::CancelledUse => MsgModel {
            tag: 16,
            s1: empty,
            s2: empty,
            n: 0,
            slot: Slot::RightHand,
        },
        Message::CannotUse { name } => MsgModel {
            tag: 17,
            s1: name@,
            s2: empty,
            n: 0,
            slot: Slot::RightHand,
        },
        Message::ReachedLevel { level } => MsgModel {
            tag: 18,
            s1: empty,
            s2: empty,
            n: level,
            slot: Slot::RightHand,
        },
        Message::InventoryFull { name } => MsgModel {
            tag: 19,
            s1: name@,
            s2: empty,
            n: 0,
            slot: Slot::RightHand,
        },
        Message::PickedUp { name } => MsgModel {
            tag: 20,
            s1: name@,
            s2: empty,
            n: 0,
            slot: Slot::RightHand,
        },
        Message::Dropped { name } => MsgModel {
            tag: 21,
            s1: name@,
            s2: empty,
            n: 0,
            slot: Slot::RightHand,
        },
        Message::PlayerDied => MsgModel {
            tag: 22,
            s1: empty,
            s2: empty,
            n: 0,
            slot: Slot::RightHand,
        },
        Message::MonsterDied { name, xp } => MsgModel {
            tag: 23,
            s1: name@,
            s2: empty,
            n: xp,
            slot: Slot::RightHand,
        },
        Message::Rest => MsgModel { tag: 24, s1: empty, s2: empty, n: 0, slot: Slot::RightHand },
        Message::Descend => MsgModel {
            tag: 25,
            s1: empty,
            s2: empty,
            n: 0,
            slot: Slot::RightHand,
        },
    }
}

/// Whether a stored record is the image of some log entry: a known tag
/// with canonical defaults in every field its entry does not use.
pub open spec fn msg_model_valid(q: MsgModel) -> bool {
    let no_s1 = q.s1.len() == 0;
    let no_s2 = q.s2.len() == 0;
    let no_n = q.n == 0;
    let no_slot = q.slot == Slot::RightHand;
    ||| ((q.tag == 0 || q.tag == 10 || q.tag == 11 || q.tag == 12 || q.tag == 15 || q.tag == 16
        || q.tag == 22 || q.tag == 24 || q.tag == 25) && no_s1 && no_s2 && no_n && no_slot)
    ||| ((q.tag == 4 || q.tag == 6 || q.tag == 7 || q.tag == 9 || q.tag == 17 || q.tag == 19
        || q.tag == 20 || q.tag == 21) && no_s2 && no_n && no_slot)
    ||| ((q.tag == 5 || q.tag == 8) && no_s2 && no_n)
    ||| ((q.tag == 2 || q.tag == 3) && no_n && no_slot)
    ||| (q.tag == 1 && no_slot)
    ||| ((q.tag == 14 || q.tag == 23) && no_s2 && no_slot)
    ||| ((q.tag == 13 || q.tag == 18) && no_s1 && no_s2 && no_slot)
}

/// Every log entry's image is a valid stored record.
pub proof fn lemma_msg_model_valid(m: Message)
    ensures
        msg_model_valid(msg_model(m)),
{
}

pub open spec fn enc_msg(q: MsgModel) -> Seq<SaveToken> {
    enc_u64(q.tag) + enc_str(q.s1) + enc_str(q.s2) + enc_i32(q.n) + enc_slot(q.slot)
}

pub open spec fn dec_msg(s: Seq<SaveToken>) -> Option<(MsgModel, Seq<SaveToken>)> {
    match dec_u64(s) {
        Some((tag, s1s)) => match dec_str(s1s) {
            Some((s1, s2s)) => match dec_str(s2s) {
                Some((s2, s3s)) => match dec_i32(s3s) {
                    Some((n, s4s)) => match dec_slot(s4s) {
                        Some((slot, s5s)) => {
                            let q = MsgModel { tag, s1, s2, n, slot };
                            if msg_model_valid(q) {
                                Some((q, s5s))
                            } else {
                                None
                            }
                        },
                        None => None,
                    },
                    None => None,
                },
                None => None,
            },
            None => None,
        },
        None => None,
    }
}

pub proof fn lemma_dec_msg(q: MsgModel, rest: Seq<SaveToken>)
    requires
        msg_model_valid(q),
        q.s1.len() <= u64::MAX,
        q.s2.len() <= u64::MAX,
    ensures
        dec_msg(enc_msg(q) + rest) == Some((q, rest)),
{
    let e1 = enc_u64(q.tag);
    let e2 = enc_str(q.s1);
    let e3 = enc_str(q.s2);
    let e4 = enc_i32(q.n);
    let e5 = enc_slot(q.slot);
    let s4 = e5 + rest;
    let s3 = e4 + s4;
    let s2 = e3 + s3;
    let s1 = e2 + s2;
    vstd::seq_lib::lemma_concat_associative(((e1 + e2) + e3) + e4, e5, rest);
    vstd::seq_lib::lemma_concat_associative((e1 + e2) + e3, e4, s4);
    vstd::seq_lib::lemma_concat_associative(e1 + e2, e3, s3);
    vstd::seq_lib::lemma_concat_associative(e1, e2, s2);
    lemma_dec_u64(q.tag, s1);
    lemma_dec_str(q.s1, s2);
    lemma_dec_str(q.s2, s3);
    lemma_dec_i32(q.n, s4);
    lemma_dec_slot(q.slot, rest);
}

fn msg_tag_of(m: &Message) -> (t: u64)
    ensures
        t == msg_model(*m).tag,
{
    match m {
        Message::Welcome => 0,
        Message::Attack { .. } => 1,
        Message::Miss { .. } => 2,
        Message::NoEffect { .. } => 3,
        Message::CannotEquipNotItem { .. } => 4,
        Message::Equipped { .. } => 5,
        Message::CannotEquipNotEquipment { .. } => 6,
        Message::CannotDequipNotItem { .. } => 7,
        Message::Dequipped { .. } => 8,
        Message::CannotDequipNotEquipment { .. } => 9,
        Message::AlreadyFullHealth => 10,
        Message::WoundsHeal => 11,
        Message::AttackTooHigh => 12,
        Message::AttackBuffed { .. } => 13,
        Message::Lightning { .. } => 14,
        Message::NoEnemyInRange => 15,
        Message::CancelledUse => 16,
        Message::CannotUse { .. } => 17,
        Message::ReachedLevel { .. } => 18,
        Message::InventoryFull { .. } => 19,
        Message::PickedUp { .. } => 20,
        Message::Dropped { .. } => 21,
        Message::PlayerDied => 22,
        Message::MonsterDied { .. } => 23,
        Message::Rest => 24,
        Message::Descend => 25,
    }
}

fn msg_s1_of<'a>(m: &'a Message) -> (r: Option<&'a String>)
    ensures
        match r {
            Some(s) => s@ == msg_model(*m).s1,
            None => msg_model(*m).s1 == Seq::<char>::empty(),
        },
{
    match m {
        Message::Attack { attacker, .. } => Some(attacker),
        Message::Miss { attacker, .. } => Some(attacker),
        Message::NoEffect { attacker, .. } => Some(attacker),
        Message::CannotEquipNotItem { name } => Some(name),
        Message::Equipped { name, .. } => Some(name),
        Message::CannotEquipNotEquipment { name } => Some(name),
        Message::CannotDequipNotItem { name } => Some(name),
        Message::Dequipped { name, .. } => Some(name),
        Message::CannotDequipNotEquipment { name } => Some(name),
        Message::Lightning { target, .. } => Some(target),
        Message::CannotUse { name } => Some(name),
        Message::InventoryFull { name } => Some(name),
        Message::PickedUp { name } => Some(name),
        Message::Dropped { name } => Some(name),
        Message::MonsterDied { name, .. } => Some(name),
        _ => None,
    }
}

fn msg_s2_of<'a>(m: &'a Message) -> (r: Option<&'a String>)
    ensures
        match r {
            Some(s) => s@ == msg_model(*m).s2,
            None => msg_model(*m).s2 == Seq::<char>::empty(),
        },
{
    match m {
        Message::Attack { target, .. } => Some(target),
        Message::Miss { target, .. } => Some(target),
        Message::NoEffect { target, .. } => Some(target),
        _ => None,
    }
}

fn msg_n_of(m: &Message) -> (n: i32)
    ensures
        n == msg_model(*m).n,
{
    match m {
        Message::Attack { damage, .. } => *damage,
        Message::AttackBuffed { amount } => *amount,
        Message::Lightning { damage, .. } => *damage,
        Message::ReachedLevel { level } => *level,
        Message::MonsterDied { xp, .. } => *xp,
        _ => 0,
    }
}

fn msg_slot_of(m: &Message) -> (s: Slot)
    ensures
        s == msg_model(*m).slot,
{
    match m {
        Message::Equipped { slot, .. } => *slot,
        Message::Dequipped { slot, .. } => *slot,
        _ => Slot::RightHand,
    }
}

fn write_message(out: &mut Vec<SaveToken>, m: &Message)
    ensures
        final(out)@ == old(out)@ + enc_msg(msg_model(*m)),
{
    let ghost q = msg_model(*m);
    write_u64(out, msg_tag_of(m));
    match msg_s1_of(m) {
        Some(s) => write_str(out, s),
        None => {
            write_u64(out, 0);
            proof {
                assert(enc_str(q.s1) =~= enc_u64(0));
            }
        },
    }
    match msg_s2_of(m) {
        Some(s) => write_str(out, s),
        None => {
            write_u64(out, 0);
            proof {
                assert(enc_str(q.s2) =~= enc_u64(0));
            }
        },
    }
    write_i32(out, msg_n_of(m));
    let t = slot_to_tag(msg_slot_of(m));
    write_u64(out, t);
    proof {
        let o0 = old(out)@;
        let e1 = enc_u64(q.tag);
        let e2 = enc_str(q.s1);
        let e3 = enc_str(q.s2);
        let e4 = enc_i32(q.n);
        let e5 = enc_slot(q.slot);
        assert((o0 + e1) + e2 =~= o0 + (e1 + e2));
        assert((o0 + (e1 + e2)) + e3 =~= o0 + ((e1 + e2) + e3));
        assert((o0 + ((e1 + e2) + e3)) + e4 =~= o0 + (((e1 + e2) + e3) + e4));
        assert((o0 + (((e1 + e2) + e3) + e4)) + e5 =~= o0 + ((((e1 + e2) + e3) + e4) + e5));
    }
}

#[verifier::rlimit(100)]
fn read_message(data: &Vec<SaveToken>, pos: usize) -> (r: Option<(Message, usize)>)
    requires
        pos <= data@.len(),
    ensures
        r is Some ==> {
            &&& pos <= r.unwrap().1 <= data@.len()
            &&& dec_msg(data@.skip(pos as int)) is Some
            &&& dec_msg(data@.skip(pos as int)).unwrap().0 == msg_model(r.unwrap().0)
            &&& dec_msg(data@.skip(pos as int)).unwrap().1 == data@.skip(r.unwrap().1 as int)
        },
        r is None ==> dec_msg(data@.skip(pos as int)) is None,
{
    let (tag, p1) = match read_u64(data, pos) {
        Some(v) => v,
        None => {
            return None;
        },
    };
    let (s1, p2) = match read_str(data, p1) {
        Some(v) => v,
        None => {
            return None;
        },
    };
    let (s2, p3) = match read_str(data, p2) {
        Some(v) => v,
        None => {
            return None;
        },
    };
    let (n, p4) = match read_i32(data, p3) {
        Some(v) => v,
        None => {
            return None;
        },
    };
    let (st, p5) = match read_u64(data, p4) {
        Some(v) => v,
        None => {
            return None;
        },
    };
    let slot = match slot_from_tag(st) {
        Some(v) => v,
        None => {
            return None;
        },
    };
    let no_s1 = s1.as_str().is_empty();
    let no_s2 = s2.as_str().is_empty();
    let no_n = n == 0;
    let no_slot = slot == Slot::RightHand;
    let m: Message = if tag == 0 && no_s1 && no_s2 && no_n && no_slot {
        Message::Welcome
    } else if tag == 1 && no_slot {
        Message::Attack { attacker: s1, target: s2, damage: n }
    } else if tag == 2 && no_n && no_slot {
        Message::Miss { attacker: s1, target: s2 }
    } else if tag == 3 && no_n && no_slot {
        Message::NoEffect { attacker: s1, target: s2 }
    } else if tag == 4 && no_s2 && no_n && no_slot {
        Message::CannotEquipNotItem { name: s1 }
    } else if tag == 5 && no_s2 && no_n {
        Message::Equipped { name: s1, slot }
    } else if tag == 6 && no_s2 && no_n && no_slot {
        Message::CannotEquipNotEquipment { name: s1 }
    } else if tag == 7 && no_s2 && no_n && no_slot {
        Message::CannotDequipNotItem { name: s1 }
    } else if tag == 8 && no_s2 && no_n {
        Message::Dequipped { name: s1, slot }
    } else if tag == 9 && no_s2 && no_n && no_slot {
        Message::CannotDequipNotEquipment { name: s1 }
    } else if tag == 10 && no_s1 && no_s2 && no_n && no_slot {
        Message::AlreadyFullHealth
    } else if tag == 11 && no_s1 && no_s2 && no_n && no_slot {
        Message::WoundsHeal
    } else if tag == 12 && no_s1 && no_s2 && no_n && no_slot {
        Message::AttackTooHigh
    } else if tag == 13 && no_s1 && no_s2 && no_slot {
        Message::AttackBuffed { amount: n }
    } else if tag == 14 && no_s2 && no_slot {
        Message::Lightning { target: s1, damage: n }
    } else if tag == 15 && no_s1 && no_s2 && no_n && no_slot {
        Message::NoEnemyInRange
    } else if tag == 16 && no_s1 && no_s2 && no_n && no_slot {
        Message::CancelledUse
    } else if tag == 17 && no_s2 && no_n && no_slot {
        Message::CannotUse { name: s1 }
    } else if tag == 18 && no_s1 && no_s2 && no_slot {
        Message::ReachedLevel { level: n }
    } else if tag == 19 && no_s2 && no_n && no_slot {
        Message::InventoryFull { name: s1 }
    } else if tag == 20 && no_s2 && no_n && no_slot {
        Message::PickedUp { name: s1 }
    } else if tag == 21 && no_s2 && no_n && no_slot {
        Message::Dropped { name: s1 }
    } else if tag == 22 && no_s1 && no_s2 && no_n && no_slot {
        Message::PlayerDied
    } else if tag == 23 && no_s2 && no_slot {
        Message::MonsterDied { name: s1, xp: n }
    } else if tag == 24 && no_s1 && no_s2 && no_n && no_slot {
        Message::Rest
    } else if tag == 25 && no_s1 && no_s2 && no_n && no_slot {
        Message::Descend
    } else {
        return None;
    };
    Some((m, p5))
}

// --- the log ---

pub open spec fn msgs_model(log: Seq<Message>) -> Seq<MsgModel> {
    Seq::new(log.len(), |i: int| msg_model(log[i]))
}

pub open spec fn enc_msg_list(qs: Seq<MsgModel>) -> Seq<SaveToken>
    decreases qs.len(),
{
    if qs.len() == 0 {
        Seq::empty()
    } else {
        enc_msg(qs[0]) + enc_msg_list(qs.drop_first())
    }
}

pub open spec fn enc_msgs(qs: Seq<MsgModel>) -> Seq<SaveToken> {
    enc_u64(qs.len() as u64) + enc_msg_list(qs)
}

pub open spec fn dec_msg_list(s: Seq<SaveToken>, n: nat) -> Option<(Seq<MsgModel>, Seq<SaveToken>)>
    decreases n,
{
    if n == 0 {
        Some((Seq::empty(), s))
    } else {
        match dec_msg(s) {
            Some((q, s1)) => match dec_msg_list(s1, (n - 1) as nat) {
                Some((qs, s2)) => Some((seq![q] + qs, s2)),
                None => None,
            },
            None => None,
        }
    }
}

pub open spec fn dec_msgs(s: Seq<SaveToken>) -> Option<(Seq<MsgModel>, Seq<SaveToken>)> {
    match dec_u64(s) {
        Some((n, s1)) => dec_msg_list(s1, n as nat),
        None => None,
    }
}

/// Whether every stored log record is a valid image with text that fits
/// the length fields.
pub open spec fn msg_models_fit(qs: Seq<MsgModel>) -> bool {
    forall|i: int|
        0 <= i < qs.len() ==> {
            &&& msg_model_valid(#[trigger] qs[i])
            &&& qs[i].s1.len() <= u64::MAX
            &&& qs[i].s2.len() <= u64::MAX
        }
}

pub proof fn lemma_dec_msg_list(qs: Seq<MsgModel>, rest: Seq<SaveToken>)
    requires
        msg_models_fit(qs),
    ensures
        dec_msg_list(enc_msg_list(qs) + rest, qs.len()) == Some((qs, rest)),
    decreases qs.len(),
{
    if qs.len() == 0 {
        assert(enc_msg_list(qs) + rest =~= rest);
        assert(qs =~= Seq::<MsgModel>::empty());
    } else {
        let tail = qs.drop_first();
        let s1 = enc_msg_list(tail) + rest;
        vstd::seq_lib::lemma_concat_associative(enc_msg(qs[0]), enc_msg_list(tail), rest);
        lemma_dec_msg(qs[0], s1);
        assert(forall|i: int| 0 <= i < tail.len() ==> #[trigger] tail[i] == qs[i + 1]);
        lemma_dec_msg_list(tail, rest);
        assert(seq![qs[0]] + tail =~= qs);
    }
}

pub proof fn lemma_dec_msgs(qs: Seq<MsgModel>, rest: Seq<SaveToken>)
    requires
        msg_models_fit(qs),
        qs.len() <= u64::MAX,
    ensures
        dec_msgs(enc_msgs(qs) + rest) == Some((qs, rest)),
{
    let s1 = enc_msg_list(qs) + rest;
    vstd::seq_lib::lemma_concat_associative(enc_u64(qs.len() as u64), enc_msg_list(qs), rest);
    lemma_dec_u64(qs.len() as u64, s1);
    lemma_dec_msg_list(qs, rest);
}

pub proof fn lemma_enc_msg_list_push(qs: Seq<MsgModel>, q: MsgModel)
    ensures
        enc_msg_list(qs.push(q)) == enc_msg_list(qs) + enc_msg(q),
    decreases qs.len(),
{
    if qs.len() == 0 {
        assert(qs.push(q)[0] == q);
        assert(qs.push(q).drop_first() =~= Seq::<MsgModel>::empty());
        assert(enc_msg_list(Seq::<MsgModel>::empty()) == Seq::<SaveToken>::empty());
        assert(enc_msg_list(qs.push(q)) =~= enc_msg(q));
        assert(enc_msg_list(qs) + enc_msg(q) =~= enc_msg(q));
    } else {
        assert(qs.push(q)[0] == qs[0]);
        assert(qs.push(q).drop_first() =~= qs.drop_first().push(q));
        lemma_enc_msg_list_push(qs.drop_first(), q);
        assert(enc_msg_list(qs.push(q)) =~= enc_msg(qs[0]) + (enc_msg_list(qs.drop_first())
            + enc_msg(q)));
        assert(enc_msg_list(qs) + enc_msg(q) =~= enc_msg(qs[0]) + (enc_msg_list(qs.drop_first())
            + enc_msg(q)));
    }
}

fn write_msgs(out: &mut Vec<SaveToken>, log: &Vec<Message>)
    ensures
        final(out)@ == old(out)@ + enc_msgs(msgs_model(log@)),
{
    write_u64(out, log.len() as u64);
    let ghost base = out@;
    let ghost qs = msgs_model(log@);
    let mut k: usize = 0;
    while k < log.len()
        invariant
            k <= log@.len(),
            qs == msgs_model(log@),
            qs.len() == log@.len(),
            out@ == base + enc_msg_list(qs.take(k as int)),
        decreases log@.len() - k,
    {
        proof {
            lemma_enc_msg_list_push(qs.take(k as int), qs[k as int]);
            assert(qs.take(k + 1int) =~= qs.take(k as int).push(qs[k as int]));
        }
        write_message(out, &log[k]);
        proof {
            assert(out@ =~= base + enc_msg_list(qs.take(k + 1int)));
        }
        k = k + 1;
    }
    proof {
        assert(qs.take(qs.len() as int) =~= qs);
        assert(enc_msg_list(Seq::<MsgModel>::empty()) == Seq::<SaveToken>::empty());
        assert(out@ =~= old(out)@ + enc_msgs(qs));
    }
}

fn read_msg_list(data: &Vec<SaveToken>, pos: usize, n: u64) -> (r: Option<(Vec<Message>, usize)>)
    requires
        pos <= data@.len(),
    ensures
        r is Some ==> {
            &&& pos <= r.unwrap().1 <= data@.len()
            &&& dec_msg_list(data@.skip(pos as int), n as nat) is Some
            &&& dec_msg_list(data@.skip(pos as int), n as nat).unwrap().0 == msgs_model(
                r.unwrap().0@,
            )
            &&& dec_msg_list(data@.skip(pos as int), n as nat).unwrap().1 == data@.skip(
                r.unwrap().1 as int,
            )
        },
        r is None ==> dec_msg_list(data@.skip(pos as int), n as nat) is None,
    decreases n,
{
    if n == 0 {
        let empty: Vec<Message> = Vec::new();
        proof {
            assert(msgs_model(empty@) =~= Seq::<MsgModel>::empty());
        }
        Some((empty, pos))
    } else {
        match read_message(data, pos) {
            Some((m, p1)) => {
                match read_msg_list(data, p1, n - 1) {
                    Some((tail, p2)) => {
                        let ghost tail0 = tail@;
                        let mut whole = tail;
                        whole.insert(0, m);
                        proof {
                            assert(msgs_model(whole@) =~= seq![msg_model(m)] + msgs_model(tail0));
                        }
                        Some((whole, p2))
                    },
                    None => None,
                }
            },
            None => None,
        }
    }
}

fn read_msgs(data: &Vec<SaveToken>, pos: usize) -> (r: Option<(Vec<Message>, usize)>)
    requires
        pos <= data@.len(),
    ensures
        r is Some ==> {
            &&& pos <= r.unwrap().1 <= data@.len()
            &&& dec_msgs(data@.skip(pos as int)) is Some
            &&& dec_msgs(data@.skip(pos as int)).unwrap().0 == msgs_model(r.unwrap().0@)
            &&& dec_msgs(data@.skip(pos as int)).unwrap().1 == data@.skip(r.unwrap().1 as int)
        },
        r is None ==> dec_msgs(data@.skip(pos as int)) is None,
{
    match read_u64(data, pos) {
        Some((n, p1)) => read_msg_list(data, p1, n),
        None => None,
    }
}

// --- the whole world state ---

/// The observable content of the world state.
pub struct GameModel {
    pub map: Seq<Seq<Tile>>,
    pub log: Seq<MsgModel>,
    pub inventory: Seq<ObjectModel>,
    pub dungeon_level: u32,
}

/// The observable content of a world value.
pub open spec fn game_model(g: Game) -> GameModel {
    GameModel {
        map: grid_model(g.map@),
        log: msgs_model(g.log@),
        inventory: objs_model(g.inventory@),
        dungeon_level: g.dungeon_level,
    }
}

pub open spec fn enc_game(gm: GameModel) -> Seq<SaveToken> {
    enc_grid(gm.map) + enc_msgs(gm.log) + enc_objects(gm.inventory) + enc_u64(
        gm.dungeon_level as u64,
    )
}

pub open spec fn dec_game(s: Seq<SaveToken>) -> Option<(GameModel, Seq<SaveToken>)> {
    match dec_grid(s) {
        Some((map, s1)) => match dec_msgs(s1) {
            Some((log, s2)) => match dec_objects(s2) {
                Some((inventory, s3)) => match dec_u64(s3) {
                    Some((dl, s4)) => if dl <= u32::MAX {
                        Some((GameModel { map, log, inventory, dungeon_level: dl as u32 }, s4))
                    } else {
                        None
                    },
                    None => None,
                },
                None => None,
            },
            None => None,
        },
        None => None,
    }
}

/// The encoded world: a format marker, the entity store, then the world
/// state, one atomic unit.
pub open spec fn enc_world(objs: Seq<ObjectModel>, gm: GameModel) -> Seq<SaveToken> {
    enc_u64(SAVE_TAG) + enc_objects(objs) + enc_game(gm)
}

pub open spec fn dec_world(s: Seq<SaveToken>) -> Option<
    ((Seq<ObjectModel>, GameModel), Seq<SaveToken>),
> {
    match dec_u64(s) {
        Some((tag, s1)) => if tag == SAVE_TAG {
            match dec_objects(s1) {
                Some((objs, s2)) => match dec_game(s2) {
                    Some((gm, s3)) => Some(((objs, gm), s3)),
                    None => None,
                },
                None => None,
            }
        } else {
            None
        },
        None => None,
    }
}

/// Whether a world's observable content fits the stream's length fields.
pub open spec fn world_fits(objs: Seq<ObjectModel>, gm: GameModel) -> bool {
    &&& objs.len() <= u64::MAX
    &&& obj_models_fit(objs)
    &&& gm.map.len() <= u64::MAX
    &&& (forall|i: int| 0 <= i < gm.map.len() ==> (#[trigger] gm.map[i]).len() <= u64::MAX)
    &&& gm.log.len() <= u64::MAX
    &&& msg_models_fit(gm.log)
    &&& gm.inventory.len() <= u64::MAX
    &&& obj_models_fit(gm.inventory)
}

pub proof fn lemma_dec_game(gm: GameModel, rest: Seq<SaveToken>)
    requires
        gm.map.len() <= u64::MAX,
        forall|i: int| 0 <= i < gm.map.len() ==> (#[trigger] gm.map[i]).len() <= u64::MAX,
        gm.log.len() <= u64::MAX,
        msg_models_fit(gm.log),
        gm.inventory.len() <= u64::MAX,
        obj_models_fit(gm.inventory),
    ensures
        dec_game(enc_game(gm) + rest) == Some((gm, rest)),
{
    let e1 = enc_grid(gm.map);
    let e2 = enc_msgs(gm.log);
    let e3 = enc_objects(gm.inventory);
    let e4 = enc_u64(gm.dungeon_level as u64);
    let s3 = e4 + rest;
    let s2 = e3 + s3;
    let s1 = e2 + s2;
    vstd::seq_lib::lemma_concat_associative((e1 + e2) + e3, e4, rest);
    vstd::seq_lib::lemma_concat_associative(e1 + e2, e3, s3);
    vstd::seq_lib::lemma_concat_associative(e1, e2, s2);
    lemma_dec_grid(gm.map, s1);
    lemma_dec_msgs(gm.log, s2);
    lemma_dec_objects(gm.inventory, s3);
    lemma_dec_u64(gm.dungeon_level as u64, rest);
}

/// Round trip: decoding an encoded world yields exactly the world's
/// observable content — every field of every entity, tile, log entry and
/// counter, with text compared character by character — and consumes the
/// whole stream.
pub proof fn lemma_world_round_trip(objs: Seq<ObjectModel>, gm: GameModel)
    requires
        world_fits(objs, gm),
    ensures
        dec_world(enc_world(objs, gm)) == Some(((objs, gm), Seq::<SaveToken>::empty())),
{
    let empty = Seq::<SaveToken>::empty();
    let e1 = enc_u64(SAVE_TAG);
    let e2 = enc_objects(objs);
    let e3 = enc_game(gm);
    let s2 = e3 + empty;
    let s1 = e2 + s2;
    assert(enc_world(objs, gm) =~= (e1 + e2) + s2);
    vstd::seq_lib::lemma_concat_associative(e1, e2, s2);
    lemma_dec_u64(SAVE_TAG, s1);
    lemma_dec_objects(objs, s2);
    assert(s2 =~= e3);
    assert(e3 =~= e3 + empty);
    lemma_dec_game(gm, empty);
}

fn write_game(out: &mut Vec<SaveToken>, game: &Game)
    ensures
        final(out)@ == old(out)@ + enc_game(game_model(*game)),
{
    write_grid(out, &game.map);
    write_msgs(out, &game.log);
    write_objects(out, &game.inventory);
    write_u64(out, game.dungeon_level as u64);
    proof {
        let o0 = old(out)@;
        let gm = game_model(*game);
        let e1 = enc_grid(gm.map);
        let e2 = enc_msgs(gm.log);
        let e3 = enc_objects(gm.inventory);
        let e4 = enc_u64(gm.dungeon_level as u64);
        assert((o0 + e1) + e2 =~= o0 + (e1 + e2));
        assert((o0 + (e1 + e2)) + e3 =~= o0 + ((e1 + e2) + e3));
        assert((o0 + ((e1 + e2) + e3)) + e4 =~= o0 + (((e1 + e2) + e3) + e4));
    }
}

fn read_game(data: &Vec<SaveToken>, pos: usize) -> (r: Option<(Game, usize)>)
    requires
        pos <= data@.len(),
    ensures
        r is Some ==> {
            &&& pos <= r.unwrap().1 <= data@.len()
            &&& dec_game(data@.skip(pos as int)) is Some
            &&& dec_game(data@.skip(pos as int)).unwrap().0 == game_model(r.unwrap().0)
            &&& dec_game(data@.skip(pos as int)).unwrap().1 == data@.skip(r.unwrap().1 as int)
        },
        r is None ==> dec_game(data@.skip(pos as int)) is None,
{
    let (map, p1) = match read_grid(data, pos) {
        Some(v) => v,
        None => {
            return None;
        },
    };
    let (log, p2) = match read_msgs(data, p1) {
        Some(v) => v,
        None => {
            return None;
        },
    };
    let (inventory, p3) = match read_objects(data, p2) {
        Some(v) => v,
        None => {
            return None;
        },
    };
    let (dl, p4) = match read_u64(data, p3) {
        Some(v) => v,
        None => {
            return None;
        },
    };
    if dl > u32::MAX as u64 {
        return None;
    }
    let game = Game { map, log, inventory, dungeon_level: dl as u32 };
    Some((game, p4))
}

/// Whether a concrete world's text and collections fit the stream's
/// length fields; machine widths only, no narrowing of content.
pub open spec fn world_lens_ok(objs: Seq<Object>, g: Game) -> bool {
    &&& objs.len() <= u64::MAX
    &&& (forall|i: int| 0 <= i < objs.len() ==> (#[trigger] objs[i]).name@.len() <= u64::MAX)
    &&& g.map@.len() <= u64::MAX
    &&& (forall|i: int| 0 <= i < g.map@.len() ==> (#[trigger] g.map@[i])@.len() <= u64::MAX)
    &&& g.log@.len() <= u64::MAX
    &&& (forall|i: int|
        0 <= i < g.log@.len() ==> msg_model(#[trigger] g.log@[i]).s1.len() <= u64::MAX
            && msg_model(g.log@[i]).s2.len() <= u64::MAX)
    &&& g.inventory@.len() <= u64::MAX
    &&& (forall|i: int|
        0 <= i < g.inventory@.len() ==> (#[trigger] g.inventory@[i]).name@.len() <= u64::MAX)
}

/// Round trip for a concrete world: what `save_state` writes, `dec_world`
/// — and so `load_state` — reads back as exactly the same observable
/// content, consuming the whole stream.
pub proof fn lemma_save_load_world(objs: Seq<Object>, g: Game)
    requires
        world_lens_ok(objs, g),
    ensures
        dec_world(enc_world(objs_model(objs), game_model(g))) == Some(
            ((objs_model(objs), game_model(g)), Seq::<SaveToken>::empty()),
        ),
{
    let ms = objs_model(objs);
    let gm = game_model(g);
    assert(obj_models_fit(ms)) by {
        assert(forall|i: int| 0 <= i < ms.len() ==> (#[trigger] ms[i]).name =~= objs[i].name@);
    }
    assert(obj_models_fit(gm.inventory)) by {
        assert(forall|i: int|
            0 <= i < gm.inventory.len() ==> (#[trigger] gm.inventory[i]).name =~= g.inventory@[i].name@);
    }
    assert(msg_models_fit(gm.log)) by {
        assert forall|i: int| 0 <= i < gm.log.len() implies {
            &&& msg_model_valid(#[trigger] gm.log[i])
            &&& gm.log[i].s1.len() <= u64::MAX
            &&& gm.log[i].s2.len() <= u64::MAX
        } by {
            assert(gm.log[i] == msg_model(g.log@[i]));
            lemma_msg_model_valid(g.log@[i]);
        }
    }
    assert(forall|i: int| 0 <= i < gm.map.len() ==> (#[trigger] gm.map[i]).len() <= u64::MAX) by {
        assert(forall|i: int| 0 <= i < gm.map.len() ==> (#[trigger] gm.map[i]) =~= g.map@[i]@);
    }
    lemma_world_round_trip(ms, gm);
}

/// Serializes the entity store and world state as one atomic unit.
pub fn save_state(objects: &Vec<Object>, game: &Game) -> (out: Vec<SaveToken>)
    ensures
        out@ == enc_world(objs_model(objects@), game_model(*game)),
{
    let mut out: Vec<SaveToken> = Vec::new();
    write_u64(&mut out, SAVE_TAG);
    write_objects(&mut out, objects);
    write_game(&mut out, game);
    proof {
        let e1 = enc_u64(SAVE_TAG);
        let e2 = enc_objects(objs_model(objects@));
        let e3 = enc_game(game_model(*game));
        assert(Seq::<SaveToken>::empty() + e1 =~= e1);
        assert((e1 + e2) + e3 =~= enc_world(objs_model(objects@), game_model(*game)));
    }
    out
}

/// Restores the entity store and world state from a token stream, as one
/// atomic unit: a stream that is malformed anywhere, of another shape, or
/// that has anything left over yields nothing at all.
pub fn load_state(data: &Vec<SaveToken>) -> (r: Option<(Vec<Object>, Game)>)
    ensures
        r is Some ==> {
            &&& dec_world(data@) is Some
            &&& dec_world(data@).unwrap().0.0 == objs_model(r.unwrap().0@)
            &&& dec_world(data@).unwrap().0.1 == game_model(r.unwrap().1)
            &&& dec_world(data@).unwrap().1 == Seq::<SaveToken>::empty()
        },
        r is None ==> dec_world(data@) is None || dec_world(data@).unwrap().1
            != Seq::<SaveToken>::empty(),
{
    proof {
        assert(data@.skip(0) =~= data@);
    }
    let (tag, p1) = match read_u64(data, 0) {
        Some(v) => v,
        None => {
            return None;
        },
    };
    if tag != SAVE_TAG {
        return None;
    }
    let (objects, p2) = match read_objects(data, p1) {
        Some(v) => v,
        None => {
            return None;
        },
    };
    let (game, p3) = match read_game(data, p2) {
        Some(v) => v,
        None => {
            return None;
        },
    };
    if p3 != data.len() {
        proof {
            assert(data@.skip(p3 as int).len() > 0);
        }
        return None;
    }
    proof {
        assert(data@.skip(p3 as int) =~= Seq::<SaveToken>::empty());
    }
    Some((objects, game))
}

} // verus!
