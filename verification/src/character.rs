//! One observed combatant, decoded from a single twelve-field record.

use crate::fields::{fields_of, split_fields, views_of};
use crate::grid::{grid_of, grid_position};
use crate::hex::{hex_to_bounded, hex_val, parse_hex_i32};
use vstd::prelude::*;

verus! {

/// Mathematical image of one combatant.
#[verifier::ext_equal]
pub struct CharacterView {
    pub pos_in_grid: int,
    pub name: Seq<char>,
    pub lv: int,
    pub hp: int,
    pub hp_max: int,
    pub mp: int,
    pub mp_max: int,
}

/// One observed combatant: its seat on the battle grid (or -1 when the raw
/// slot index is unrecognized), display name, level and vital statistics.
/// The statistics are kept exactly as read; `hp` may transiently exceed
/// `hp_max` in the source data and is not clamped.
#[derive(Debug)]
pub struct Character {
    pub pos_in_grid: i32,
    pub name: String,
    pub lv: i32,
    pub hp: i32,
    pub hp_max: i32,
    pub mp: i32,
    pub mp_max: i32,
}

impl View for Character {
    type V = CharacterView;

    open spec fn view(&self) -> CharacterView {
        CharacterView {
            pos_in_grid: self.pos_in_grid as int,
            name: self.name@,
            lv: self.lv as int,
            hp: self.hp as int,
            hp_max: self.hp_max as int,
            mp: self.mp as int,
            mp_max: self.mp_max as int,
        }
    }
}

impl PartialEq for Character {
    fn eq(&self, other: &Character) -> (r: bool) {
        self.pos_in_grid == other.pos_in_grid && self.name == other.name && self.lv == other.lv
            && self.hp == other.hp && self.hp_max == other.hp_max && self.mp == other.mp
            && self.mp_max == other.mp_max
    }
}

impl vstd::std_specs::cmp::PartialEqSpecImpl for Character {
    open spec fn obeys_eq_spec() -> bool {
        true
    }

    open spec fn eq_spec(&self, other: &Character) -> bool {
        self@ =~= other@
    }
}

/// The neutral combatant: unplaced, nameless, all statistics zero.
pub open spec fn neutral_character() -> CharacterView {
    CharacterView {
        pos_in_grid: -1,
        name: Seq::<char>::empty(),
        lv: 0,
        hp: 0,
        hp_max: 0,
        mp: 0,
        mp_max: 0,
    }
}

/// Whether a twelve-field record decodes at all: its slot index and its five
/// statistic fields must each be a hexadecimal number that fits an `i32`.
/// Fields 2, 3, 9, 10 and 11 are carried on the wire but not surfaced.
pub open spec fn rec_ok(rec: Seq<Seq<char>>) -> bool {
    &&& hex_to_bounded(rec[0], 0x7fffffff) is Some
    &&& hex_to_bounded(rec[4], 0x7fffffff) is Some
    &&& hex_to_bounded(rec[5], 0x7fffffff) is Some
    &&& hex_to_bounded(rec[6], 0x7fffffff) is Some
    &&& hex_to_bounded(rec[7], 0x7fffffff) is Some
    &&& hex_to_bounded(rec[8], 0x7fffffff) is Some
}

/// The combatant a decodable twelve-field record describes.
pub open spec fn rec_character(rec: Seq<Seq<char>>) -> CharacterView {
    CharacterView {
        pos_in_grid: grid_of(hex_val(rec[0])),
        name: rec[1],
        lv: hex_val(rec[4]),
        hp: hex_val(rec[5]),
        hp_max: hex_val(rec[6]),
        mp: hex_val(rec[7]),
        mp_max: hex_val(rec[8]),
    }
}

impl Character {
    /// The neutral combatant, handed out when a record is too short to
    /// carry any observation.
    pub fn default() -> (r: Self)
        ensures
            r@ =~= neutral_character(),
    {
        Self {
            pos_in_grid: -1,
            name: String::new(),
            lv: 0,
            hp: 0,
            hp_max: 0,
            mp: 0,
            mp_max: 0,
        }
    }

    /// An exact copy.
    pub fn duplicate(&self) -> (r: Self)
        ensures
            r@ =~= self@,
    {
        Self {
            pos_in_grid: self.pos_in_grid,
            name: self.name.clone(),
            lv: self.lv,
            hp: self.hp,
            hp_max: self.hp_max,
            mp: self.mp,
            mp_max: self.mp_max,
        }
    }

    /// Decode one record string. A record with fewer than twelve fields is a
    /// soft failure and yields the neutral combatant; fields beyond the
    /// twelfth are ignored; a malformed numeric field makes this one record
    /// undecodable and yields nothing.
    pub fn from(character_info: &str) -> (r: Option<Self>)
        ensures
            fields_of(character_info@).len() < 12 ==> (r matches Some(c) && c@ =~= neutral_character()),
            fields_of(character_info@).len() >= 12 ==> {
                &&& r is Some <==> rec_ok(fields_of(character_info@))
                &&& r matches Some(c) ==> c@ =~= rec_character(fields_of(character_info@))
            },
    {
        let fields = split_fields(character_info);
        if fields.len() < 12 {
            return Some(Character::default());
        }
        decode_record(&fields, 0)
    }
}

/// Decode the twelve-field record that starts at `off` in a field sequence.
pub fn decode_record(fields: &Vec<String>, off: usize) -> (r: Option<Character>)
    requires
        off + 12 <= fields@.len(),
    ensures
        ({
            let rec = views_of(fields@).subrange(off as int, off + 12);
            &&& r is Some <==> rec_ok(rec)
            &&& r matches Some(c) ==> c@ =~= rec_character(rec)
        }),
{
    let ghost rec = views_of(fields@).subrange(off as int, off + 12);
    let n = fields.len();
    proof {
        assert(off + 12 <= n);
        assert(forall|j: int| 0 <= j < 12 ==> rec[j] == #[trigger] fields@[off + j]@);
    }
    let index = match parse_hex_i32(&fields[off]) {
        Some(v) => v,
        None => {
            return None;
        },
    };
    let lv = match parse_hex_i32(&fields[off + 4]) {
        Some(v) => v,
        None => {
            return None;
        },
    };
    let hp = match parse_hex_i32(&fields[off + 5]) {
        Some(v) => v,
        None => {
            return None;
        },
    };
    let hp_max = match parse_hex_i32(&fields[off + 6]) {
        Some(v) => v,
        None => {
            return None;
        },
    };
    let mp = match parse_hex_i32(&fields[off + 7]) {
        Some(v) => v,
        None => {
            return None;
        },
    };
    let mp_max = match parse_hex_i32(&fields[off + 8]) {
        Some(v) => v,
        None => {
            return None;
        },
    };
    let pos_in_grid = grid_position(index);
    let name = fields[off + 1].clone();
    Some(
        Character {
            pos_in_grid,
            name,
            lv,
            hp,
            hp_max,
            mp,
            mp_max,
        },
    )
}

} // verus!
