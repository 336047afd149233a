//! The roster of one poll cycle: a position-keyed collection of combatants
//! assembled from the complete twelve-field records of a raw blob.

use crate::character::{rec_character, rec_ok, Character, CharacterView};
use crate::fields::{
    field_clean, fields_of, join_all, join_fields, lemma_fields_round_trip, split_fields, views_of,
};
use crate::grid::{lemma_grid_map_inverse, lemma_grid_of_range, raw_index, raw_of};
use crate::hex::{hex_seq_of, hex_to_bounded, lemma_hex_round_trip, lemma_hex_seq_digits, to_hex};
use vstd::prelude::*;

verus! {

/// The complete twelve-field records of a field sequence; a trailing group
/// of fewer than twelve fields is dropped.
pub open spec fn records_of(fs: Seq<Seq<char>>) -> Seq<Seq<Seq<char>>>
    decreases fs.len(),
{
    if fs.len() < 12 {
        Seq::<Seq<Seq<char>>>::empty()
    } else {
        seq![fs.subrange(0, 12)] + records_of(fs.subrange(12, fs.len() as int))
    }
}

/// Truncation tolerance: exactly the complete leading twelve-field groups
/// are kept, and the remainder, shorter than twelve fields, is dropped.
pub proof fn lemma_records_complete_chunks(fs: Seq<Seq<char>>)
    ensures
        12 * records_of(fs).len() <= fs.len() < 12 * records_of(fs).len() + 12,
        forall|i: int|
            0 <= i && 12 * i + 12 <= fs.len() ==> i < records_of(fs).len() && #[trigger] records_of(
                fs,
            )[i] =~= fs.subrange(12 * i, 12 * i + 12),
    decreases fs.len(),
{
    if fs.len() >= 12 {
        let rest = fs.subrange(12, fs.len() as int);
        lemma_records_complete_chunks(rest);
        assert forall|i: int| 0 <= i && 12 * i + 12 <= fs.len() implies i < records_of(fs).len()
            && #[trigger] records_of(fs)[i] =~= fs.subrange(12 * i, 12 * i + 12) by {
            if i == 0 {
                assert(records_of(fs)[0] == fs.subrange(0, 12));
            } else {
                assert(12 * (i - 1) + 12 <= rest.len());
                assert(records_of(fs)[i] == records_of(rest)[i - 1]);
                assert(records_of(rest)[i - 1] =~= rest.subrange(12 * (i - 1), 12 * (i - 1) + 12));
                assert(rest.subrange(12 * (i - 1), 12 * (i - 1) + 12) =~= fs.subrange(
                    12 * i,
                    12 * i + 12,
                ));
            }
        }
    }
}

/// One record folded into the position-keyed map: a decodable record is
/// keyed by its grid position, the later record winning the key; an
/// undecodable one is skipped.
pub open spec fn roster_insert(
    m: Map<int, CharacterView>,
    rec: Seq<Seq<char>>,
) -> Map<int, CharacterView> {
    if rec_ok(rec) {
        m.insert(rec_character(rec).pos_in_grid, rec_character(rec))
    } else {
        m
    }
}

/// All records folded into the position-keyed map, first to last.
pub open spec fn roster_fold(
    m: Map<int, CharacterView>,
    recs: Seq<Seq<Seq<char>>>,
) -> Map<int, CharacterView>
    decreases recs.len(),
{
    if recs.len() == 0 {
        m
    } else {
        roster_fold(roster_insert(m, recs[0]), recs.subrange(1, recs.len() as int))
    }
}

/// The roster a raw blob describes: its fields grouped into complete
/// twelve-field records, each decodable record keyed by grid position.
/// An empty blob yields the empty roster: not in battle.
pub open spec fn roster_of(s: Seq<char>) -> Map<int, CharacterView> {
    roster_fold(Map::<int, CharacterView>::empty(), records_of(fields_of(s)))
}

/// An empty blob, the result of a failed or empty read, describes the empty
/// roster: not in battle.
pub proof fn lemma_roster_of_empty()
    ensures
        roster_of(Seq::<char>::empty()) == Map::<int, CharacterView>::empty(),
{
    assert(fields_of(Seq::<char>::empty()) =~= seq![Seq::<char>::empty()]);
    assert(fields_of(Seq::<char>::empty()).len() == 1);
    assert(records_of(fields_of(Seq::<char>::empty())) == Seq::<Seq<Seq<char>>>::empty());
}

/// The current battle state: at most one combatant per grid position, plus
/// at most one unplaced combatant under the sentinel key -1. The empty
/// roster means "not in battle".
#[derive(Debug)]
pub struct Roster {
    slots: Vec<Option<Character>>,
}

impl View for Roster {
    type V = Map<int, CharacterView>;

    closed spec fn view(&self) -> Map<int, CharacterView> {
        Map::<int, CharacterView>::new(
            |k: int| -1 <= k < 20 && self.slots@[k + 1] is Some,
            |k: int| self.slots@[k + 1].unwrap()@,
        )
    }
}

impl Roster {
    /// One slot per key: the sentinel -1 first, then the twenty grid
    /// positions; a combatant is stored in the slot its position names.
    pub closed spec fn wf(&self) -> bool {
        &&& self.slots@.len() == 21
        &&& forall|i: int|
            0 <= i < 21 ==> (#[trigger] self.slots@[i] matches Some(c) ==> c@.pos_in_grid == i - 1)
    }

    /// The empty roster.
    pub fn new() -> (r: Self)
        ensures
            r.wf(),
            r@ == Map::<int, CharacterView>::empty(),
    {
        let mut slots: Vec<Option<Character>> = Vec::new();
        let mut i: usize = 0;
        while i < 21
            invariant
                0 <= i <= 21,
                slots@.len() == i,
                forall|j: int| 0 <= j < i ==> slots@[j] is None,
            decreases 21 - i,
        {
            slots.push(None);
            i = i + 1;
        }
        let r = Roster { slots };
        proof {
            assert(r@ =~= Map::<int, CharacterView>::empty());
        }
        r
    }

    /// Store a combatant under its own grid position, replacing any earlier
    /// combatant seated there.
    pub fn insert(&mut self, c: Character)
        requires
            old(self).wf(),
            -1 <= c@.pos_in_grid < 20,
        ensures
            final(self).wf(),
            final(self)@ == old(self)@.insert(c@.pos_in_grid, c@),
    {
        let idx = (c.pos_in_grid + 1) as usize;
        self.slots.set(idx, Some(c));
        proof {
            assert(self@ =~= old(self)@.insert(c@.pos_in_grid, c@));
        }
    }

    /// The combatant seated at a position, if any.
    pub fn get(&self, pos: i32) -> (r: Option<&Character>)
        requires
            self.wf(),
        ensures
            r is Some <==> self@.dom().contains(pos as int),
            r matches Some(c) ==> c@ == self@[pos as int],
    {
        if pos < -1 || pos >= 20 {
            return None;
        }
        let idx = (pos + 1) as usize;
        match &self.slots[idx] {
            Some(c) => Some(c),
            None => None,
        }
    }

    /// Whether the roster is empty: no battle in progress.
    pub fn is_empty(&self) -> (r: bool)
        requires
            self.wf(),
        ensures
            r == (self@ == Map::<int, CharacterView>::empty()),
    {
        let mut i: usize = 0;
        while i < 21
            invariant
                self.wf(),
                0 <= i <= 21,
                forall|j: int| 0 <= j < i ==> self.slots@[j] is None,
            decreases 21 - i,
        {
            if self.slots[i].is_some() {
                proof {
                    assert(self@.dom().contains(i - 1));
                    assert(!Map::<int, CharacterView>::empty().dom().contains(i - 1));
                }
                return false;
            }
            i = i + 1;
        }
        proof {
            assert(self@ =~= Map::<int, CharacterView>::empty());
        }
        true
    }

    /// Structural equality over the whole mapping, the comparison change
    /// detection runs on.
    pub fn roster_eq(&self, other: &Roster) -> (r: bool)
        requires
            self.wf(),
            other.wf(),
        ensures
            r == (self@ == other@),
    {
        let mut i: usize = 0;
        while i < 21
            invariant
                self.wf(),
                other.wf(),
                0 <= i <= 21,
                forall|j: int|
                    0 <= j < i ==> (#[trigger] self.slots@[j] is Some <==> other.slots@[j] is Some),
                forall|j: int|
                    0 <= j < i ==> (#[trigger] self.slots@[j] is Some ==> self.slots@[j].unwrap()@
                        =~= other.slots@[j].unwrap()@),
            decreases 21 - i,
        {
            let same = match (&self.slots[i], &other.slots[i]) {
                (None, None) => true,
                (Some(a), Some(b)) => *a == *b,
                _ => false,
            };
            if !same {
                proof {
                    let k = i - 1;
                    if self.slots@[i as int] is Some != other.slots@[i as int] is Some {
                        assert(self@.dom().contains(k) != other@.dom().contains(k));
                    } else {
                        assert(self@[k] != other@[k]);
                    }
                }
                return false;
            }
            i = i + 1;
        }
        proof {
            assert(self@ =~= other@);
        }
        true
    }

    /// An exact copy of the roster.
    pub fn duplicate(&self) -> (r: Self)
        requires
            self.wf(),
        ensures
            r.wf(),
            r@ == self@,
    {
        let mut slots: Vec<Option<Character>> = Vec::new();
        let mut i: usize = 0;
        while i < 21
            invariant
                self.wf(),
                0 <= i <= 21,
                slots@.len() == i,
                forall|j: int|
                    0 <= j < i ==> (#[trigger] slots@[j] is Some <==> self.slots@[j] is Some),
                forall|j: int|
                    0 <= j < i ==> (#[trigger] slots@[j] is Some ==> slots@[j].unwrap()@
                        == self.slots@[j].unwrap()@),
            decreases 21 - i,
        {
            let copy = match &self.slots[i] {
                Some(c) => Some(c.duplicate()),
                None => None,
            };
            slots.push(copy);
            i = i + 1;
        }
        let r = Roster { slots };
        proof {
            assert(r@ =~= self@);
        }
        r
    }
}

/// The twelve wire fields that carry one combatant: its raw slot index,
/// its name, and its statistics in hexadecimal; the five fields not
/// surfaced by decoding are filled with a placeholder digit.
pub open spec fn character_fields(c: CharacterView) -> Seq<Seq<char>> {
    seq![
        hex_seq_of(raw_of(c.pos_in_grid)),
        c.name,
        seq!['0'],
        seq!['0'],
        hex_seq_of(c.lv),
        hex_seq_of(c.hp),
        hex_seq_of(c.hp_max),
        hex_seq_of(c.mp),
        hex_seq_of(c.mp_max),
        seq!['0'],
        seq!['0'],
        seq!['0'],
    ]
}

/// A combatant the wire format can carry faithfully: seated on the grid,
/// name free of the field delimiter, statistics non-negative.
pub open spec fn encodable(c: CharacterView) -> bool {
    &&& 0 <= c.pos_in_grid < 20
    &&& field_clean(c.name)
    &&& 0 <= c.lv <= 0x7fffffff
    &&& 0 <= c.hp <= 0x7fffffff
    &&& 0 <= c.hp_max <= 0x7fffffff
    &&& 0 <= c.mp <= 0x7fffffff
    &&& 0 <= c.mp_max <= 0x7fffffff
}

/// A roster the wire format can carry faithfully: every combatant seated
/// under its own grid position and itself encodable.
pub open spec fn roster_encodable(m: Map<int, CharacterView>) -> bool {
    forall|k: int| #[trigger] m.dom().contains(k) ==> 0 <= k < 20 && encodable(m[k])
}

/// The twelve fields of an encodable combatant decode back to it, and none
/// of them holds the delimiter.
proof fn lemma_character_fields_decode(c: CharacterView)
    requires
        encodable(c),
    ensures
        rec_ok(character_fields(c)),
        rec_character(character_fields(c)) == c,
        forall|i: int| 0 <= i < 12 ==> field_clean(#[trigger] character_fields(c)[i]),
{
    let cf = character_fields(c);
    lemma_grid_map_inverse(c.pos_in_grid);
    lemma_hex_round_trip(raw_of(c.pos_in_grid));
    lemma_hex_seq_digits(raw_of(c.pos_in_grid));
    lemma_hex_round_trip(c.lv);
    lemma_hex_seq_digits(c.lv);
    lemma_hex_round_trip(c.hp);
    lemma_hex_seq_digits(c.hp);
    lemma_hex_round_trip(c.hp_max);
    lemma_hex_seq_digits(c.hp_max);
    lemma_hex_round_trip(c.mp);
    lemma_hex_seq_digits(c.mp);
    lemma_hex_round_trip(c.mp_max);
    lemma_hex_seq_digits(c.mp_max);
    assert(rec_character(cf) =~= c);
    assert forall|i: int| 0 <= i < 12 implies field_clean(#[trigger] cf[i]) by {
        assert(field_clean(seq!['0']));
        assert(field_clean(hex_seq_of(raw_of(c.pos_in_grid))));
        assert(field_clean(hex_seq_of(c.lv)));
        assert(field_clean(hex_seq_of(c.hp)));
        assert(field_clean(hex_seq_of(c.hp_max)));
        assert(field_clean(hex_seq_of(c.mp)));
        assert(field_clean(hex_seq_of(c.mp_max)));
    }
}

/// The wire fields of one slot: twelve for a seated combatant, none for an
/// empty seat.
spec fn slot_group(s: Option<Character>) -> Seq<Seq<char>> {
    match s {
        Some(c) => character_fields(c@),
        None => Seq::<Seq<char>>::empty(),
    }
}

/// The wire fields of a slot sequence, in seating order.
spec fn slots_fields(slots: Seq<Option<Character>>) -> Seq<Seq<char>>
    decreases slots.len(),
{
    if slots.len() == 0 {
        Seq::<Seq<char>>::empty()
    } else {
        slot_group(slots[0]) + slots_fields(slots.subrange(1, slots.len() as int))
    }
}

proof fn lemma_slots_fields_push(slots: Seq<Option<Character>>, s: Option<Character>)
    ensures
        slots_fields(slots.push(s)) == slots_fields(slots) + slot_group(s),
    decreases slots.len(),
{
    let g = slots.push(s);
    if slots.len() == 0 {
        assert(g[0] == s);
        assert(g.subrange(1, g.len() as int) =~= Seq::<Option<Character>>::empty());
        assert(slot_group(s) + Seq::<Seq<char>>::empty() =~= slot_group(s));
        assert(slots_fields(Seq::<Option<Character>>::empty()) =~= Seq::<Seq<char>>::empty());
        assert(slots_fields(g) == slot_group(g[0]) + slots_fields(g.subrange(1, g.len() as int)));
        assert(slots_fields(slots) + slot_group(s) =~= slot_group(s));
    } else {
        assert(g[0] == slots[0]);
        assert(g.subrange(1, g.len() as int) =~= slots.subrange(1, slots.len() as int).push(s));
        lemma_slots_fields_push(slots.subrange(1, slots.len() as int), s);
        assert(slot_group(slots[0]) + (slots_fields(slots.subrange(1, slots.len() as int))
            + slot_group(s)) =~= (slot_group(slots[0]) + slots_fields(
            slots.subrange(1, slots.len() as int),
        )) + slot_group(s));
    }
}

proof fn lemma_slots_fields_empty(slots: Seq<Option<Character>>)
    requires
        slots_fields(slots).len() == 0,
    ensures
        forall|i: int| 0 <= i < slots.len() ==> slots[i] is None,
    decreases slots.len(),
{
    if slots.len() > 0 {
        assert(slots[0] is None);
        lemma_slots_fields_empty(slots.subrange(1, slots.len() as int));
        assert forall|i: int| 0 <= i < slots.len() implies slots[i] is None by {
            if i > 0 {
                assert(slots.subrange(1, slots.len() as int)[i - 1] == slots[i]);
            }
        }
    }
}

proof fn lemma_slots_fields_clean(slots: Seq<Option<Character>>)
    requires
        forall|i: int|
            0 <= i < slots.len() ==> (#[trigger] slots[i] matches Some(c) ==> encodable(c@)),
    ensures
        forall|i: int|
            0 <= i < slots_fields(slots).len() ==> field_clean(#[trigger] slots_fields(slots)[i]),
    decreases slots.len(),
{
    if slots.len() > 0 {
        let rest = slots.subrange(1, slots.len() as int);
        lemma_slots_fields_clean(rest);
        match slots[0] {
            Some(c) => lemma_character_fields_decode(c@),
            None => {},
        }
        assert forall|i: int| 0 <= i < slots_fields(slots).len() implies field_clean(
            #[trigger] slots_fields(slots)[i],
        ) by {
            let g = slot_group(slots[0]);
            if i < g.len() {
                assert(slots_fields(slots)[i] == g[i]);
            } else {
                assert(slots_fields(slots)[i] == slots_fields(rest)[i - g.len()]);
            }
        }
    }
}

/// The position-keyed mapping a slot sequence carries, the first slot keyed
/// by `base`.
spec fn slots_map(slots: Seq<Option<Character>>, base: int) -> Map<int, CharacterView> {
    Map::<int, CharacterView>::new(
        |k: int| base <= k < base + slots.len() && slots[k - base] is Some,
        |k: int| slots[k - base].unwrap()@,
    )
}

/// Laying the tail's mapping over the map after the head combatant equals
/// laying the whole slot sequence's mapping over the map.
proof fn lemma_slots_map_cons(m: Map<int, CharacterView>, slots: Seq<Option<Character>>, base: int)
    requires
        slots.len() > 0,
    ensures
        slots[0] is None ==> m.union_prefer_right(
            slots_map(slots.subrange(1, slots.len() as int), base + 1),
        ) == m.union_prefer_right(slots_map(slots, base)),
        (slots[0] matches Some(c) ==> m.insert(base, c@).union_prefer_right(
            slots_map(slots.subrange(1, slots.len() as int), base + 1),
        ) == m.union_prefer_right(slots_map(slots, base))),
{
    let rest = slots.subrange(1, slots.len() as int);
    let restm = slots_map(rest, base + 1);
    let wholem = slots_map(slots, base);
    assert(forall|k: int|
        restm.dom().contains(k) == (base + 1 <= k < base + slots.len() && slots[k - base] is Some));
    assert(forall|k: int| #[trigger]
        restm.dom().contains(k) ==> restm[k] == slots[k - base].unwrap()@);
    match slots[0] {
        None => {
            assert(!wholem.dom().contains(base));
            assert(m.union_prefer_right(restm) =~= m.union_prefer_right(wholem));
        },
        Some(c) => {
            assert(wholem.dom().contains(base));
            assert(wholem[base] == c@);
            assert(m.insert(base, c@).union_prefer_right(restm) =~= m.union_prefer_right(wholem));
        },
    }
}

/// Grouping the wire fields of a non-empty slot sequence whose head is
/// seated starts with the head's own record.
proof fn lemma_records_cons(cf: Seq<Seq<char>>, restf: Seq<Seq<char>>)
    requires
        cf.len() == 12,
    ensures
        records_of(cf + restf) == seq![cf] + records_of(restf),
{
    let sf = cf + restf;
    assert(sf.len() >= 12);
    assert(sf.subrange(0, 12) =~= cf);
    assert(sf.subrange(12, sf.len() as int) =~= restf);
}

/// Folding the records of a slot sequence's wire fields into a map lays
/// each seated combatant over the map under its own key.
proof fn lemma_fold_slots(m: Map<int, CharacterView>, slots: Seq<Option<Character>>, base: int)
    requires
        forall|i: int|
            0 <= i < slots.len() ==> (#[trigger] slots[i] matches Some(c) ==> c@.pos_in_grid == base
                + i && encodable(c@)),
    ensures
        roster_fold(m, records_of(slots_fields(slots))) == m.union_prefer_right(
            slots_map(slots, base),
        ),
    decreases slots.len(),
{
    if slots.len() == 0 {
        assert(slots_fields(slots).len() == 0);
        assert(records_of(slots_fields(slots)) == Seq::<Seq<Seq<char>>>::empty());
        assert(m.union_prefer_right(slots_map(slots, base)) =~= m);
    } else {
        let rest = slots.subrange(1, slots.len() as int);
        let sf = slots_fields(slots);
        let restf = slots_fields(rest);
        lemma_slots_map_cons(m, slots, base);
        match slots[0] {
            None => {
                assert(sf =~= restf);
                lemma_fold_slots(m, rest, base + 1);
            },
            Some(c) => {
                lemma_character_fields_decode(c@);
                let cf = character_fields(c@);
                assert(sf == cf + restf);
                lemma_records_cons(cf, restf);
                let recs = records_of(sf);
                assert(recs[0] == cf);
                assert(recs.subrange(1, recs.len() as int) =~= records_of(restf));
                assert(roster_insert(m, cf) == m.insert(base, c@));
                assert(roster_fold(m, recs) == roster_fold(m.insert(base, c@), records_of(restf)));
                lemma_fold_slots(m.insert(base, c@), rest, base + 1);
            },
        }
    }
}

/// The placeholder field carried in the wire positions that decoding does
/// not surface.
fn zero_field() -> (r: String)
    ensures
        r@ =~= seq!['0'],
{
    proof {
        reveal_strlit("0");
    }
    let r = "0".to_owned();
    r
}

/// Append the twelve wire fields of one combatant.
fn push_character_fields(out: &mut Vec<String>, c: &Character)
    requires
        encodable(c@),
    ensures
        views_of(final(out)@) == views_of(old(out)@) + character_fields(c@),
{
    let raw = raw_index(c.pos_in_grid);
    out.push(to_hex(raw));
    out.push(c.name.clone());
    out.push(zero_field());
    out.push(zero_field());
    out.push(to_hex(c.lv));
    out.push(to_hex(c.hp));
    out.push(to_hex(c.hp_max));
    out.push(to_hex(c.mp));
    out.push(to_hex(c.mp_max));
    out.push(zero_field());
    out.push(zero_field());
    out.push(zero_field());
    proof {
        assert(views_of(out@) =~= views_of(old(out)@) + character_fields(c@));
    }
}

impl Roster {
    /// Render the roster in the wire format: the twelve fields of each
    /// seated combatant, in seating order, all joined on the delimiter.
    /// Decoding the rendered blob restores the roster exactly.
    pub fn encode(&self) -> (blob: String)
        requires
            self.wf(),
            roster_encodable(self@),
        ensures
            roster_of(blob@) == self@,
    {
        let mut all_fields: Vec<String> = Vec::new();
        let mut i: usize = 0;
        proof {
            assert(self.slots@.subrange(0, 0) =~= Seq::<Option<Character>>::empty());
            assert(views_of(all_fields@) =~= Seq::<Seq<char>>::empty());
        }
        while i < 21
            invariant
                self.wf(),
                roster_encodable(self@),
                0 <= i <= 21,
                views_of(all_fields@) == slots_fields(self.slots@.subrange(0, i as int)),
            decreases 21 - i,
        {
            let ghost prefix = self.slots@.subrange(0, i as int);
            proof {
                assert(self.slots@.subrange(0, i + 1) =~= prefix.push(self.slots@[i as int]));
                lemma_slots_fields_push(prefix, self.slots@[i as int]);
            }
            match &self.slots[i] {
                Some(c) => {
                    proof {
                        assert(self@.dom().contains(i - 1));
                        assert(self@[i - 1] == c@);
                        assert(encodable(c@));
                    }
                    push_character_fields(&mut all_fields, c);
                },
                None => {
                    proof {
                        assert(views_of(all_fields@) =~= slots_fields(prefix) + slot_group(
                            self.slots@[i as int],
                        ));
                    }
                },
            }
            i = i + 1;
        }
        proof {
            assert(self.slots@.subrange(0, 21) =~= self.slots@);
        }
        let blob = join_all(&all_fields);
        proof {
            let sf = slots_fields(self.slots@);
            assert forall|j: int|
                0 <= j < self.slots@.len() implies (#[trigger] self.slots@[j] matches Some(c)
                ==> c@.pos_in_grid == -1 + j && encodable(c@)) by {
                match self.slots@[j] {
                    Some(c) => {
                        assert(self@.dom().contains(j - 1));
                        assert(self@[j - 1] == c@);
                    },
                    None => {},
                }
            }
            if sf.len() == 0 {
                lemma_slots_fields_empty(self.slots@);
                assert(blob@ == join_fields(sf));
                assert(blob@ =~= Seq::<char>::empty());
                lemma_roster_of_empty();
                assert(self@ =~= Map::<int, CharacterView>::empty());
            } else {
                lemma_slots_fields_clean(self.slots@);
                lemma_fields_round_trip(sf);
                assert(fields_of(blob@) == sf);
                lemma_fold_slots(Map::<int, CharacterView>::empty(), self.slots@, -1);
                assert(Map::<int, CharacterView>::empty().union_prefer_right(
                    slots_map(self.slots@, -1),
                ) =~= self@);
            }
        }
        blob
    }
}

/// Assemble the roster one raw blob describes: split on `'|'`, group into
/// complete twelve-field records, decode each record, skip the undecodable
/// ones, and key each combatant by its grid position, the later record
/// winning a contested key.
pub fn build_roster(blob: &str) -> (r: Roster)
    ensures
        r.wf(),
        r@ == roster_of(blob@),
{
    let fields = split_fields(blob);
    let ghost vf = views_of(fields@);
    let mut r = Roster::new();
    let n = fields.len();
    let mut i: usize = 0;
    proof {
        assert(vf.subrange(0, vf.len() as int) =~= vf);
        assert(vf =~= fields_of(blob@));
    }
    while i < n && n - i >= 12
        invariant
            r.wf(),
            n == fields@.len(),
            vf == views_of(fields@),
            vf == fields_of(blob@),
            0 <= i <= n,
            roster_fold(r@, records_of(vf.subrange(i as int, vf.len() as int))) == roster_of(
                blob@,
            ),
        decreases n - i,
    {
        let ghost sub_i = vf.subrange(i as int, vf.len() as int);
        let ghost rec = vf.subrange(i as int, i + 12);
        proof {
            assert(sub_i.len() >= 12);
            assert(sub_i.subrange(0, 12) =~= rec);
            assert(sub_i.subrange(12, sub_i.len() as int) =~= vf.subrange(i + 12, vf.len() as int));
            assert(records_of(sub_i) == seq![rec] + records_of(
                vf.subrange(i + 12, vf.len() as int),
            ));
            let recs = seq![rec] + records_of(vf.subrange(i + 12, vf.len() as int));
            assert(recs[0] == rec);
            assert(recs.subrange(1, recs.len() as int) =~= records_of(
                vf.subrange(i + 12, vf.len() as int),
            ));
            assert(roster_fold(r@, records_of(sub_i)) == roster_fold(
                roster_insert(r@, rec),
                records_of(vf.subrange(i + 12, vf.len() as int)),
            ));
        }
        let ghost before = r@;
        match crate::character::decode_record(&fields, i) {
            Some(c) => {
                proof {
                    lemma_grid_of_range(crate::hex::hex_val(rec[0]));
                    assert(c@ == rec_character(rec));
                }
                r.insert(c);
                proof {
                    assert(rec_ok(rec));
                    assert(r@ == roster_insert(before, rec));
                }
            },
            None => {
                proof {
                    assert(!rec_ok(rec));
                    assert(r@ == roster_insert(before, rec));
                }
            },
        }
        i = i + 12;
    }
    proof {
        assert(vf.subrange(i as int, vf.len() as int).len() < 12);
        assert(records_of(vf.subrange(i as int, vf.len() as int)) == Seq::<Seq<Seq<char>>>::empty());
    }
    r
}

} // verus!
