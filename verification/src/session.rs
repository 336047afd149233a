//! The shared monitoring session and its transitions: what one poll cycle
//! does, what starting and stopping do, and which events each owes.

use crate::character::CharacterView;
use crate::roster::{build_roster, lemma_roster_of_empty, roster_of, Roster};
use vstd::prelude::*;

verus! {

/// The process-wide monitoring state: the target window and process
/// handles, the memory address and text encoding of the battle blob, the
/// enabled flag, and the last-published roster. The published roster always
/// reflects the most recently emitted event: an unchanged read never
/// re-emits.
pub struct Session {
    pub hwnd: i64,
    pub handle: i64,
    pub battle_info_addr: i64,
    pub encoding: String,
    pub started: bool,
    pub characters: Roster,
}

/// The monitoring configuration and flag are untouched.
pub open spec fn config_unchanged(s0: Session, s1: Session) -> bool {
    &&& s1.hwnd == s0.hwnd
    &&& s1.handle == s0.handle
    &&& s1.battle_info_addr == s0.battle_info_addr
    &&& s1.encoding@ == s0.encoding@
    &&& s1.started == s0.started
}

/// What one monitor cycle on a freshly read blob does. While monitoring is
/// off the cycle is a no-op tick. While it is on, the blob's roster becomes
/// the published roster, and a change is reported exactly when that roster
/// differs from the previously published one.
pub open spec fn cycle_rel(s0: Session, blob: Seq<char>, s1: Session, changed: bool) -> bool {
    &&& config_unchanged(s0, s1)
    &&& if s0.started {
        &&& s1.characters@ == roster_of(blob)
        &&& changed == (s0.characters@ != roster_of(blob))
    } else {
        &&& s1.characters@ == s0.characters@
        &&& !changed
    }
}

/// What stopping does: monitoring is off, the published roster is cleared,
/// and the empty-roster event is owed exactly when the published roster was
/// non-empty.
pub open spec fn stop_rel(s0: Session, s1: Session, emit_empty: bool) -> bool {
    &&& s1.hwnd == s0.hwnd
    &&& s1.handle == s0.handle
    &&& s1.battle_info_addr == s0.battle_info_addr
    &&& s1.encoding@ == s0.encoding@
    &&& !s1.started
    &&& s1.characters@ == Map::<int, CharacterView>::empty()
    &&& emit_empty == (s0.characters@ != Map::<int, CharacterView>::empty())
}

impl Session {
    pub open spec fn wf(&self) -> bool {
        self.characters.wf()
    }

    /// A fresh session with neutral defaults: idle, nothing published.
    pub fn new() -> (s: Session)
        ensures
            s.wf(),
            !s.started,
            s.characters@ == Map::<int, CharacterView>::empty(),
            s.hwnd == 0,
            s.handle == 0,
            s.battle_info_addr == 0,
            s.encoding@ == Seq::<char>::empty(),
    {
        Session {
            hwnd: 0,
            handle: 0,
            battle_info_addr: 0,
            encoding: String::new(),
            started: false,
            characters: Roster::new(),
        }
    }

    /// Record the window handle picked by the control surface.
    pub fn set_hwnd(&mut self, hwnd: i64)
        requires
            old(self).wf(),
        ensures
            final(self).wf(),
            final(self).hwnd == hwnd,
            final(self).handle == old(self).handle,
            final(self).battle_info_addr == old(self).battle_info_addr,
            final(self).encoding@ == old(self).encoding@,
            final(self).started == old(self).started,
            final(self).characters@ == old(self).characters@,
    {
        self.hwnd = hwnd;
    }

    /// Apply a successfully validated configuration and enable monitoring.
    /// Starting while already active simply re-applies the configuration.
    pub fn apply_start(&mut self, handle: i64, addr: i64, encoding: &str)
        requires
            old(self).wf(),
        ensures
            final(self).wf(),
            final(self).hwnd == old(self).hwnd,
            final(self).handle == handle,
            final(self).battle_info_addr == addr,
            final(self).encoding@ == encoding@,
            final(self).started,
            final(self).characters@ == old(self).characters@,
    {
        self.handle = handle;
        self.battle_info_addr = addr;
        self.encoding = encoding.to_owned();
        self.started = true;
    }

    /// Stop monitoring and clear the published roster. The returned flag
    /// says whether the empty-roster event is owed: only when the roster
    /// was non-empty, so stopping twice emits at most once.
    pub fn stop(&mut self) -> (emit_empty: bool)
        requires
            old(self).wf(),
        ensures
            final(self).wf(),
            stop_rel(*old(self), *final(self), emit_empty),
    {
        let emit_empty = !self.characters.is_empty();
        self.started = false;
        if emit_empty {
            self.characters = Roster::new();
        }
        emit_empty
    }

    /// One monitor cycle on a freshly read blob. The returned flag says
    /// whether the roster changed and a snapshot event is owed.
    pub fn cycle(&mut self, blob: &str) -> (changed: bool)
        requires
            old(self).wf(),
        ensures
            final(self).wf(),
            cycle_rel(*old(self), blob@, *final(self), changed),
    {
        if !self.started {
            return false;
        }
        let new_roster = build_roster(blob);
        if self.characters.roster_eq(&new_roster) {
            false
        } else {
            self.characters = new_roster;
            true
        }
    }
}

/// Feeding the same blob on two consecutive cycles reports a change at most
/// on the first of them: the second cycle finds the published roster equal
/// to what the blob describes and emits nothing.
pub proof fn lemma_cycle_idempotent(
    s0: Session,
    blob: Seq<char>,
    s1: Session,
    c1: bool,
    s2: Session,
    c2: bool,
)
    requires
        cycle_rel(s0, blob, s1, c1),
        cycle_rel(s1, blob, s2, c2),
    ensures
        !c2,
{
}

/// Transition to "not in battle": with a non-empty published roster, an
/// empty blob on the next cycle reports exactly one change, to the empty
/// roster; a further empty blob reports nothing more.
pub proof fn lemma_empty_transition(s0: Session, s1: Session, c1: bool, s2: Session, c2: bool)
    requires
        s0.started,
        s0.characters@ != Map::<int, CharacterView>::empty(),
        cycle_rel(s0, Seq::<char>::empty(), s1, c1),
        cycle_rel(s1, Seq::<char>::empty(), s2, c2),
    ensures
        c1,
        s1.characters@ == Map::<int, CharacterView>::empty(),
        !c2,
{
    lemma_roster_of_empty();
}

/// Stopping twice in a row emits the empty-roster event at most once: the
/// first stop owes it exactly when the published roster was non-empty, and
/// the second never owes it.
pub proof fn lemma_stop_idempotent(s0: Session, s1: Session, e1: bool, s2: Session, e2: bool)
    requires
        stop_rel(s0, s1, e1),
        stop_rel(s1, s2, e2),
    ensures
        e1 == (s0.characters@ != Map::<int, CharacterView>::empty()),
        !e2,
{
}

} // verus!
