//! Changing what an event is made of: slots and sessions come and go,
//! participants leave, preferences are replaced.

use crate::allocation::{retain_others, without_participant};
use crate::application::{Application, ParticipantView};
use crate::event::{Event, EventView};
use crate::lookup::{first_index, found_at, lemma_first_index, lemma_first_index_none};
use crate::priority::ApplicationPriority;
use crate::session::{Session, SessionView};
use crate::slot::{Slot, SlotView};
use vstd::prelude::*;

verus! {

/// The identifiers of a list of slots, in order.
pub open spec fn slot_ids(slots: Seq<SlotView>) -> Seq<u128> {
    Seq::new(slots.len(), |i: int| slots[i].uuid)
}

/// The identifiers of a list of sessions, in order.
pub open spec fn session_ids(sessions: Seq<SessionView>) -> Seq<u128> {
    Seq::new(sessions.len(), |i: int| sessions[i].uuid)
}

/// The slots that are not `id`.
pub open spec fn other_slots(id: u128) -> spec_fn(SlotView) -> bool {
    |slot: SlotView| slot.uuid != id
}

/// The sessions that are not `id`.
pub open spec fn other_sessions(id: u128) -> spec_fn(SessionView) -> bool {
    |session: SessionView| session.uuid != id
}

/// The participants that are not `id`.
pub open spec fn other_participants(id: u128) -> spec_fn(u128) -> bool {
    |participant: u128| participant != id
}

/// A new, unscored application.
pub open spec fn new_application(
    id: u128,
    session: u128,
    participant: u128,
    priority: ApplicationPriority,
) -> Application {
    Application {
        uuid: id,
        session_uuid: session,
        participant,
        priority,
        calculated_points: None,
    }
}

impl SessionView {
    /// The session without `participant`: neither seated nor waiting.
    pub open spec fn without_participant(self, participant: u128) -> SessionView {
        SessionView {
            participants: self.participants.filter(other_participants(participant)),
            applications: without_participant(self.applications, participant),
            ..self
        }
    }
}

impl SlotView {
    /// The position of the first session with identifier `id`.
    pub open spec fn session_index(self, id: u128) -> Option<int> {
        first_index(session_ids(self.sessions), id)
    }

    /// The slot with `session` at position `i`.
    pub open spec fn with_session(self, i: int, session: SessionView) -> SlotView {
        self.with_sessions(self.sessions.update(i, session))
    }

    /// The slot with `session` added at the end.
    pub open spec fn with_session_added(self, session: SessionView) -> SlotView {
        self.with_sessions(self.sessions.push(session))
    }

    /// The slot without the sessions with identifier `id`.
    pub open spec fn without_session(self, id: u128) -> SlotView {
        self.with_sessions(self.sessions.filter(other_sessions(id)))
    }

    /// The slot with `participant` taken out of every session.
    pub open spec fn without_participant(self, participant: u128) -> SlotView {
        self.with_sessions(
            Seq::new(
                self.sessions.len(),
                |k: int| self.sessions[k].without_participant(participant),
            ),
        )
    }

    /// The slot with no application of `participant` pending anywhere.
    pub open spec fn without_applications_of(self, participant: u128) -> SlotView {
        self.with_sessions(
            Seq::new(
                self.sessions.len(),
                |k: int|
                    self.sessions[k].with_applications(
                        without_participant(self.sessions[k].applications, participant),
                    ),
            ),
        )
    }

    /// The slot with a new application of `participant` at the end of the
    /// queue of the picked session. Nothing changes without a pick, or where
    /// the slot has no such session.
    pub open spec fn with_application(
        self,
        pick: Option<u128>,
        id: u128,
        participant: u128,
        priority: ApplicationPriority,
    ) -> SlotView {
        match pick {
            Some(session) => match self.session_index(session) {
                Some(i) => self.with_session(
                    i,
                    self.sessions[i].with_applications(
                        self.sessions[i].applications.push(
                            new_application(id, session, participant, priority),
                        ),
                    ),
                ),
                None => self,
            },
            None => self,
        }
    }

    /// The slot with the applications of `participant` replaced by one for
    /// each pick, in the order first, second, third.
    pub open spec fn with_preferences(
        self,
        participant: u128,
        picks: (Option<u128>, Option<u128>, Option<u128>),
        ids: (u128, u128, u128),
    ) -> SlotView {
        self.without_applications_of(participant).with_application(
            picks.0,
            ids.0,
            participant,
            ApplicationPriority::FirstPreference,
        ).with_application(
            picks.1,
            ids.1,
            participant,
            ApplicationPriority::SecondPreference,
        ).with_application(picks.2, ids.2, participant, ApplicationPriority::ThirdPreference)
    }

    /// `pick` names no session, or one of this slot.
    pub open spec fn offers(self, pick: Option<u128>) -> bool {
        match pick {
            Some(session) => self.session_index(session) is Some,
            None => true,
        }
    }
}

impl EventView {
    /// The position of the first slot with identifier `id`.
    pub open spec fn slot_index(self, id: u128) -> Option<int> {
        first_index(slot_ids(self.slots), id)
    }

    /// The event with other slots.
    pub open spec fn with_slots(self, slots: Seq<SlotView>) -> EventView {
        EventView { slots, ..self }
    }

    /// The event with `slot` at position `i`.
    pub open spec fn with_slot(self, i: int, slot: SlotView) -> EventView {
        self.with_slots(self.slots.update(i, slot))
    }

    /// The event with `slot` added at the end.
    pub open spec fn with_slot_added(self, slot: SlotView) -> EventView {
        self.with_slots(self.slots.push(slot))
    }

    /// The event without the slots with identifier `id`.
    pub open spec fn without_slot(self, id: u128) -> EventView {
        self.with_slots(self.slots.filter(other_slots(id)))
    }

    /// The event with another table of participants.
    pub open spec fn with_participants(
        self,
        participants: Map<u128, ParticipantView>,
    ) -> EventView {
        EventView { participants, ..self }
    }

    /// The event without `participant`: not in the table, and neither
    /// seated nor waiting in any session.
    pub open spec fn without_participant(self, participant: u128) -> EventView {
        EventView {
            slots: Seq::new(
                self.slots.len(),
                |i: int| self.slots[i].without_participant(participant),
            ),
            participants: self.participants.remove(participant),
            ..self
        }
    }
}

/// Two distinct picks never name the same session.
pub open spec fn distinct_picks(picks: (Option<u128>, Option<u128>, Option<u128>)) -> bool {
    &&& picks.0 is Some && picks.1 is Some ==> picks.0 != picks.1
    &&& picks.0 is Some && picks.2 is Some ==> picks.0 != picks.2
    &&& picks.1 is Some && picks.2 is Some ==> picks.1 != picks.2
}

/// Whether two distinct picks never name the same session.
pub fn picks_are_distinct(first: Option<u128>, second: Option<u128>, third: Option<u128>) -> (ok:
    bool)
    ensures
        ok == distinct_picks((first, second, third)),
{
    let clash_12 = match (first, second) {
        (Some(a), Some(b)) => a == b,
        _ => false,
    };
    let clash_13 = match (first, third) {
        (Some(a), Some(b)) => a == b,
        _ => false,
    };
    let clash_23 = match (second, third) {
        (Some(a), Some(b)) => a == b,
        _ => false,
    };
    !clash_12 && !clash_13 && !clash_23
}

/// Drops every occurrence of `participant` from a list of seated
/// participants, keeping the order of the others.
fn unseat(seated: &mut Vec<u128>, participant: u128)
    ensures
        final(seated)@ == old(seated)@.filter(other_participants(participant)),
{
    let mut kept: Vec<u128> = Vec::new();
    let mut i: usize = 0;
    proof {
        reveal(Seq::filter);
        assert(seated@.take(0) =~= Seq::<u128>::empty());
    }
    while i < seated.len()
        invariant
            i <= seated.len(),
            seated@ == old(seated)@,
            kept@ == seated@.take(i as int).filter(other_participants(participant)),
        decreases seated.len() - i,
    {
        let p = seated[i];
        proof {
            assert(seated@.take(i + 1) =~= seated@.take(i as int).push(p));
            seated@.take(i as int).lemma_filter_push(p, other_participants(participant));
        }
        if p != participant {
            kept.push(p);
        }
        i += 1;
    }
    proof {
        assert(seated@.take(seated.len() as int) =~= seated@);
    }
    *seated = kept;
}

impl Session {
    /// Takes `participant` out of the session: seat and application.
    pub fn remove_participant(&mut self, participant: u128)
        ensures
            final(self)@ == old(self)@.without_participant(participant),
    {
        unseat(&mut self.participants, participant);
        retain_others(&mut self.applications, participant);
    }
}

impl Slot {
    /// The position of the first session with identifier `id`.
    pub fn find_session(&self, id: u128) -> (found: Option<usize>)
        ensures
            found_at(session_ids(self@.sessions), id, found),
            found matches Some(i) ==> i < self.sessions.len() && self.sessions@[i as int].uuid == id,
    {
        let ghost keys = session_ids(self@.sessions);
        let mut i: usize = 0;
        while i < self.sessions.len()
            invariant
                i <= self.sessions.len(),
                keys == session_ids(self@.sessions),
                forall|k: int| 0 <= k < i ==> keys[k] != id,
            decreases self.sessions.len() - i,
        {
            if self.sessions[i].uuid == id {
                proof {
                    lemma_first_index(keys, id, i as int);
                }
                return Some(i);
            }
            i += 1;
        }
        proof {
            lemma_first_index_none(keys, id);
        }
        None
    }

    /// Removes the sessions with identifier `id`.
    pub fn remove_session(&mut self, id: u128)
        ensures
            final(self)@ == old(self)@.without_session(id),
    {
        let ghost all = old(self)@.sessions;
        let ghost keep = other_sessions(id);
        let ghost mut k: int = 0;
        let mut i: usize = 0;
        proof {
            reveal(Seq::filter);
            assert(all.take(0).filter(keep) =~= Seq::<SessionView>::empty());
            assert(all.take(0).filter(keep) + all.skip(0) =~= all);
        }
        while i < self.sessions.len()
            invariant
                0 <= k <= all.len(),
                i <= self.sessions.len(),
                i == all.take(k).filter(keep).len(),
                self@.sessions == all.take(k).filter(keep) + all.skip(k),
                self@.with_sessions(all) == old(self)@,
                all == old(self)@.sessions,
                keep == other_sessions(id),
            decreases all.len() - k,
        {
            proof {
                assert(all.take(k + 1) =~= all.take(k).push(all[k]));
                all.take(k).lemma_filter_push(all[k], keep);
                assert(self@.sessions[i as int] == all[k]);
                assert(self.sessions@[i as int]@ == self@.sessions[i as int]);
            }
            if self.sessions[i].uuid == id {
                let ghost before = self@.sessions;
                self.sessions.remove(i);
                proof {
                    assert(self@.sessions =~= before.remove(i as int));
                    assert(before.remove(i as int) =~= all.take(k).filter(keep) + all.skip(k + 1));
                }
            } else {
                i += 1;
                proof {
                    let kept = all.take(k).filter(keep);
                    assert(all.skip(k) =~= seq![all[k]] + all.skip(k + 1));
                    assert(kept + (seq![all[k]] + all.skip(k + 1)) =~= kept.push(all[k]) + all.skip(
                        k + 1,
                    ));
                }
            }
            proof {
                k = k + 1;
            }
        }
        proof {
            assert(all.skip(k).len() == 0);
            assert(all.take(k) =~= all);
            assert(self@.sessions =~= all.filter(keep));
        }
    }

    /// Takes `participant` out of every session of the slot.
    pub fn remove_participant(&mut self, participant: u128)
        ensures
            final(self)@ == old(self)@.without_participant(participant),
    {
        let n = self.sessions.len();
        let mut k: usize = 0;
        while k < n
            invariant
                k <= n,
                n == self.sessions@.len(),
                n == old(self).sessions@.len(),
                self@.with_sessions(old(self)@.sessions) == old(self)@,
                forall|i: int|
                    0 <= i < k ==> (#[trigger] self.sessions@[i])@ == old(
                        self,
                    ).sessions@[i]@.without_participant(participant),
                forall|i: int| k <= i < n ==> #[trigger] self.sessions@[i] == old(self).sessions@[i],
            decreases n - k,
        {
            self.sessions[k].remove_participant(participant);
            k += 1;
        }
        assert(self@.sessions =~= old(self)@.without_participant(participant).sessions);
    }

    /// Drops every pending application of `participant` in the slot.
    pub fn withdraw_applications(&mut self, participant: u128)
        ensures
            final(self)@ == old(self)@.without_applications_of(participant),
    {
        let n = self.sessions.len();
        let mut k: usize = 0;
        while k < n
            invariant
                k <= n,
                n == self.sessions@.len(),
                n == old(self).sessions@.len(),
                self@.with_sessions(old(self)@.sessions) == old(self)@,
                forall|i: int|
                    0 <= i < k ==> (#[trigger] self.sessions@[i])@ == old(
                        self,
                    ).sessions@[i]@.with_applications(
                        without_participant(old(self).sessions@[i].applications@, participant),
                    ),
                forall|i: int| k <= i < n ==> #[trigger] self.sessions@[i] == old(self).sessions@[i],
            decreases n - k,
        {
            retain_others(&mut self.sessions[k].applications, participant);
            k += 1;
        }
        assert(self@.sessions =~= old(self)@.without_applications_of(participant).sessions);
    }

    /// Adds an application of `participant` with identifier `id` to the
    /// queue of the picked session, if there is a pick and the slot has the
    /// session.
    pub fn add_application(
        &mut self,
        pick: Option<u128>,
        id: u128,
        participant: u128,
        priority: ApplicationPriority,
    )
        ensures
            final(self)@ == old(self)@.with_application(pick, id, participant, priority),
    {
        match pick {
            Some(session) => match self.find_session(session) {
                Some(i) => {
                    assert(self@.sessions[i as int] == self.sessions@[i as int]@);
                    self.sessions[i].applications.push(
                        Application {
                            uuid: id,
                            session_uuid: session,
                            participant,
                            priority,
                            calculated_points: None,
                        },
                    );
                    assert(self@.sessions =~= old(self)@.with_application(
                        pick,
                        id,
                        participant,
                        priority,
                    ).sessions);
                },
                None => {},
            },
            None => {},
        }
    }

    /// Replaces the applications of `participant` by one for each pick, in
    /// the order first, second, third, with the given identifiers.
    pub fn set_preferences(
        &mut self,
        participant: u128,
        first: Option<u128>,
        second: Option<u128>,
        third: Option<u128>,
        ids: (u128, u128, u128),
    )
        ensures
            final(self)@ == old(self)@.with_preferences(participant, (first, second, third), ids),
    {
        self.withdraw_applications(participant);
        self.add_application(first, ids.0, participant, ApplicationPriority::FirstPreference);
        self.add_application(second, ids.1, participant, ApplicationPriority::SecondPreference);
        self.add_application(third, ids.2, participant, ApplicationPriority::ThirdPreference);
    }

    /// Whether `pick` names no session, or one of this slot.
    pub fn has_pick(&self, pick: Option<u128>) -> (ok: bool)
        ensures
            ok == self@.offers(pick),
    {
        match pick {
            Some(session) => self.find_session(session).is_some(),
            None => true,
        }
    }
}

impl Event {
    /// The position of the first slot with identifier `id`.
    pub fn find_slot(&self, id: u128) -> (found: Option<usize>)
        ensures
            found_at(slot_ids(self@.slots), id, found),
            found matches Some(i) ==> i < self.slots.len() && self.slots@[i as int].uuid == id,
    {
        let ghost keys = slot_ids(self@.slots);
        let mut i: usize = 0;
        while i < self.slots.len()
            invariant
                i <= self.slots.len(),
                keys == slot_ids(self@.slots),
                forall|k: int| 0 <= k < i ==> keys[k] != id,
            decreases self.slots.len() - i,
        {
            if self.slots[i].uuid == id {
                proof {
                    lemma_first_index(keys, id, i as int);
                }
                return Some(i);
            }
            i += 1;
        }
        proof {
            lemma_first_index_none(keys, id);
        }
        None
    }

    /// Removes the slots with identifier `id`.
    pub fn remove_slot(&mut self, id: u128)
        ensures
            final(self)@ == old(self)@.without_slot(id),
    {
        let ghost all = old(self)@.slots;
        let ghost keep = other_slots(id);
        let ghost mut k: int = 0;
        let mut i: usize = 0;
        proof {
            reveal(Seq::filter);
            assert(all.take(0).filter(keep) =~= Seq::<SlotView>::empty());
            assert(all.take(0).filter(keep) + all.skip(0) =~= all);
        }
        while i < self.slots.len()
            invariant
                0 <= k <= all.len(),
                i <= self.slots.len(),
                i == all.take(k).filter(keep).len(),
                self@.slots == all.take(k).filter(keep) + all.skip(k),
                self@.with_slots(all) == old(self)@,
                all == old(self)@.slots,
                keep == other_slots(id),
            decreases all.len() - k,
        {
            proof {
                assert(all.take(k + 1) =~= all.take(k).push(all[k]));
                all.take(k).lemma_filter_push(all[k], keep);
                assert(self@.slots[i as int] == all[k]);
                assert(self.slots@[i as int]@ == self@.slots[i as int]);
            }
            if self.slots[i].uuid == id {
                let ghost before = self@.slots;
                self.slots.remove(i);
                proof {
                    assert(self@.slots =~= before.remove(i as int));
                    assert(before.remove(i as int) =~= all.take(k).filter(keep) + all.skip(k + 1));
                }
            } else {
                i += 1;
                proof {
                    let kept = all.take(k).filter(keep);
                    assert(all.skip(k) =~= seq![all[k]] + all.skip(k + 1));
                    assert(kept + (seq![all[k]] + all.skip(k + 1)) =~= kept.push(all[k]) + all.skip(
                        k + 1,
                    ));
                }
            }
            proof {
                k = k + 1;
            }
        }
        proof {
            assert(all.skip(k).len() == 0);
            assert(all.take(k) =~= all);
            assert(self@.slots =~= all.filter(keep));
        }
    }

    /// Takes `participant` out of the event: out of the table and out of
    /// every session.
    pub fn remove_participant(&mut self, participant: u128)
        ensures
            final(self)@ == old(self)@.without_participant(participant),
    {
        broadcast use vstd::std_specs::hash::group_hash_axioms;

        self.participants.remove(&participant);
        assert(self@.participants =~= old(self)@.participants.remove(participant));
        let n = self.slots.len();
        let mut i: usize = 0;
        while i < n
            invariant
                i <= n,
                n == self.slots@.len(),
                n == old(self).slots@.len(),
                self@.participants == old(self)@.participants.remove(participant),
                self@.with_slots(old(self)@.slots).with_participants(old(self)@.participants)
                    == old(self)@,
                forall|s: int|
                    0 <= s < i ==> (#[trigger] self.slots@[s])@ == old(
                        self,
                    ).slots@[s]@.without_participant(participant),
                forall|s: int| i <= s < n ==> #[trigger] self.slots@[s] == old(self).slots@[s],
            decreases n - i,
        {
            self.slots[i].remove_participant(participant);
            i += 1;
        }
        assert(self@.slots =~= old(self)@.without_participant(participant).slots);
    }
}

} // verus!
