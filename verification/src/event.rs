//! Events: the aggregate that owns slots and participants.

use crate::allocation::allocate_slot;
use crate::application::{participant_views, Participant, ParticipantView};
use crate::ident::{fresh_id, is_random_id};
use crate::laws::{lemma_allocated, seated};
use crate::ranking::scorable;
use crate::seating::{points_changed, slot_outcome};
use crate::session::{text_view, Session};
use crate::slot::{slot_views, Slot, SlotView};
use std::collections::HashMap;
use vstd::prelude::*;

verus! {

/// Where an event stands in its life.
#[derive(Debug, Clone, Copy, PartialEq, Eq, Structural)]
pub enum EventState {
    /// The event doesn't allow registrations yet.
    NotOpenedYet,
    /// Participants can set their preferences.
    OpenForRegistration,
    /// Registration is closed and seats are being assigned.
    AssigningSeats,
    /// The assignment is finished and can be read.
    Finished,
}

impl Default for EventState {
    fn default() -> (state: EventState)
        ensures
            state == EventState::NotOpenedYet,
    {
        EventState::NotOpenedYet
    }
}

/// An event with its slots, in processing order, and its participants by
/// identifier.
#[derive(Debug, Clone)]
pub struct Event {
    pub uuid: u128,
    pub name: String,
    pub description: Option<String>,
    pub slots: Vec<Slot>,
    pub participants: HashMap<u128, Participant>,
    pub state: EventState,
}

/// The mathematical value of an [`Event`].
pub struct EventView {
    pub uuid: u128,
    pub name: Seq<char>,
    pub description: Option<Seq<char>>,
    pub slots: Seq<SlotView>,
    pub participants: Map<u128, ParticipantView>,
    pub state: EventState,
}

impl View for Event {
    type V = EventView;

    open spec fn view(&self) -> EventView {
        EventView {
            uuid: self.uuid,
            name: self.name@,
            description: text_view(self.description),
            slots: slot_views(self.slots@),
            participants: participant_views(self.participants@),
            state: self.state,
        }
    }
}

impl EventView {
    /// The same event in another state.
    pub open spec fn with_state(self, state: EventState) -> EventView {
        EventView { state, ..self }
    }

    /// Every pending application of a known participant can be scored.
    pub open spec fn scorable(self) -> bool {
        forall|i: int|
            0 <= i < self.slots.len() ==> (#[trigger] self.slots[i]).scorable(self.participants)
    }

    /// The event with every queue ranked against its participants.
    pub open spec fn ranked(self) -> EventView {
        EventView {
            slots: Seq::new(self.slots.len(), |i: int| self.slots[i].ranked(self.participants)),
            ..self
        }
    }

    /// The event after the seats of slot `i` have been allocated.
    pub open spec fn allocate_in_slot(self, i: int) -> EventView {
        let out = allocate_slot(self.slots[i].sessions, self.participants);
        EventView {
            slots: self.slots.update(i, self.slots[i].with_sessions(out.0)),
            participants: out.1,
            ..self
        }
    }

    /// The event after the first `n` slots have been allocated, in order.
    pub open spec fn allocate_first(self, n: int) -> EventView
        decreases n,
    {
        if n <= 0 {
            self
        } else {
            self.allocate_first(n - 1).allocate_in_slot(n - 1)
        }
    }

    /// The event after every slot has been allocated, in stored order.
    pub open spec fn allocated(self) -> EventView {
        self.allocate_first(self.slots.len() as int)
    }
}

/// Allocating slots never changes how many slots there are.
pub proof fn lemma_allocate_first_len(event: EventView, n: int)
    requires
        n <= event.slots.len(),
    ensures
        event.allocate_first(n).slots.len() == event.slots.len(),
    decreases n,
{
    if n > 0 {
        lemma_allocate_first_len(event, n - 1);
    }
}

impl Event {
    /// An event with a fresh identifier, no slots and no participants, not
    /// yet open.
    pub fn new(name: String, description: Option<String>) -> (event: Event)
        ensures
            is_random_id(event.uuid),
            event@ == (EventView {
                uuid: event.uuid,
                name: name@,
                description: text_view(description),
                slots: Seq::empty(),
                participants: Map::empty(),
                state: EventState::NotOpenedYet,
            }),
    {
        let event = Event {
            uuid: fresh_id(),
            name,
            description,
            slots: Vec::new(),
            participants: HashMap::new(),
            state: EventState::default(),
        };
        assert(event@.slots =~= Seq::empty());
        assert(event@.participants =~= Map::empty());
        event
    }

    /// Allocates the seats of the slot at `index`.
    pub fn allocate_participants_in_slot(&mut self, index: usize)
        requires
            index < old(self).slots.len(),
        ensures
            final(self)@ == old(self)@.allocate_in_slot(index as int),
            slot_outcome(old(self)@.slots[index as int], final(self)@.slots[index as int]),
            points_changed(old(self)@.participants, final(self)@.participants),
    {
        assert(old(self)@.slots[index as int] == old(self).slots@[index as int]@);
        self.slots[index].allocate(&mut self.participants);
        assert(self@.slots =~= old(self)@.allocate_in_slot(index as int).slots);
    }

    /// Allocates the seats of every slot, in stored order.
    pub fn allocate_participants(&mut self)
        ensures
            final(self)@ == old(self)@.allocated(),
            seated(old(self)@, final(self)@),
    {
        proof {
            lemma_allocated(old(self)@);
        }
        let n = self.slots.len();
        let mut i: usize = 0;
        while i < n
            invariant
                i <= n,
                n == self.slots@.len(),
                n == old(self).slots@.len(),
                self@ == old(self)@.allocate_first(i as int),
            decreases n - i,
        {
            let ghost before = self@;
            self.allocate_participants_in_slot(i);
            assert(self@.slots.len() == before.slots.len());
            i += 1;
        }
    }

    /// Whether every queue of the event can be ranked: whether every score
    /// of a known participant fits the machine integer.
    pub fn is_scorable(&self) -> (ok: bool)
        ensures
            ok == self@.scorable(),
    {
        let mut i: usize = 0;
        while i < self.slots.len()
            invariant
                i <= self.slots.len(),
                forall|s: int|
                    0 <= s < i ==> (#[trigger] self@.slots[s]).scorable(self@.participants),
            decreases self.slots.len() - i,
        {
            assert(self@.slots[i as int] == self.slots@[i as int]@);
            if !self.slots[i].is_scorable(&self.participants) {
                return false;
            }
            i += 1;
        }
        true
    }

    /// Ranks the queue of every session of every slot against the
    /// participants of the event.
    pub fn rank_all(&mut self)
        requires
            old(self)@.scorable(),
        ensures
            final(self)@ == old(self)@.ranked(),
    {
        let n = self.slots.len();
        let mut i: usize = 0;
        while i < n
            invariant
                i <= n,
                n == self.slots@.len(),
                n == old(self).slots@.len(),
                old(self)@.scorable(),
                self@.participants == old(self)@.participants,
                (EventView { slots: old(self)@.slots, ..self@ }) == old(self)@,
                forall|s: int|
                    0 <= s < i ==> (#[trigger] self.slots@[s])@ == old(self)@.ranked().slots[s],
                forall|s: int| i <= s < n ==> #[trigger] self.slots@[s] == old(self).slots@[s],
            decreases n - i,
        {
            assert(old(self)@.slots[i as int] == self.slots@[i as int]@);
            self.slots[i].rank_sessions(&self.participants);
            i += 1;
        }
        assert(self@.slots =~= old(self)@.ranked().slots);
    }
}

impl Session {
    /// Ranks the pending applications of this session against the
    /// participants of `event`: applications of participants the event does
    /// not know are dropped, the others are scored and ordered best-first.
    pub fn rank_applications(&mut self, event: &Event)
        requires
            scorable(old(self).applications@, event@.participants),
        ensures
            final(self)@ == old(self)@.with_applications(
                crate::ranking::ranked(old(self).applications@, event@.participants),
            ),
            crate::ranking::best_first(final(self).applications@),
            final(self).applications@.to_multiset() == crate::ranking::scored(
                old(self).applications@,
                event@.participants,
            ).to_multiset(),
    {
        self.rank_against(&event.participants);
    }
}

} // verus!
