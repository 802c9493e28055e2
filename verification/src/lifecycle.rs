//! The life of an event: a finite-state machine with a transition table,
//! and the one operation that closes registration and distributes the
//! seats.

use crate::event::{Event, EventState, EventView};
use crate::laws::{lemma_distributed, outcome};
use vstd::prelude::*;

verus! {

/// A transition that the table does not hold.
#[derive(Debug, Clone, Copy, PartialEq, Eq, Structural)]
pub struct TransitionRejected {
    pub from: EventState,
    pub to: EventState,
}

impl EventState {
    /// The transition table. An event moves forward one state at a time,
    /// registration can be closed again before any allocation has run, and
    /// staying in a state is always allowed. Nothing else is.
    pub open spec fn allows(self, target: EventState) -> bool {
        ||| self == target
        ||| self is NotOpenedYet && target is OpenForRegistration
        ||| self is OpenForRegistration && target is NotOpenedYet
        ||| self is OpenForRegistration && target is AssigningSeats
        ||| self is AssigningSeats && target is Finished
    }

    /// Whether the table holds the transition from this state to `target`.
    pub fn can_become(&self, target: EventState) -> (allowed: bool)
        ensures
            allowed == self.allows(target),
    {
        match (*self, target) {
            (EventState::NotOpenedYet, EventState::NotOpenedYet) => true,
            (EventState::NotOpenedYet, EventState::OpenForRegistration) => true,
            (EventState::OpenForRegistration, EventState::OpenForRegistration) => true,
            (EventState::OpenForRegistration, EventState::NotOpenedYet) => true,
            (EventState::OpenForRegistration, EventState::AssigningSeats) => true,
            (EventState::AssigningSeats, EventState::AssigningSeats) => true,
            (EventState::AssigningSeats, EventState::Finished) => true,
            (EventState::Finished, EventState::Finished) => true,
            _ => false,
        }
    }
}

impl EventView {
    /// The event after registration was closed and the seats distributed:
    /// every queue is ranked against the participants as they stand, then
    /// the slots are allocated in stored order, and the event is finished.
    pub open spec fn distributed(self) -> EventView {
        self.with_state(EventState::AssigningSeats).ranked().allocated().with_state(
            EventState::Finished,
        )
    }
}

impl Event {
    /// Moves the event to `target` if the table holds the transition, and
    /// leaves it alone if not.
    pub fn transition_to(&mut self, target: EventState) -> (result: Result<
        (),
        TransitionRejected,
    >)
        ensures
            old(self).state.allows(target) ==> result is Ok && final(self)@ == old(
                self,
            )@.with_state(target),
            !old(self).state.allows(target) ==> result == Err::<(), TransitionRejected>(
                TransitionRejected { from: old(self).state, to: target },
            ) && final(self)@ == old(self)@,
    {
        if self.state.can_become(target) {
            self.state = target;
            Ok(())
        } else {
            Err(TransitionRejected { from: self.state, to: target })
        }
    }

    /// Closes registration and distributes the seats. Only an event that is
    /// open for registration can be distributed; any other is rejected and
    /// left as it is.
    ///
    /// Scores are computed once, before any seat is assigned: the carried
    /// points that allocation writes are read by the next distribution, not
    /// by later slots of this one.
    pub fn close_and_distribute(&mut self) -> (result: Result<(), TransitionRejected>)
        requires
            old(self).state is OpenForRegistration ==> old(self)@.scorable(),
        ensures
            old(self).state is OpenForRegistration ==> result is Ok && final(self)@ == old(
                self,
            )@.distributed() && outcome(old(self)@, final(self)@),
            !(old(self).state is OpenForRegistration) ==> result == Err::<(), TransitionRejected>(
                TransitionRejected { from: old(self).state, to: EventState::AssigningSeats },
            ) && final(self)@ == old(self)@,
    {
        if self.state != EventState::OpenForRegistration {
            return Err(TransitionRejected { from: self.state, to: EventState::AssigningSeats });
        }
        self.state = EventState::AssigningSeats;
        self.rank_all();
        self.allocate_participants();
        self.state = EventState::Finished;
        proof {
            lemma_distributed(old(self)@);
        }
        Ok(())
    }
}

} // verus!
