//! What a distribution guarantees for the whole event.

use crate::allocation::allocate_slot;
use crate::application::ParticipantView;
use crate::event::{lemma_allocate_first_len, Event, EventState, EventView};
use crate::ranking::{lemma_ranked_origin, ranked, rescored};
use crate::seating::{
    applied_to, applies, lemma_allocate_slot, lemma_seat_count_same, points_changed, seat_count,
    seats_added, slot_outcome,
};
use crate::session::SessionView;
use vstd::prelude::*;

verus! {

/// What allocation makes of an event: every slot is allocated, and
/// participants differ at most in carried points.
pub open spec fn seated(before: EventView, after: EventView) -> bool {
    &&& after.uuid == before.uuid
    &&& after.name == before.name
    &&& after.description == before.description
    &&& after.slots.len() == before.slots.len()
    &&& forall|i: int|
        0 <= i < before.slots.len() ==> slot_outcome(before.slots[i], #[trigger] after.slots[i])
    &&& points_changed(before.participants, after.participants)
}

/// What a distribution makes of an event: the seats are allocated and the
/// event is finished.
pub open spec fn outcome(before: EventView, after: EventView) -> bool {
    &&& seated(before, after)
    &&& after.state is Finished
}

/// Allocating the first `n` slots allocates each of them from its own
/// queues and leaves the others alone.
proof fn lemma_allocate_first(event: EventView, n: int, i: int)
    requires
        0 <= n <= event.slots.len(),
        0 <= i < event.slots.len(),
    ensures
        event.allocate_first(n).uuid == event.uuid,
        event.allocate_first(n).name == event.name,
        event.allocate_first(n).description == event.description,
        event.allocate_first(n).state == event.state,
        event.allocate_first(n).slots.len() == event.slots.len(),
        points_changed(event.participants, event.allocate_first(n).participants),
        i < n ==> event.allocate_first(n).slots[i] == event.slots[i].with_sessions(
            allocate_slot(event.slots[i].sessions, event.allocate_first(i).participants).0,
        ),
        i >= n ==> event.allocate_first(n).slots[i] == event.slots[i],
    decreases n,
{
    if n > 0 {
        lemma_allocate_first(event, n - 1, i);
        lemma_allocate_first(event, n - 1, n - 1);
        let before = event.allocate_first(n - 1);
        lemma_allocate_slot(before.slots[n - 1].sessions, before.participants);
        assert(event.allocate_first(n).participants.dom() =~= event.participants.dom());
    }
}

/// Ranking creates no application and moves none to another session.
proof fn lemma_ranked_applicant(
    session: SessionView,
    participants: Map<u128, ParticipantView>,
    participant: u128,
)
    requires
        applied_to(
            session.with_applications(ranked(session.applications, participants)),
            participant,
        ),
    ensures
        applied_to(session, participant),
{
    let out = ranked(session.applications, participants);
    let i = choose|i: int| 0 <= i < out.len() && (#[trigger] out[i]).participant == participant;
    lemma_ranked_origin(session.applications, participants, i);
    let m = choose|m: int|
        0 <= m < session.applications.len() && participants.contains_key(
            (#[trigger] session.applications[m]).participant,
        ) && rescored(participants)(session.applications[m]) == out[i];
    assert(session.applications[m].participant == participant);
}

/// The guarantees of an allocation of all slots, slot by slot.
proof fn lemma_allocated_slot(event: EventView, i: int)
    requires
        0 <= i < event.slots.len(),
    ensures
        slot_outcome(event.slots[i], event.allocated().slots[i]),
{
    lemma_allocate_first(event, event.slots.len() as int, i);
    lemma_allocate_slot(event.slots[i].sessions, event.allocate_first(i).participants);
}

/// An allocation of all slots has the outcome described by [`seated`], and
/// leaves the state of the event alone.
pub proof fn lemma_allocated(event: EventView)
    ensures
        seated(event, event.allocated()),
        event.allocated().state == event.state,
{
    let n = event.slots.len() as int;
    lemma_allocate_first_len(event, n);
    if n > 0 {
        lemma_allocate_first(event, n, 0);
    }
    assert forall|i: int| 0 <= i < event.slots.len() implies slot_outcome(
        event.slots[i],
        #[trigger] event.allocated().slots[i],
    ) by {
        lemma_allocated_slot(event, i);
    }
}

/// The guarantees of a distribution, slot by slot.
proof fn lemma_distributed_slot(event: EventView, i: int)
    requires
        0 <= i < event.slots.len(),
    ensures
        event.distributed().slots.len() == event.slots.len(),
        slot_outcome(event.slots[i], event.distributed().slots[i]),
{
    let lined_up = event.with_state(EventState::AssigningSeats).ranked();
    lemma_allocated(lined_up);
    let before = event.slots[i];
    let queued = lined_up.slots[i];
    let after = event.distributed().slots[i];
    assert(slot_outcome(queued, after));
    assert forall|k: int| 0 <= k < before.sessions.len() implies seats_added(
        before.sessions[k],
        #[trigger] after.sessions[k],
    ) by {
        assert(seats_added(queued.sessions[k], after.sessions[k]));
        assert forall|s: int|
            before.sessions[k].participants.len() <= s < after.sessions[k].participants.len() implies applied_to(
            before.sessions[k],
            #[trigger] after.sessions[k].participants[s],
        ) by {
            lemma_ranked_applicant(
                before.sessions[k],
                event.participants,
                after.sessions[k].participants[s],
            );
        }
    }
    assert forall|participant: u128|
        seat_count(after.sessions, participant) <= seat_count(before.sessions, participant) + 1
        && (!applies(before.sessions, participant) ==> seat_count(after.sessions, participant)
        == seat_count(before.sessions, participant)) by {
        lemma_seat_count_same(before.sessions, queued.sessions, participant);
        if applies(queued.sessions, participant) {
            let k = choose|k: int|
                0 <= k < queued.sessions.len() && applied_to(
                    #[trigger] queued.sessions[k],
                    participant,
                );
            lemma_ranked_applicant(before.sessions[k], event.participants, participant);
            assert(applied_to(before.sessions[k], participant));
        }
    }
}

/// A distribution has the outcome described by [`outcome`].
pub proof fn lemma_distributed(event: EventView)
    ensures
        outcome(event, event.distributed()),
{
    let lined_up = event.with_state(EventState::AssigningSeats).ranked();
    lemma_allocated(lined_up);
    assert forall|i: int| 0 <= i < event.slots.len() implies slot_outcome(
        event.slots[i],
        #[trigger] event.distributed().slots[i],
    ) by {
        lemma_distributed_slot(event, i);
    }
}

/// Capacity: a session that seats no more participants than it has seats
/// before a distribution does so after it.
pub proof fn law_capacity(event: Event, slot: int, session: int)
    requires
        0 <= slot < event@.slots.len(),
        0 <= session < event@.slots[slot].sessions.len(),
        event@.slots[slot].sessions[session].within_capacity(),
    ensures
        event@.distributed().slots[slot].sessions[session].within_capacity(),
{
    lemma_distributed_slot(event@, slot);
    let after = event@.distributed().slots[slot];
    assert(seats_added(event@.slots[slot].sessions[session], after.sessions[session]));
}

/// One seat per slot: a distribution gives a participant at most one seat
/// in a slot, so a participant without a seat in the slot before holds at
/// most one after.
pub proof fn law_one_seat_per_slot(event: Event, slot: int, participant: u128)
    requires
        0 <= slot < event@.slots.len(),
    ensures
        seat_count(event@.distributed().slots[slot].sessions, participant) <= seat_count(
            event@.slots[slot].sessions,
            participant,
        ) + 1,
        seat_count(event@.slots[slot].sessions, participant) == 0 ==> seat_count(
            event@.distributed().slots[slot].sessions,
            participant,
        ) <= 1,
{
    lemma_distributed_slot(event@, slot);
}

/// Queue drain: after a distribution no session has a pending application.
pub proof fn law_queues_drained(event: Event, slot: int, session: int)
    requires
        0 <= slot < event@.slots.len(),
        0 <= session < event@.slots[slot].sessions.len(),
    ensures
        event@.distributed().slots[slot].sessions[session].applications == Seq::<
            crate::application::Application,
        >::empty(),
{
    lemma_distributed_slot(event@, slot);
    let after = event@.distributed().slots[slot];
    assert(after.sessions[session].applications.len() == 0);
    assert(after.sessions[session].applications =~= Seq::empty());
}

/// No application, no seat: a participant without a pending application in
/// a slot holds exactly the seats held before.
pub proof fn law_no_seat_without_application(event: Event, slot: int, participant: u128)
    requires
        0 <= slot < event@.slots.len(),
        !applies(event@.slots[slot].sessions, participant),
    ensures
        seat_count(event@.distributed().slots[slot].sessions, participant) == seat_count(
            event@.slots[slot].sessions,
            participant,
        ),
{
    lemma_distributed_slot(event@, slot);
}

/// Determinism: events of equal value are distributed to equal values,
/// whatever order their participant tables are stored in.
pub proof fn law_deterministic(first: Event, second: Event)
    requires
        first@ == second@,
    ensures
        first@.distributed() == second@.distributed(),
{
}

} // verus!
