//! What the allocation of one slot guarantees, whatever the queues hold.

use crate::allocation::{
    all_drained, allocate_slot, best_session, lemma_best_among, lemma_step_shrinks, pending,
    step, without_participant,
};
use crate::application::{Application, ParticipantView};
use crate::session::SessionView;
use crate::slot::SlotView;
use vstd::prelude::*;

verus! {

/// How often `participant` occurs in a list of seated participants.
pub open spec fn occurrences(seated: Seq<u128>, participant: u128) -> nat
    decreases seated.len(),
{
    if seated.len() == 0 {
        0
    } else {
        occurrences(seated.drop_last(), participant) + if seated.last() == participant {
            1nat
        } else {
            0nat
        }
    }
}

/// The number of seats `participant` holds in all sessions together.
pub open spec fn seat_count(sessions: Seq<SessionView>, participant: u128) -> nat
    decreases sessions.len(),
{
    if sessions.len() == 0 {
        0
    } else {
        seat_count(sessions.drop_last(), participant) + occurrences(
            sessions.last().participants,
            participant,
        )
    }
}

/// `participant` has an application pending in `session`.
pub open spec fn applied_to(session: SessionView, participant: u128) -> bool {
    exists|i: int|
        0 <= i < session.applications.len() && (#[trigger] session.applications[i]).participant
            == participant
}

/// `participant` has an application pending in some session.
pub open spec fn applies(sessions: Seq<SessionView>, participant: u128) -> bool {
    exists|k: int| 0 <= k < sessions.len() && applied_to(#[trigger] sessions[k], participant)
}

/// `after` is `before` with seats handed out: identity and capacity are
/// untouched and nobody seated before has lost the seat.
pub open spec fn seats_added(before: SessionView, after: SessionView) -> bool {
    &&& after.uuid == before.uuid
    &&& after.name == before.name
    &&& after.description == before.description
    &&& after.seats == before.seats
    &&& before.participants.is_prefix_of(after.participants)
    &&& after.participants.len() <= before.participants.len() || after.participants.len()
        <= before.seats
    &&& forall|i: int|
        before.participants.len() <= i < after.participants.len() ==> applied_to(
            before,
            #[trigger] after.participants[i],
        )
}

/// `after` holds the same participants as `before`, with at most the
/// carried points changed.
pub open spec fn points_changed(
    before: Map<u128, ParticipantView>,
    after: Map<u128, ParticipantView>,
) -> bool {
    &&& after.dom() == before.dom()
    &&& forall|id: u128| #[trigger]
        before.contains_key(id) ==> after[id].uuid == before[id].uuid && after[id].name
            == before[id].name
}

proof fn lemma_occurrences_push(seated: Seq<u128>, added: u128, participant: u128)
    ensures
        occurrences(seated.push(added), participant) == occurrences(seated, participant) + if added
            == participant {
            1nat
        } else {
            0nat
        },
{
    assert(seated.push(added).drop_last() =~= seated);
}

/// Sessions that seat the same participants give everybody the same number
/// of seats.
pub proof fn lemma_seat_count_same(a: Seq<SessionView>, b: Seq<SessionView>, participant: u128)
    requires
        a.len() == b.len(),
        forall|k: int| 0 <= k < a.len() ==> (#[trigger] b[k]).participants == a[k].participants,
    ensures
        seat_count(b, participant) == seat_count(a, participant),
    decreases a.len(),
{
    if a.len() > 0 {
        assert forall|k: int| 0 <= k < a.drop_last().len() implies (#[trigger] b.drop_last()[k]).participants
            == a.drop_last()[k].participants by {
            assert(b.drop_last()[k] == b[k]);
        }
        lemma_seat_count_same(a.drop_last(), b.drop_last(), participant);
        assert(b.last() == b[b.len() - 1]);
    }
}

proof fn lemma_seat_count_step(
    a: Seq<SessionView>,
    b: Seq<SessionView>,
    j: int,
    participant: u128,
)
    requires
        a.len() == b.len(),
        0 <= j < a.len(),
        forall|k: int|
            0 <= k < a.len() && k != j ==> (#[trigger] b[k]).participants == a[k].participants,
    ensures
        seat_count(b, participant) + occurrences(a[j].participants, participant) == seat_count(
            a,
            participant,
        ) + occurrences(b[j].participants, participant),
    decreases a.len(),
{
    assert(b.last() == b[b.len() - 1]);
    assert(a.last() == a[a.len() - 1]);
    if j == a.len() - 1 {
        assert forall|k: int| 0 <= k < a.drop_last().len() implies (#[trigger] b.drop_last()[k]).participants
            == a.drop_last()[k].participants by {
            assert(b.drop_last()[k] == b[k]);
        }
        lemma_seat_count_same(a.drop_last(), b.drop_last(), participant);
    } else {
        assert forall|k: int| 0 <= k < a.drop_last().len() && k != j implies (
        #[trigger] b.drop_last()[k]).participants == a.drop_last()[k].participants by {
            assert(b.drop_last()[k] == b[k]);
        }
        lemma_seat_count_step(a.drop_last(), b.drop_last(), j, participant);
    }
}

/// What is left of a queue after a participant is withdrawn was in the queue
/// before and is somebody else's.
proof fn lemma_without_participant(apps: Seq<Application>, withdrawn: u128, i: int)
    requires
        0 <= i < without_participant(apps, withdrawn).len(),
    ensures
        without_participant(apps, withdrawn)[i].participant != withdrawn,
        exists|m: int|
            0 <= m < apps.len() && #[trigger] apps[m] == without_participant(apps, withdrawn)[i],
{
    let others = |a: Application| a.participant != withdrawn;
    let left = without_participant(apps, withdrawn);
    apps.lemma_filter_pred(others, i);
    assert(left.contains(left[i]));
    apps.lemma_filter_contains_rev(others, left[i]);
    let m = choose|m: int| 0 <= m < apps.len() && apps[m] == left[i];
    assert(apps[m] == left[i]);
}

/// A step creates no application: whoever has one pending after it had one
/// pending in the same session before, and is not the participant just
/// seated.
proof fn lemma_step_applicants(
    sessions: Seq<SessionView>,
    participants: Map<u128, ParticipantView>,
    j: int,
    k: int,
    participant: u128,
)
    requires
        best_session(sessions) == Some(j),
        0 <= k < sessions.len(),
        applied_to(step(sessions, participants, j).0[k], participant),
    ensures
        applied_to(sessions[k], participant),
        !sessions[j].is_full() ==> participant != sessions[j].applications[0].participant,
{
    lemma_step_shrinks(sessions, participants, j);
    let next = step(sessions, participants, j).0;
    let i = choose|i: int|
        0 <= i < next[k].applications.len() && (#[trigger] next[k].applications[i]).participant
            == participant;
    if sessions[j].is_full() {
        assert(k != j);
        assert(sessions[k].applications[i].participant == participant);
    } else {
        let granted = sessions[j].applications[0];
        if k == j {
            let rest = sessions[j].applications.remove(0);
            lemma_without_participant(rest, granted.participant, i);
            let m = choose|m: int|
                0 <= m < rest.len() && #[trigger] rest[m] == without_participant(
                    rest,
                    granted.participant,
                )[i];
            assert(sessions[j].applications[m + 1].participant == participant);
        } else {
            lemma_without_participant(sessions[k].applications, granted.participant, i);
            let m = choose|m: int|
                0 <= m < sessions[k].applications.len() && #[trigger] sessions[k].applications[m]
                    == without_participant(sessions[k].applications, granted.participant)[i];
            assert(sessions[k].applications[m].participant == participant);
        }
    }
}

/// Allocation drains every queue, hands seats only to applicants of the very
/// session, keeps everybody seated before, fills no session beyond its
/// capacity, and changes nothing of a participant but the carried points.
pub proof fn lemma_allocate_slot_outcome(
    sessions: Seq<SessionView>,
    participants: Map<u128, ParticipantView>,
)
    ensures
        allocate_slot(sessions, participants).0.len() == sessions.len(),
        all_drained(allocate_slot(sessions, participants).0, sessions.len() as int),
        forall|k: int|
            0 <= k < sessions.len() ==> seats_added(
                sessions[k],
                #[trigger] allocate_slot(sessions, participants).0[k],
            ),
        points_changed(participants, allocate_slot(sessions, participants).1),
    decreases pending(sessions),
{
    let out = allocate_slot(sessions, participants);
    match best_session(sessions) {
        Some(j) => {
            lemma_step_shrinks(sessions, participants, j);
            let next = step(sessions, participants, j);
            lemma_allocate_slot_outcome(next.0, next.1);
            assert(out == allocate_slot(next.0, next.1));
            assert forall|k: int| 0 <= k < sessions.len() implies seats_added(
                sessions[k],
                #[trigger] out.0[k],
            ) by {
                assert(seats_added(next.0[k], out.0[k]));
                assert forall|i: int|
                    sessions[k].participants.len() <= i < out.0[k].participants.len() implies applied_to(
                    sessions[k],
                    #[trigger] out.0[k].participants[i],
                ) by {
                    if i < next.0[k].participants.len() {
                        assert(!sessions[j].is_full() && k == j);
                        assert(out.0[k].participants[i] == next.0[k].participants[i]);
                        assert(sessions[j].applications[0].participant == out.0[k].participants[i]);
                    } else {
                        lemma_step_applicants(
                            sessions,
                            participants,
                            j,
                            k,
                            out.0[k].participants[i],
                        );
                    }
                }
            }
            assert(next.1.dom() =~= participants.dom());
            assert(points_changed(participants, next.1));
        },
        None => {
            lemma_best_among(sessions, sessions.len() as int);
        },
    }
}

/// Allocation gives a participant at most one seat in the slot, and none to
/// a participant without a pending application.
pub proof fn lemma_allocate_slot_one_seat(
    sessions: Seq<SessionView>,
    participants: Map<u128, ParticipantView>,
    participant: u128,
)
    ensures
        seat_count(allocate_slot(sessions, participants).0, participant) <= seat_count(
            sessions,
            participant,
        ) + 1,
        !applies(sessions, participant) ==> seat_count(
            allocate_slot(sessions, participants).0,
            participant,
        ) == seat_count(sessions, participant),
    decreases pending(sessions),
{
    match best_session(sessions) {
        Some(j) => {
            lemma_step_shrinks(sessions, participants, j);
            let next = step(sessions, participants, j);
            lemma_allocate_slot_one_seat(next.0, next.1, participant);
            if applies(next.0, participant) {
                let k = choose|k: int|
                    0 <= k < next.0.len() && applied_to(#[trigger] next.0[k], participant);
                lemma_step_applicants(sessions, participants, j, k, participant);
                assert(applied_to(sessions[k], participant));
            }
            if sessions[j].is_full() {
                lemma_seat_count_same(sessions, next.0, participant);
            } else {
                let granted = sessions[j].applications[0];
                lemma_seat_count_step(sessions, next.0, j, participant);
                lemma_occurrences_push(
                    sessions[j].participants,
                    granted.participant,
                    participant,
                );
                if granted.participant == participant {
                    assert(sessions[j].applications[0].participant == participant);
                    assert(applied_to(sessions[j], participant));
                }
            }
        },
        None => {},
    }
}

/// What allocation makes of the sessions of a slot: every queue is
/// drained, seats went only to applicants and within capacity, and nobody
/// gained more than one seat.
pub open spec fn sessions_outcome(before: Seq<SessionView>, after: Seq<SessionView>) -> bool {
    &&& after.len() == before.len()
    &&& all_drained(after, after.len() as int)
    &&& forall|k: int| 0 <= k < before.len() ==> seats_added(before[k], #[trigger] after[k])
    &&& forall|participant: u128| #[trigger]
        seat_count(after, participant) <= seat_count(before, participant) + 1
    &&& forall|participant: u128|
        !applies(before, participant) ==> #[trigger] seat_count(after, participant) == seat_count(
            before,
            participant,
        )
}

/// What allocation makes of a slot.
pub open spec fn slot_outcome(before: SlotView, after: SlotView) -> bool {
    &&& after.uuid == before.uuid
    &&& after.name == before.name
    &&& after.description == before.description
    &&& sessions_outcome(before.sessions, after.sessions)
}

/// The allocation of a slot has the outcome described by
/// [`sessions_outcome`], and changes nothing of a participant but the
/// carried points.
pub proof fn lemma_allocate_slot(
    sessions: Seq<SessionView>,
    participants: Map<u128, ParticipantView>,
)
    ensures
        sessions_outcome(sessions, allocate_slot(sessions, participants).0),
        points_changed(participants, allocate_slot(sessions, participants).1),
{
    lemma_allocate_slot_outcome(sessions, participants);
    let after = allocate_slot(sessions, participants).0;
    assert forall|participant: u128|
        seat_count(after, participant) <= seat_count(sessions, participant) + 1 && (!applies(
            sessions,
            participant,
        ) ==> seat_count(after, participant) == seat_count(sessions, participant)) by {
        lemma_allocate_slot_one_seat(sessions, participants, participant);
    }
}

} // verus!
