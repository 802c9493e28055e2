//! Greedy seat allocation within one slot.
//!
//! The allocation repeats one step until no session of the slot has a
//! pending application: it selects the session whose first pending
//! application scores highest (the later session on a tie), and either
//! seats that application's participant or, if the session is full, drops
//! everything still pending there. A seated participant leaves every other
//! queue of the slot and carries away points keyed by the rank granted.

use crate::application::{participant_views, Application, Participant, ParticipantView};
use crate::seating::{lemma_allocate_slot, points_changed, slot_outcome};
use crate::session::{Session, SessionView};
use crate::slot::Slot;
use std::collections::HashMap;
use vstd::prelude::*;

verus! {

/// The score of a session's first pending application.
pub open spec fn top_points(session: SessionView) -> nat {
    session.applications[0].points()
}

/// The session selected among the first `n`: the last one whose first
/// pending application scores at least as high as every other's.
pub open spec fn best_among(sessions: Seq<SessionView>, n: int) -> Option<int>
    decreases n,
{
    if n <= 0 {
        None
    } else {
        let k = n - 1;
        match best_among(sessions, k) {
            Some(j) => if sessions[k].applications.len() > 0 && top_points(sessions[j])
                <= top_points(sessions[k]) {
                Some(k)
            } else {
                Some(j)
            },
            None => if sessions[k].applications.len() > 0 {
                Some(k)
            } else {
                None
            },
        }
    }
}

/// The session the next step works on, if any application is pending.
pub open spec fn best_session(sessions: Seq<SessionView>) -> Option<int> {
    best_among(sessions, sessions.len() as int)
}

/// `j` has a pending application, none scores higher, and every later
/// session with a pending application scores strictly lower.
pub open spec fn is_selected(sessions: Seq<SessionView>, n: int, j: int) -> bool {
    &&& 0 <= j < n
    &&& sessions[j].applications.len() > 0
    &&& forall|k: int|
        0 <= k < n && (#[trigger] sessions[k]).applications.len() > 0 ==> top_points(sessions[k])
            <= top_points(sessions[j]) && (k > j ==> top_points(sessions[k]) < top_points(
            sessions[j],
        ))
}

/// None of the first `n` sessions has a pending application.
pub open spec fn all_drained(sessions: Seq<SessionView>, n: int) -> bool {
    forall|k: int| 0 <= k < n ==> (#[trigger] sessions[k]).applications.len() == 0
}

/// The selection rule in words: `best_among` finds the selected session, or
/// nothing where nothing is pending.
pub proof fn lemma_best_among(sessions: Seq<SessionView>, n: int)
    requires
        0 <= n <= sessions.len(),
    ensures
        match best_among(sessions, n) {
            Some(j) => is_selected(sessions, n, j),
            None => all_drained(sessions, n),
        },
    decreases n,
{
    if n > 0 {
        lemma_best_among(sessions, n - 1);
    }
}

/// The applications of `apps` that are not `participant`'s.
pub open spec fn without_participant(apps: Seq<Application>, participant: u128) -> Seq<
    Application,
> {
    apps.filter(|a: Application| a.participant != participant)
}

/// Session `j` is full: everything still pending there is dropped.
pub open spec fn exhaust(sessions: Seq<SessionView>, j: int) -> Seq<SessionView> {
    sessions.update(j, sessions[j].with_applications(Seq::empty()))
}

/// The first pending application of session `j` is granted: its participant
/// takes a seat there and leaves every queue of the slot.
pub open spec fn assign(sessions: Seq<SessionView>, j: int) -> Seq<SessionView> {
    let granted = sessions[j].applications[0];
    Seq::new(
        sessions.len(),
        |k: int|
            if k == j {
                SessionView {
                    participants: sessions[j].participants.push(granted.participant),
                    applications: without_participant(
                        sessions[j].applications.remove(0),
                        granted.participant,
                    ),
                    ..sessions[j]
                }
            } else {
                sessions[k].with_applications(
                    without_participant(sessions[k].applications, granted.participant),
                )
            },
    )
}

/// The participant of a granted application, if known, has the carried
/// points overwritten by the value for the rank granted.
pub open spec fn carry(participants: Map<u128, ParticipantView>, granted: Application) -> Map<
    u128,
    ParticipantView,
> {
    if participants.contains_key(granted.participant) {
        participants.insert(
            granted.participant,
            ParticipantView {
                points: granted.priority.carry_over() as usize,
                ..participants[granted.participant]
            },
        )
    } else {
        participants
    }
}

/// One step of the allocation on the selected session `j`.
pub open spec fn step(
    sessions: Seq<SessionView>,
    participants: Map<u128, ParticipantView>,
    j: int,
) -> (Seq<SessionView>, Map<u128, ParticipantView>) {
    if sessions[j].is_full() {
        (exhaust(sessions, j), participants)
    } else {
        (assign(sessions, j), carry(participants, sessions[j].applications[0]))
    }
}

/// The number of pending applications in all sessions together.
pub open spec fn pending(sessions: Seq<SessionView>) -> nat
    decreases sessions.len(),
{
    if sessions.len() == 0 {
        0
    } else {
        pending(sessions.drop_last()) + sessions.last().applications.len()
    }
}

/// Queues that are nowhere longer do not hold more applications in total.
pub proof fn lemma_pending_monotone(a: Seq<SessionView>, b: Seq<SessionView>)
    requires
        a.len() == b.len(),
        forall|k: int|
            0 <= k < a.len() ==> (#[trigger] a[k]).applications.len() <= b[k].applications.len(),
    ensures
        pending(a) <= pending(b),
    decreases a.len(),
{
    if a.len() > 0 {
        assert forall|k: int| 0 <= k < a.drop_last().len() implies (#[trigger] a.drop_last()[k]).applications.len()
            <= b.drop_last()[k].applications.len() by {
            assert(a.drop_last()[k] == a[k]);
        }
        lemma_pending_monotone(a.drop_last(), b.drop_last());
        assert(a.last() == a[a.len() - 1]);
    }
}

/// Queues that are nowhere longer and shorter at `j` hold fewer applications
/// in total.
pub proof fn lemma_pending_shrinks(a: Seq<SessionView>, b: Seq<SessionView>, j: int)
    requires
        a.len() == b.len(),
        0 <= j < a.len(),
        a[j].applications.len() < b[j].applications.len(),
        forall|k: int|
            0 <= k < a.len() ==> (#[trigger] a[k]).applications.len() <= b[k].applications.len(),
    ensures
        pending(a) < pending(b),
    decreases a.len(),
{
    assert forall|k: int| 0 <= k < a.drop_last().len() implies (#[trigger] a.drop_last()[k]).applications.len()
        <= b.drop_last()[k].applications.len() by {
        assert(a.drop_last()[k] == a[k]);
    }
    assert(a.last() == a[a.len() - 1]);
    if j == a.len() - 1 {
        lemma_pending_monotone(a.drop_last(), b.drop_last());
    } else {
        lemma_pending_shrinks(a.drop_last(), b.drop_last(), j);
    }
}

/// Every step removes at least one pending application.
pub proof fn lemma_step_shrinks(
    sessions: Seq<SessionView>,
    participants: Map<u128, ParticipantView>,
    j: int,
)
    requires
        best_session(sessions) == Some(j),
    ensures
        0 <= j < sessions.len(),
        sessions[j].applications.len() > 0,
        step(sessions, participants, j).0.len() == sessions.len(),
        pending(step(sessions, participants, j).0) < pending(sessions),
{
    broadcast use vstd::seq_lib::group_filter_ensures;

    lemma_best_among(sessions, sessions.len() as int);
    let next = step(sessions, participants, j).0;
    lemma_pending_shrinks(next, sessions, j);
}

/// The slot after allocation: the step is repeated until nothing is pending.
pub open spec fn allocate_slot(
    sessions: Seq<SessionView>,
    participants: Map<u128, ParticipantView>,
) -> (Seq<SessionView>, Map<u128, ParticipantView>)
    decreases pending(sessions),
{
    match best_session(sessions) {
        Some(j) => {
            proof {
                lemma_step_shrinks(sessions, participants, j);
            }
            let next = step(sessions, participants, j);
            allocate_slot(next.0, next.1)
        },
        None => (sessions, participants),
    }
}

/// Drops `participant`'s applications from a queue, keeping the order of
/// the others.
pub(crate) fn retain_others(apps: &mut Vec<Application>, participant: u128)
    ensures
        final(apps)@ == without_participant(old(apps)@, participant),
{
    let mut kept: Vec<Application> = Vec::new();
    let mut i: usize = 0;
    proof {
        reveal(Seq::filter);
        assert(apps@.take(0) =~= Seq::<Application>::empty());
    }
    while i < apps.len()
        invariant
            i <= apps.len(),
            apps@ == old(apps)@,
            kept@ == without_participant(apps@.take(i as int), participant),
        decreases apps.len() - i,
    {
        let a = apps[i];
        proof {
            assert(apps@.take(i + 1) =~= apps@.take(i as int).push(a));
            apps@.take(i as int).lemma_filter_push(
                a,
                |a: Application| a.participant != participant,
            );
        }
        if a.participant != participant {
            kept.push(a);
        }
        i += 1;
    }
    proof {
        assert(apps@.take(apps.len() as int) =~= apps@);
    }
    *apps = kept;
}

/// Drops `participant`'s applications from every queue of the slot.
fn withdraw(sessions: &mut Vec<Session>, participant: u128)
    ensures
        final(sessions)@.len() == old(sessions)@.len(),
        forall|k: int|
            0 <= k < old(sessions)@.len() ==> (#[trigger] final(sessions)@[k])@ == old(
                sessions,
            )@[k]@.with_applications(
                without_participant(old(sessions)@[k].applications@, participant),
            ),
{
    let n = sessions.len();
    let mut k: usize = 0;
    while k < n
        invariant
            k <= n,
            n == sessions@.len(),
            n == old(sessions)@.len(),
            forall|i: int|
                0 <= i < k ==> (#[trigger] sessions@[i])@ == old(sessions)@[i]@.with_applications(
                    without_participant(old(sessions)@[i].applications@, participant),
                ),
            forall|i: int| k <= i < n ==> #[trigger] sessions@[i] == old(sessions)@[i],
        decreases n - k,
    {
        retain_others(&mut sessions[k].applications, participant);
        k += 1;
    }
}

/// Overwrites the carried points of the participant of a granted
/// application, if the participant is known.
fn carry_points(participants: &mut HashMap<u128, Participant>, granted: &Application)
    ensures
        participant_views(final(participants)@) == carry(
            participant_views(old(participants)@),
            *granted,
        ),
{
    broadcast use vstd::std_specs::hash::group_hash_axioms;

    match participants.remove(&granted.participant) {
        Some(mut participant) => {
            participant.points_from_previous_rounds = granted.priority.carried_points();
            participants.insert(granted.participant, participant);
            assert(participant_views(participants@) =~= carry(
                participant_views(old(participants)@),
                *granted,
            ));
        },
        None => {
            assert(participant_views(participants@) =~= participant_views(old(participants)@));
        },
    }
}

impl Slot {
    /// The position of the session the next allocation step works on.
    fn best_session_index(&self) -> (best: Option<usize>)
        ensures
            match best {
                Some(j) => best_session(self@.sessions) == Some(j as int),
                None => best_session(self@.sessions) is None,
            },
    {
        let ghost views = self@.sessions;
        let mut best: Option<usize> = None;
        let mut highscore: usize = 0;
        let mut i: usize = 0;
        while i < self.sessions.len()
            invariant
                i <= self.sessions.len(),
                views == self@.sessions,
                match best {
                    Some(j) => best_among(views, i as int) == Some(j as int) && j < i && highscore
                        == top_points(views[j as int]),
                    None => best_among(views, i as int) is None,
                },
            decreases self.sessions.len() - i,
        {
            let session = &self.sessions[i];
            assert(views[i as int] == session@);
            if session.applications.len() > 0 {
                let points = match session.applications[0].calculated_points {
                    Some(p) => p,
                    None => 0,
                };
                if best.is_none() || highscore <= points {
                    highscore = points;
                    best = Some(i);
                }
            }
            i += 1;
        }
        best
    }

    /// The session reference of the application that the next allocation
    /// step looks at: the first pending application of the selected session.
    pub fn find_session_with_highest_ranked_application(&self) -> (found: Option<u128>)
        ensures
            found == match best_session(self@.sessions) {
                Some(j) => Some(self@.sessions[j].applications[0].session_uuid),
                None => None,
            },
    {
        match self.best_session_index() {
            Some(j) => {
                proof {
                    lemma_best_among(self@.sessions, self@.sessions.len() as int);
                }
                Some(self.sessions[j].applications[0].session_uuid)
            },
            None => None,
        }
    }

    /// Allocates the seats of this slot, updating the carried points in
    /// `participants`.
    pub fn allocate(&mut self, participants: &mut HashMap<u128, Participant>)
        ensures
            final(self)@ == old(self)@.with_sessions(
                allocate_slot(old(self)@.sessions, participant_views(old(participants)@)).0,
            ),
            participant_views(final(participants)@) == allocate_slot(
                old(self)@.sessions,
                participant_views(old(participants)@),
            ).1,
            slot_outcome(old(self)@, final(self)@),
            points_changed(
                participant_views(old(participants)@),
                participant_views(final(participants)@),
            ),
    {
        proof {
            lemma_allocate_slot(old(self)@.sessions, participant_views(old(participants)@));
        }
        let mut next = self.best_session_index();
        while next.is_some()
            invariant
                self@.with_sessions(old(self)@.sessions) == old(self)@,
                allocate_slot(self@.sessions, participant_views(participants@)) == allocate_slot(
                    old(self)@.sessions,
                    participant_views(old(participants)@),
                ),
                match next {
                    Some(j) => best_session(self@.sessions) == Some(j as int),
                    None => best_session(self@.sessions) is None,
                },
            decreases pending(self@.sessions),
        {
            let j = next.unwrap();
            let ghost before = self@.sessions;
            let ghost points_before = participant_views(participants@);
            proof {
                lemma_step_shrinks(before, points_before, j as int);
                assert(before[j as int] == self.sessions@[j as int]@);
            }
            if self.sessions[j].participants.len() >= self.sessions[j].seats {
                self.sessions[j].applications = Vec::new();
                assert(self@.sessions =~= exhaust(before, j as int));
            } else {
                let granted = self.sessions[j].applications.remove(0);
                self.sessions[j].participants.push(granted.participant);
                withdraw(&mut self.sessions, granted.participant);
                carry_points(participants, &granted);
                assert(self@.sessions =~= assign(before, j as int));
            }
            next = self.best_session_index();
        }
    }
}

} // verus!
