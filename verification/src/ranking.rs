//! Scoring and ranking of a session's pending applications.
//!
//! Ranking keeps the applications whose participant is known, scores each
//! one, and orders them best-first: by score, ties broken by the
//! application's identifier. The identifier is an arbitrary but fixed
//! secondary key; it makes the order deterministic, not fair.

use crate::application::{participant_views, Application, Participant, ParticipantView};
use crate::priority::score;
use crate::session::Session;
use crate::slot::{Slot, SlotView};
use std::collections::HashMap;
use vstd::prelude::*;

verus! {

/// The first component of the order: an unscored application sorts below
/// every scored one.
pub open spec fn points_key(a: Application) -> int {
    match a.calculated_points {
        Some(p) => p as int,
        None => -1,
    }
}

/// `a` is ordered strictly below `b`: lower score, or equal score and smaller
/// identifier.
pub open spec fn below(a: Application, b: Application) -> bool {
    points_key(a) < points_key(b) || (points_key(a) == points_key(b) && a.uuid < b.uuid)
}

/// No application is followed by one that is ordered above it.
pub open spec fn best_first(s: Seq<Application>) -> bool {
    forall|i: int, j: int| 0 <= i < j < s.len() ==> !below(s[i], s[j])
}

/// The applications whose participant is in the table.
pub open spec fn is_known(participants: Map<u128, ParticipantView>) -> spec_fn(
    Application,
) -> bool {
    |a: Application| participants.contains_key(a.participant)
}

/// The application with the score its participant gives it.
pub open spec fn rescored(participants: Map<u128, ParticipantView>) -> spec_fn(Application)
    -> Application {
    |a: Application|
        a.with_points(
            score(participants[a.participant].points as nat, a.priority) as usize,
        )
}

/// Every score of a known participant fits the machine integer.
pub open spec fn scorable(
    apps: Seq<Application>,
    participants: Map<u128, ParticipantView>,
) -> bool {
    forall|i: int|
        0 <= i < apps.len() && participants.contains_key(#[trigger] apps[i].participant) ==> score(
            participants[apps[i].participant].points as nat,
            apps[i].priority,
        ) <= usize::MAX
}

/// The applications of known participants, each with its score, in the
/// order they came in.
pub open spec fn scored(apps: Seq<Application>, participants: Map<u128, ParticipantView>) -> Seq<
    Application,
> {
    apps.filter(is_known(participants)).map_values(rescored(participants))
}

/// `sorted` with `a` placed behind every application that is not ordered
/// below it.
pub open spec fn insert_ranked(sorted: Seq<Application>, a: Application) -> Seq<Application>
    decreases sorted.len(),
{
    if sorted.len() > 0 && below(sorted.last(), a) {
        insert_ranked(sorted.drop_last(), a).push(sorted.last())
    } else {
        sorted.push(a)
    }
}

/// The stable best-first arrangement of `s`: applications that compare equal
/// keep their relative order.
pub open spec fn sort_ranked(s: Seq<Application>) -> Seq<Application>
    decreases s.len(),
{
    if s.len() == 0 {
        s
    } else {
        insert_ranked(sort_ranked(s.drop_last()), s.last())
    }
}

/// The queue of a session after ranking.
pub open spec fn ranked(apps: Seq<Application>, participants: Map<u128, ParticipantView>) -> Seq<
    Application,
> {
    sort_ranked(scored(apps, participants))
}

/// Where `insert_ranked` puts `a`: the start of the trailing run of
/// applications ordered below it.
pub open spec fn insert_index(sorted: Seq<Application>, a: Application) -> int
    decreases sorted.len(),
{
    if sorted.len() > 0 && below(sorted.last(), a) {
        insert_index(sorted.drop_last(), a)
    } else {
        sorted.len() as int
    }
}

/// `insert_ranked` inserts at `insert_index`, behind the last application
/// that is not ordered below the new one.
pub proof fn lemma_insert_index(sorted: Seq<Application>, a: Application)
    ensures
        0 <= insert_index(sorted, a) <= sorted.len(),
        forall|k: int| insert_index(sorted, a) <= k < sorted.len() ==> below(sorted[k], a),
        insert_index(sorted, a) > 0 ==> !below(sorted[insert_index(sorted, a) - 1], a),
        insert_ranked(sorted, a) == sorted.insert(insert_index(sorted, a), a),
    decreases sorted.len(),
{
    if sorted.len() > 0 && below(sorted.last(), a) {
        lemma_insert_index(sorted.drop_last(), a);
        let j = insert_index(sorted.drop_last(), a);
        assert(sorted.drop_last().insert(j, a).push(sorted.last()) =~= sorted.insert(j, a));
        assert forall|k: int| j <= k < sorted.len() implies below(sorted[k], a) by {
            if k < sorted.len() - 1 {
                assert(sorted[k] == sorted.drop_last()[k]);
            }
        }
        if j > 0 {
            assert(sorted[j - 1] == sorted.drop_last()[j - 1]);
        }
    } else {
        assert(sorted.push(a) =~= sorted.insert(sorted.len() as int, a));
    }
}

/// A position with only lower-ordered applications behind it and none just
/// before it is the position `insert_ranked` chooses.
pub proof fn lemma_insert_position(sorted: Seq<Application>, a: Application, j: int)
    requires
        0 <= j <= sorted.len(),
        forall|k: int| j <= k < sorted.len() ==> below(sorted[k], a),
        j > 0 ==> !below(sorted[j - 1], a),
    ensures
        insert_ranked(sorted, a) == sorted.insert(j, a),
{
    lemma_insert_index(sorted, a);
    let i = insert_index(sorted, a);
    if i < j {
        assert(below(sorted[j - 1], a));
    } else if j < i {
        assert(below(sorted[i - 1], a));
    }
}

/// Inserting into a best-first queue keeps it best-first and adds exactly
/// the new application.
pub proof fn lemma_insert_ranked(sorted: Seq<Application>, a: Application)
    requires
        best_first(sorted),
    ensures
        best_first(insert_ranked(sorted, a)),
        insert_ranked(sorted, a).to_multiset() == sorted.to_multiset().insert(a),
        insert_ranked(sorted, a).len() == sorted.len() + 1,
{
    broadcast use vstd::seq_lib::to_multiset_insert;

    lemma_insert_index(sorted, a);
    let j = insert_index(sorted, a);
    let out = sorted.insert(j, a);
    assert forall|x: int, y: int| 0 <= x < y < out.len() implies !below(out[x], out[y]) by {
        if y < j {
            assert(out[x] == sorted[x] && out[y] == sorted[y]);
        } else if y == j {
            assert(out[x] == sorted[x]);
            if x < j - 1 {
                assert(!below(sorted[x], sorted[j - 1]));
            }
        } else if x < j {
            assert(out[x] == sorted[x] && out[y] == sorted[y - 1]);
        } else if x == j {
            assert(out[y] == sorted[y - 1]);
        } else {
            assert(out[x] == sorted[x - 1] && out[y] == sorted[y - 1]);
        }
    }
}

/// Sorting yields a best-first arrangement of the same applications.
pub proof fn lemma_sort_ranked(s: Seq<Application>)
    ensures
        best_first(sort_ranked(s)),
        sort_ranked(s).to_multiset() == s.to_multiset(),
        sort_ranked(s).len() == s.len(),
    decreases s.len(),
{
    broadcast use vstd::seq_lib::to_multiset_build;

    if s.len() > 0 {
        lemma_sort_ranked(s.drop_last());
        lemma_insert_ranked(sort_ranked(s.drop_last()), s.last());
        assert(s.drop_last().push(s.last()) =~= s);
    }
}

/// A queue that is already best-first is left as it is.
pub proof fn lemma_sort_ranked_fixpoint(s: Seq<Application>)
    requires
        best_first(s),
    ensures
        sort_ranked(s) == s,
    decreases s.len(),
{
    if s.len() > 0 {
        let front = s.drop_last();
        lemma_sort_ranked_fixpoint(front);
        if front.len() > 0 {
            assert(front.last() == s[s.len() - 2]);
            assert(!below(s[s.len() - 2], s[s.len() - 1]));
        }
        assert(front.push(s.last()) =~= s);
    }
}

/// Any two applications of the queue are ordered one way or the other, as
/// they are where no two share an identifier.
pub open spec fn strictly_ordered(s: Seq<Application>) -> bool {
    forall|i: int, j: int| 0 <= i < j < s.len() ==> below(s[i], s[j]) || below(s[j], s[i])
}

/// Where no two applications compare equal there is only one best-first
/// arrangement: a best-first queue of the same applications is the same
/// queue.
pub proof fn lemma_best_first_unique(a: Seq<Application>, b: Seq<Application>)
    requires
        best_first(a),
        best_first(b),
        strictly_ordered(a),
        a.to_multiset() == b.to_multiset(),
    ensures
        a == b,
    decreases a.len(),
{
    broadcast use vstd::multiset::group_multiset_axioms;

    vstd::seq_lib::to_multiset_len(a);
    vstd::seq_lib::to_multiset_len(b);
    if a.len() == 0 {
        assert(a =~= b);
    } else {
        let n = a.len() - 1;
        assert(b.contains(b[n]));
        vstd::seq_lib::to_multiset_contains(b, b[n]);
        vstd::seq_lib::to_multiset_contains(a, b[n]);
        let i = choose|i: int| 0 <= i < a.len() && a[i] == b[n];
        assert(a.contains(a[n]));
        vstd::seq_lib::to_multiset_contains(a, a[n]);
        vstd::seq_lib::to_multiset_contains(b, a[n]);
        let j = choose|j: int| 0 <= j < b.len() && b[j] == a[n];
        if i != n && j != n {
            assert(!below(a[i], a[n]));
            assert(!below(b[j], b[n]));
            assert(below(a[i], a[n]) || below(a[n], a[i]));
        }
        assert(a[n] == b[n]);
        let front = a.drop_last();
        let other = b.drop_last();
        assert(front.push(a[n]) =~= a);
        assert(other.push(b[n]) =~= b);
        vstd::seq_lib::to_multiset_build(front, a[n]);
        vstd::seq_lib::to_multiset_build(other, b[n]);
        assert(front.to_multiset() =~= a.to_multiset().remove(a[n]));
        assert(other.to_multiset() =~= b.to_multiset().remove(b[n]));
        assert forall|x: int, y: int| 0 <= x < y < front.len() implies !below(front[x], front[y])
            && (below(front[x], front[y]) || below(front[y], front[x])) by {
            assert(front[x] == a[x] && front[y] == a[y]);
        }
        assert forall|x: int, y: int| 0 <= x < y < other.len() implies !below(
            other[x],
            other[y],
        ) by {
            assert(other[x] == b[x] && other[y] == b[y]);
        }
        lemma_best_first_unique(front, other);
    }
}

/// Every ranked application is the scored form of a pending application of
/// a known participant.
pub proof fn lemma_ranked_origin(
    apps: Seq<Application>,
    participants: Map<u128, ParticipantView>,
    i: int,
)
    requires
        0 <= i < ranked(apps, participants).len(),
    ensures
        exists|m: int|
            0 <= m < apps.len() && participants.contains_key((#[trigger] apps[m]).participant)
                && rescored(participants)(apps[m]) == ranked(apps, participants)[i],
{
    broadcast use vstd::seq_lib::group_filter_ensures;

    let kept = apps.filter(is_known(participants));
    let with_scores = scored(apps, participants);
    let out = ranked(apps, participants);
    lemma_sort_ranked(with_scores);
    assert(out.contains(out[i]));
    vstd::seq_lib::to_multiset_contains(out, out[i]);
    vstd::seq_lib::to_multiset_contains(with_scores, out[i]);
    let t = choose|t: int| 0 <= t < with_scores.len() && with_scores[t] == out[i];
    assert(kept.contains(kept[t]));
    apps.lemma_filter_contains_rev(is_known(participants), kept[t]);
    let m = choose|m: int| 0 <= m < apps.len() && apps[m] == kept[t];
    assert(is_known(participants)(kept[t]));
    assert(rescored(participants)(apps[m]) == out[i]);
}

/// Scoring leaves a queue as it is if every application in it is already
/// the scored form of itself.
pub proof fn lemma_scored_fixpoint(apps: Seq<Application>, participants: Map<u128, ParticipantView>)
    requires
        forall|i: int|
            0 <= i < apps.len() ==> participants.contains_key((#[trigger] apps[i]).participant)
                && rescored(participants)(apps[i]) == apps[i],
    ensures
        scored(apps, participants) == apps,
    decreases apps.len(),
{
    if apps.len() == 0 {
        reveal(Seq::filter);
        assert(scored(apps, participants) =~= apps);
    } else {
        let front = apps.drop_last();
        assert forall|i: int| 0 <= i < front.len() implies participants.contains_key(
            (#[trigger] front[i]).participant,
        ) && rescored(participants)(front[i]) == front[i] by {
            assert(front[i] == apps[i]);
        }
        lemma_scored_fixpoint(front, participants);
        assert(front.push(apps.last()) =~= apps);
        front.lemma_filter_push(apps.last(), is_known(participants));
        assert(is_known(participants)(apps.last()));
        assert(front.filter(is_known(participants)).push(apps.last()).map_values(
            rescored(participants),
        ) =~= scored(front, participants).push(rescored(participants)(apps.last())));
    }
}

/// Ranking is idempotent: ranking a ranked queue against the same
/// participants changes nothing.
pub proof fn lemma_ranked_idempotent(
    apps: Seq<Application>,
    participants: Map<u128, ParticipantView>,
)
    ensures
        ranked(ranked(apps, participants), participants) == ranked(apps, participants),
{
    let once = ranked(apps, participants);
    assert forall|i: int| 0 <= i < once.len() implies participants.contains_key(
        (#[trigger] once[i]).participant,
    ) && rescored(participants)(once[i]) == once[i] by {
        lemma_ranked_origin(apps, participants, i);
    }
    lemma_scored_fixpoint(once, participants);
    lemma_sort_ranked(scored(apps, participants));
    lemma_sort_ranked_fixpoint(once);
}

impl Application {
    /// Whether this application is ordered strictly below `other`.
    pub fn is_below(&self, other: &Application) -> (r: bool)
        ensures
            r == below(*self, *other),
    {
        match (self.calculated_points, other.calculated_points) {
            (None, None) => self.uuid < other.uuid,
            (None, Some(_)) => true,
            (Some(_), None) => false,
            (Some(p), Some(q)) => p < q || (p == q && self.uuid < other.uuid),
        }
    }
}

/// The known applications of `apps`, scored, in their order.
fn score_known(apps: &Vec<Application>, participants: &HashMap<u128, Participant>) -> (kept: Vec<
    Application,
>)
    requires
        scorable(apps@, participant_views(participants@)),
    ensures
        kept@ == scored(apps@, participant_views(participants@)),
{
    let ghost table = participant_views(participants@);
    broadcast use vstd::std_specs::hash::group_hash_axioms;

    let mut kept: Vec<Application> = Vec::new();
    let mut i: usize = 0;
    proof {
        reveal(Seq::filter);
        assert(apps@.take(0) =~= Seq::<Application>::empty());
        assert(scored(apps@.take(0), table) =~= Seq::<Application>::empty());
    }
    while i < apps.len()
        invariant
            i <= apps.len(),
            table == participant_views(participants@),
            scorable(apps@, table),
            kept@ == scored(apps@.take(i as int), table),
        decreases apps.len() - i,
    {
        let mut a = apps[i];
        proof {
            let before = apps@.take(i as int);
            assert(apps@.take(i + 1) =~= before.push(apps@[i as int]));
            before.lemma_filter_push(apps@[i as int], is_known(table));
            if table.contains_key(a.participant) {
                assert(before.filter(is_known(table)).push(a).map_values(rescored(table)) =~= scored(
                    before,
                    table,
                ).push(rescored(table)(a)));
            }
        }
        match participants.get(&a.participant) {
            Some(participant) => {
                a.calculate_points(participant);
                kept.push(a);
            },
            None => {},
        }
        i += 1;
    }
    proof {
        assert(apps@.take(apps.len() as int) =~= apps@);
    }
    kept
}

/// The stable best-first arrangement of `apps`.
fn sort_best_first(apps: &Vec<Application>) -> (sorted: Vec<Application>)
    ensures
        sorted@ == sort_ranked(apps@),
{
    let mut sorted: Vec<Application> = Vec::new();
    let mut i: usize = 0;
    proof {
        assert(apps@.take(0) =~= Seq::<Application>::empty());
    }
    while i < apps.len()
        invariant
            i <= apps.len(),
            sorted@ == sort_ranked(apps@.take(i as int)),
        decreases apps.len() - i,
    {
        let a = apps[i];
        let mut j: usize = sorted.len();
        while j > 0 && sorted[j - 1].is_below(&a)
            invariant
                j <= sorted.len(),
                forall|k: int| j <= k < sorted.len() ==> below(sorted@[k], a),
            decreases j,
        {
            j -= 1;
        }
        proof {
            lemma_insert_position(sorted@, a, j as int);
            assert(apps@.take(i + 1).drop_last() =~= apps@.take(i as int));
        }
        sorted.insert(j, a);
        i += 1;
    }
    proof {
        assert(apps@.take(apps.len() as int) =~= apps@);
    }
    sorted
}

impl Session {
    /// Ranks the pending applications against a table of participants:
    /// applications of unknown participants are dropped, the others are
    /// scored and ordered best-first.
    pub fn rank_against(&mut self, participants: &HashMap<u128, Participant>)
        requires
            scorable(old(self).applications@, participant_views(participants@)),
        ensures
            final(self)@ == old(self)@.with_applications(
                ranked(old(self).applications@, participant_views(participants@)),
            ),
            best_first(final(self).applications@),
            final(self).applications@.to_multiset() == scored(
                old(self).applications@,
                participant_views(participants@),
            ).to_multiset(),
    {
        let kept = score_known(&self.applications, participants);
        proof {
            lemma_sort_ranked(kept@);
        }
        self.applications = sort_best_first(&kept);
    }
}

impl SlotView {
    /// Every session of the slot can be scored against the table.
    pub open spec fn scorable(self, participants: Map<u128, ParticipantView>) -> bool {
        forall|k: int|
            0 <= k < self.sessions.len() ==> scorable(
                (#[trigger] self.sessions[k]).applications,
                participants,
            )
    }

    /// The slot with every session's queue ranked.
    pub open spec fn ranked(self, participants: Map<u128, ParticipantView>) -> SlotView {
        self.with_sessions(
            Seq::new(
                self.sessions.len(),
                |k: int|
                    self.sessions[k].with_applications(
                        ranked(self.sessions[k].applications, participants),
                    ),
            ),
        )
    }
}

impl Slot {
    /// Ranks the queue of every session of the slot.
    pub fn rank_sessions(&mut self, participants: &HashMap<u128, Participant>)
        requires
            old(self)@.scorable(participant_views(participants@)),
        ensures
            final(self)@ == old(self)@.ranked(participant_views(participants@)),
    {
        let ghost table = participant_views(participants@);
        let n = self.sessions.len();
        let mut k: usize = 0;
        while k < n
            invariant
                k <= n,
                n == self.sessions@.len(),
                n == old(self).sessions@.len(),
                table == participant_views(participants@),
                old(self)@.scorable(table),
                self@.with_sessions(old(self)@.sessions) == old(self)@,
                forall|i: int|
                    0 <= i < k ==> (#[trigger] self.sessions@[i])@ == old(self)@.ranked(
                        table,
                    ).sessions[i],
                forall|i: int| k <= i < n ==> #[trigger] self.sessions@[i] == old(self).sessions@[i],
            decreases n - k,
        {
            assert(old(self)@.sessions[k as int] == self.sessions@[k as int]@);
            self.sessions[k].rank_against(participants);
            k += 1;
        }
        assert(self@.sessions =~= old(self)@.ranked(table).sessions);
    }
}

/// Whether every score of a known participant fits the machine integer.
fn queue_is_scorable(apps: &Vec<Application>, participants: &HashMap<u128, Participant>) -> (ok:
    bool)
    ensures
        ok == scorable(apps@, participant_views(participants@)),
{
    broadcast use vstd::std_specs::hash::group_hash_axioms;

    let ghost table = participant_views(participants@);
    let mut i: usize = 0;
    while i < apps.len()
        invariant
            i <= apps.len(),
            table == participant_views(participants@),
            scorable(apps@.take(i as int), table),
        decreases apps.len() - i,
    {
        let fits = match participants.get(&apps[i].participant) {
            Some(participant) => participant.points_from_previous_rounds <= usize::MAX
                - apps[i].priority.preference_bonus(),
            None => true,
        };
        if !fits {
            assert(table.contains_key(apps@[i as int].participant));
            return false;
        }
        proof {
            assert forall|k: int|
                0 <= k < i + 1 && table.contains_key(
                    #[trigger] apps@.take(i + 1)[k].participant,
                ) implies score(
                table[apps@.take(i + 1)[k].participant].points as nat,
                apps@.take(i + 1)[k].priority,
            ) <= usize::MAX by {
                if k < i {
                    assert(apps@.take(i as int)[k] == apps@.take(i + 1)[k]);
                    assert(table.contains_key(apps@.take(i as int)[k].participant));
                }
            }
        }
        i += 1;
    }
    proof {
        assert(apps@.take(apps.len() as int) =~= apps@);
    }
    true
}

impl Slot {
    /// Whether every session of the slot can be ranked against the table.
    pub fn is_scorable(&self, participants: &HashMap<u128, Participant>) -> (ok: bool)
        ensures
            ok == self@.scorable(participant_views(participants@)),
    {
        let mut k: usize = 0;
        while k < self.sessions.len()
            invariant
                k <= self.sessions.len(),
                forall|i: int|
                    0 <= i < k ==> scorable(
                        (#[trigger] self@.sessions[i]).applications,
                        participant_views(participants@),
                    ),
            decreases self.sessions.len() - k,
        {
            assert(self@.sessions[k as int] == self.sessions@[k as int]@);
            if !queue_is_scorable(&self.sessions[k].applications, participants) {
                return false;
            }
            k += 1;
        }
        true
    }
}

} // verus!
