//! Participants and their applications to sessions.

use crate::priority::{score, ApplicationPriority};
use vstd::prelude::*;

verus! {

/// A person taking part in an event. `points_from_previous_rounds` is the
/// priority carried between allocation runs.
#[derive(Debug, Clone)]
pub struct Participant {
    pub uuid: u128,
    pub name: String,
    pub points_from_previous_rounds: usize,
}

/// The mathematical value of a [`Participant`].
pub struct ParticipantView {
    pub uuid: u128,
    pub name: Seq<char>,
    pub points: usize,
}

impl View for Participant {
    type V = ParticipantView;

    open spec fn view(&self) -> ParticipantView {
        ParticipantView {
            uuid: self.uuid,
            name: self.name@,
            points: self.points_from_previous_rounds,
        }
    }
}

/// The values of a table of participants.
pub open spec fn participant_views(participants: Map<u128, Participant>) -> Map<
    u128,
    ParticipantView,
> {
    Map::new(|id: u128| participants.contains_key(id), |id: u128| participants[id]@)
}

/// A participant's expression of interest in one session.
#[derive(Debug, Clone, Copy)]
pub struct Application {
    pub uuid: u128,
    pub session_uuid: u128,
    pub participant: u128,
    pub priority: ApplicationPriority,
    pub calculated_points: Option<usize>,
}

impl Application {
    /// The application with its score set to `points`.
    pub open spec fn with_points(self, points: usize) -> Application {
        Application { calculated_points: Some(points), ..self }
    }

    /// The score as the allocation reads it: an unscored application counts
    /// as zero.
    pub open spec fn points(self) -> nat {
        match self.calculated_points {
            Some(p) => p as nat,
            None => 0,
        }
    }

    /// Stores the score of this application for `participant`.
    pub fn calculate_points(&mut self, participant: &Participant)
        requires
            score(participant.points_from_previous_rounds as nat, old(self).priority)
                <= usize::MAX,
        ensures
            *final(self) == old(self).with_points(
                score(participant.points_from_previous_rounds as nat, old(self).priority) as usize,
            ),
    {
        let points = participant.points_from_previous_rounds + self.priority.preference_bonus();
        self.calculated_points = Some(points);
    }
}

} // verus!
