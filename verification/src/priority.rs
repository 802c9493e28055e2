//! Declared preference ranks and the two point tables keyed by them.

use vstd::prelude::*;

verus! {

/// The rank a participant declares for a session.
#[derive(Clone, Copy, Debug, PartialEq, Eq, Structural)]
pub enum ApplicationPriority {
    FirstPreference,
    SecondPreference,
    ThirdPreference,
    NoPreference,
}

impl ApplicationPriority {
    /// Points added to an application's score for its declared rank.
    pub open spec fn bonus(self) -> nat {
        match self {
            ApplicationPriority::FirstPreference => 15,
            ApplicationPriority::SecondPreference => 10,
            ApplicationPriority::ThirdPreference => 5,
            ApplicationPriority::NoPreference => 0,
        }
    }

    /// Points a participant carries away after being seated at this rank:
    /// the worse the outcome, the more priority later.
    pub open spec fn carry_over(self) -> nat {
        match self {
            ApplicationPriority::FirstPreference => 0,
            ApplicationPriority::SecondPreference => 5,
            ApplicationPriority::ThirdPreference => 10,
            ApplicationPriority::NoPreference => 15,
        }
    }

    /// Position in the preference order, 0 for the first preference.
    pub open spec fn rank(self) -> nat {
        match self {
            ApplicationPriority::FirstPreference => 0,
            ApplicationPriority::SecondPreference => 1,
            ApplicationPriority::ThirdPreference => 2,
            ApplicationPriority::NoPreference => 3,
        }
    }

    pub fn preference_bonus(&self) -> (points: usize)
        ensures
            points == self.bonus(),
    {
        match self {
            ApplicationPriority::FirstPreference => 15,
            ApplicationPriority::SecondPreference => 10,
            ApplicationPriority::ThirdPreference => 5,
            ApplicationPriority::NoPreference => 0,
        }
    }

    pub fn carried_points(&self) -> (points: usize)
        ensures
            points == self.carry_over(),
    {
        match self {
            ApplicationPriority::FirstPreference => 0,
            ApplicationPriority::SecondPreference => 5,
            ApplicationPriority::ThirdPreference => 10,
            ApplicationPriority::NoPreference => 15,
        }
    }
}

/// The score of an application: what its participant carries plus the bonus
/// of the declared rank.
pub open spec fn score(carried: nat, priority: ApplicationPriority) -> nat {
    carried + priority.bonus()
}

/// A better declared rank never scores lower, given equal carried points. In
/// particular a first preference scores at least as high as no preference.
pub proof fn law_score_monotone(
    carried: nat,
    better: ApplicationPriority,
    worse: ApplicationPriority,
)
    requires
        better.rank() <= worse.rank(),
    ensures
        score(carried, better) >= score(carried, worse),
        score(carried, ApplicationPriority::FirstPreference) >= score(
            carried,
            ApplicationPriority::NoPreference,
        ),
{
}

/// The two tables mirror each other: bonus and carried points always add up
/// to fifteen.
pub proof fn law_tables_mirror(priority: ApplicationPriority)
    ensures
        priority.bonus() + priority.carry_over() == 15,
{
}

} // verus!
