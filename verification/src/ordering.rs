//! The order of applications as operators: `==`, `<` and a three-way
//! comparison.
//!
//! Applications are ordered by score, an unscored application below every
//! scored one, and by identifier among equal scores. Equality reads an
//! unscored application as scoring zero, so an unscored application and one
//! scored zero with the same identifier are equal and yet ordered.

use crate::application::Application;
use crate::ranking::below;
use std::cmp::Ordering;
use vstd::prelude::*;

verus! {

/// How `a` stands to `b` in the order of applications.
pub open spec fn ordering_of(a: Application, b: Application) -> Ordering {
    if below(a, b) {
        Ordering::Less
    } else if below(b, a) {
        Ordering::Greater
    } else {
        Ordering::Equal
    }
}

impl Application {
    /// Compares two applications: by score, then by identifier.
    pub fn cmp(&self, other: &Application) -> (order: Ordering)
        ensures
            order == ordering_of(*self, *other),
    {
        if self.is_below(other) {
            Ordering::Less
        } else if other.is_below(self) {
            Ordering::Greater
        } else {
            Ordering::Equal
        }
    }
}

impl PartialEq for Application {
    fn eq(&self, other: &Application) -> (equal: bool) {
        let mine = match self.calculated_points {
            Some(points) => points,
            None => 0,
        };
        let theirs = match other.calculated_points {
            Some(points) => points,
            None => 0,
        };
        mine == theirs && self.uuid == other.uuid
    }
}

impl vstd::std_specs::cmp::PartialEqSpecImpl for Application {
    open spec fn obeys_eq_spec() -> bool {
        true
    }

    open spec fn eq_spec(&self, other: &Application) -> bool {
        self.points() == other.points() && self.uuid == other.uuid
    }
}

impl PartialOrd for Application {
    fn partial_cmp(&self, other: &Application) -> (order: Option<Ordering>) {
        Some(self.cmp(other))
    }
}

impl vstd::std_specs::cmp::PartialOrdSpecImpl for Application {
    open spec fn obeys_partial_cmp_spec() -> bool {
        true
    }

    open spec fn partial_cmp_spec(&self, other: &Application) -> Option<Ordering> {
        Some(ordering_of(*self, *other))
    }
}

} // verus!
