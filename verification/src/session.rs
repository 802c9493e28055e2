//! Sessions: capacity-limited offerings that participants compete for.

use crate::application::Application;
use crate::ident::{fresh_id, is_random_id};
use vstd::prelude::*;

verus! {

/// A session of a slot. `participants` holds who has been seated,
/// `applications` who is still waiting.
#[derive(Debug, Clone)]
pub struct Session {
    pub uuid: u128,
    pub name: String,
    pub description: Option<String>,
    pub seats: usize,
    pub participants: Vec<u128>,
    pub applications: Vec<Application>,
}

/// The mathematical value of a [`Session`].
pub struct SessionView {
    pub uuid: u128,
    pub name: Seq<char>,
    pub description: Option<Seq<char>>,
    pub seats: usize,
    pub participants: Seq<u128>,
    pub applications: Seq<Application>,
}

/// The value of an optional text.
pub open spec fn text_view(text: Option<String>) -> Option<Seq<char>> {
    match text {
        Some(t) => Some(t@),
        None => None,
    }
}

impl View for Session {
    type V = SessionView;

    open spec fn view(&self) -> SessionView {
        SessionView {
            uuid: self.uuid,
            name: self.name@,
            description: text_view(self.description),
            seats: self.seats,
            participants: self.participants@,
            applications: self.applications@,
        }
    }
}

impl SessionView {
    /// No more participants are seated than there are seats.
    pub open spec fn within_capacity(self) -> bool {
        self.participants.len() <= self.seats
    }

    /// Every seat is taken.
    pub open spec fn is_full(self) -> bool {
        self.participants.len() >= self.seats
    }

    /// The same session with another queue of pending applications.
    pub open spec fn with_applications(self, applications: Seq<Application>) -> SessionView {
        SessionView { applications, ..self }
    }
}

/// The values of a sequence of sessions, in order.
pub open spec fn session_views(sessions: Seq<Session>) -> Seq<SessionView> {
    Seq::new(sessions.len(), |i: int| sessions[i]@)
}

impl Session {
    /// A session with a fresh identifier, nobody seated and nobody waiting.
    pub fn new(name: String, description: Option<String>, seats: usize) -> (session: Session)
        ensures
            is_random_id(session.uuid),
            session@ == (SessionView {
                uuid: session.uuid,
                name: name@,
                description: text_view(description),
                seats,
                participants: Seq::empty(),
                applications: Seq::empty(),
            }),
    {
        Session {
            uuid: fresh_id(),
            name,
            description,
            seats,
            participants: Vec::new(),
            applications: Vec::new(),
        }
    }
}

} // verus!
