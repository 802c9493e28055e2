//! Slots: time buckets whose sessions exclude each other.

use crate::ident::{fresh_id, is_random_id};
use crate::session::{session_views, text_view, Session, SessionView};
use vstd::prelude::*;

verus! {

/// A slot of an event. A participant may hold one seat per slot. The order
/// of `sessions` is significant: it decides ties between sessions.
#[derive(Debug, Clone)]
pub struct Slot {
    pub uuid: u128,
    pub name: String,
    pub description: Option<String>,
    pub sessions: Vec<Session>,
}

/// The mathematical value of a [`Slot`].
pub struct SlotView {
    pub uuid: u128,
    pub name: Seq<char>,
    pub description: Option<Seq<char>>,
    pub sessions: Seq<SessionView>,
}

impl View for Slot {
    type V = SlotView;

    open spec fn view(&self) -> SlotView {
        SlotView {
            uuid: self.uuid,
            name: self.name@,
            description: text_view(self.description),
            sessions: session_views(self.sessions@),
        }
    }
}

impl SlotView {
    /// The same slot with other sessions.
    pub open spec fn with_sessions(self, sessions: Seq<SessionView>) -> SlotView {
        SlotView { sessions, ..self }
    }
}

/// The values of a sequence of slots, in order.
pub open spec fn slot_views(slots: Seq<Slot>) -> Seq<SlotView> {
    Seq::new(slots.len(), |i: int| slots[i]@)
}

impl Slot {
    /// A slot with a fresh identifier and no sessions.
    pub fn new(name: String, description: Option<String>) -> (slot: Slot)
        ensures
            is_random_id(slot.uuid),
            slot@ == (SlotView {
                uuid: slot.uuid,
                name: name@,
                description: text_view(description),
                sessions: Seq::empty(),
            }),
    {
        let slot = Slot { uuid: fresh_id(), name, description, sessions: Vec::new() };
        assert(slot@.sessions =~= Seq::empty());
        slot
    }
}

} // verus!
