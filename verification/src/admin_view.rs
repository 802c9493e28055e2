//! What an administrator is shown of an event: its invitation codes, and
//! its slots and sessions with the names of the participants seated, once
//! the distribution is finished.

use crate::admin::event_refusal;
use crate::application::{participant_views, Participant, ParticipantView};
use crate::event::EventState;
use crate::request::{Rejection, SessionUserType};
use crate::session::{text_view, Session, SessionView};
use crate::slot::{Slot, SlotView};
use crate::storage::{InvitationView, Storage, StorageView};
use crate::text::text_views;
use crate::user_view::copy_text;
use std::collections::HashMap;
use vstd::prelude::*;

verus! {

/// A session as an administrator is shown it.
#[derive(Clone, Debug)]
pub struct AdminViewSession {
    pub uuid: u128,
    pub name: String,
    pub description: Option<String>,
    pub seats: usize,
    pub assigned_names: Vec<String>,
}

/// The mathematical value of an [`AdminViewSession`].
pub struct AdminViewSessionView {
    pub uuid: u128,
    pub name: Seq<char>,
    pub description: Option<Seq<char>>,
    pub seats: usize,
    pub assigned_names: Seq<Seq<char>>,
}

impl View for AdminViewSession {
    type V = AdminViewSessionView;

    open spec fn view(&self) -> AdminViewSessionView {
        AdminViewSessionView {
            uuid: self.uuid,
            name: self.name@,
            description: text_view(self.description),
            seats: self.seats,
            assigned_names: text_views(self.assigned_names@),
        }
    }
}

/// A slot as an administrator is shown it.
#[derive(Clone, Debug)]
pub struct AdminViewSlot {
    pub uuid: u128,
    pub name: String,
    pub description: Option<String>,
    pub sessions: Vec<AdminViewSession>,
}

/// The mathematical value of an [`AdminViewSlot`].
pub struct AdminViewSlotView {
    pub uuid: u128,
    pub name: Seq<char>,
    pub description: Option<Seq<char>>,
    pub sessions: Seq<AdminViewSessionView>,
}

impl View for AdminViewSlot {
    type V = AdminViewSlotView;

    open spec fn view(&self) -> AdminViewSlotView {
        AdminViewSlotView {
            uuid: self.uuid,
            name: self.name@,
            description: text_view(self.description),
            sessions: Seq::new(self.sessions@.len(), |k: int| self.sessions@[k]@),
        }
    }
}

/// What an administrator is shown of an event.
#[derive(Clone, Debug)]
pub struct AdminEventContext {
    pub invite_codes: Vec<String>,
    pub view_slots: Vec<AdminViewSlot>,
    pub can_close_and_distribute: bool,
    pub is_finished: bool,
}

/// The mathematical value of an [`AdminEventContext`].
pub struct AdminEventContextView {
    pub invite_codes: Seq<Seq<char>>,
    pub view_slots: Seq<AdminViewSlotView>,
    pub can_close_and_distribute: bool,
    pub is_finished: bool,
}

impl View for AdminEventContext {
    type V = AdminEventContextView;

    open spec fn view(&self) -> AdminEventContextView {
        AdminEventContextView {
            invite_codes: text_views(self.invite_codes@),
            view_slots: Seq::new(self.view_slots@.len(), |i: int| self.view_slots@[i]@),
            can_close_and_distribute: self.can_close_and_distribute,
            is_finished: self.is_finished,
        }
    }
}

/// The participants the table knows.
pub open spec fn is_listed(participants: Map<u128, ParticipantView>) -> spec_fn(u128) -> bool {
    |id: u128| participants.contains_key(id)
}

/// The name the table has for a participant.
pub open spec fn name_in(participants: Map<u128, ParticipantView>) -> spec_fn(u128) -> Seq<char> {
    |id: u128| participants[id].name
}

/// The names of the seated participants the table knows, in seating order.
pub open spec fn names_of(seated: Seq<u128>, participants: Map<u128, ParticipantView>) -> Seq<
    Seq<char>,
> {
    seated.filter(is_listed(participants)).map_values(name_in(participants))
}

/// The invitations to event `event_id`.
pub open spec fn is_for(event_id: u128) -> spec_fn(InvitationView) -> bool {
    |invitation: InvitationView| invitation.event_id == event_id
}

/// The code of an invitation.
pub open spec fn code_of() -> spec_fn(InvitationView) -> Seq<char> {
    |invitation: InvitationView| invitation.code
}

/// The codes of the invitations to event `event_id`, in the order they
/// were issued.
pub open spec fn codes_for(invitations: Seq<InvitationView>, event_id: u128) -> Seq<Seq<char>> {
    invitations.filter(is_for(event_id)).map_values(code_of())
}

impl SessionView {
    /// The session as an administrator is shown it. The names of the
    /// seated are shown only if `finished`.
    pub open spec fn shown_to_admin(
        self,
        participants: Map<u128, ParticipantView>,
        finished: bool,
    ) -> AdminViewSessionView {
        AdminViewSessionView {
            uuid: self.uuid,
            name: self.name,
            description: self.description,
            seats: self.seats,
            assigned_names: if finished {
                names_of(self.participants, participants)
            } else {
                Seq::empty()
            },
        }
    }
}

impl SlotView {
    /// The slot as an administrator is shown it.
    pub open spec fn shown_to_admin(
        self,
        participants: Map<u128, ParticipantView>,
        finished: bool,
    ) -> AdminViewSlotView {
        AdminViewSlotView {
            uuid: self.uuid,
            name: self.name,
            description: self.description,
            sessions: Seq::new(
                self.sessions.len(),
                |k: int| self.sessions[k].shown_to_admin(participants, finished),
            ),
        }
    }
}

impl StorageView {
    /// What an administrator is shown of the event `event_id`.
    pub open spec fn shown_to_admin(self, event_id: u128) -> AdminEventContextView {
        let event = self.events[event_id];
        AdminEventContextView {
            invite_codes: codes_for(self.invitations, event_id),
            view_slots: Seq::new(
                event.slots.len(),
                |i: int| event.slots[i].shown_to_admin(event.participants, event.state is Finished),
            ),
            can_close_and_distribute: event.state is OpenForRegistration,
            is_finished: event.state is Finished,
        }
    }
}

/// The names of the seated participants the table knows.
fn assigned_names(seated: &Vec<u128>, participants: &HashMap<u128, Participant>) -> (names: Vec<
    String,
>)
    ensures
        text_views(names@) == names_of(seated@, participant_views(participants@)),
{
    broadcast use vstd::std_specs::hash::group_hash_axioms;

    let ghost table = participant_views(participants@);
    let mut names: Vec<String> = Vec::new();
    let mut i: usize = 0;
    proof {
        reveal(Seq::filter);
        assert(seated@.take(0) =~= Seq::<u128>::empty());
        assert(text_views(names@) =~= names_of(seated@.take(0), table));
    }
    while i < seated.len()
        invariant
            i <= seated.len(),
            table == participant_views(participants@),
            text_views(names@) == names_of(seated@.take(i as int), table),
        decreases seated.len() - i,
    {
        let id = seated[i];
        let ghost before = seated@.take(i as int);
        let ghost shown = text_views(names@);
        proof {
            assert(seated@.take(i + 1) =~= before.push(id));
            before.lemma_filter_push(id, is_listed(table));
        }
        match participants.get(&id) {
            Some(participant) => {
                names.push(participant.name.clone());
                proof {
                    assert(text_views(names@) =~= shown.push(participant.name@));
                    assert(before.filter(is_listed(table)).push(id).map_values(name_in(table))
                        =~= names_of(before, table).push(name_in(table)(id)));
                }
            },
            None => {},
        }
        i += 1;
    }
    proof {
        assert(seated@.take(seated.len() as int) =~= seated@);
    }
    names
}

impl Session {
    /// The session as an administrator is shown it.
    pub fn shown_to_admin(
        &self,
        participants: &HashMap<u128, Participant>,
        finished: bool,
    ) -> (shown: AdminViewSession)
        ensures
            shown@ == self@.shown_to_admin(participant_views(participants@), finished),
    {
        let names = if finished {
            assigned_names(&self.participants, participants)
        } else {
            Vec::new()
        };
        let shown = AdminViewSession {
            uuid: self.uuid,
            name: self.name.clone(),
            description: copy_text(&self.description),
            seats: self.seats,
            assigned_names: names,
        };
        assert(shown@.assigned_names =~= self@.shown_to_admin(
            participant_views(participants@),
            finished,
        ).assigned_names);
        shown
    }
}

impl Slot {
    /// The slot as an administrator is shown it.
    pub fn shown_to_admin(
        &self,
        participants: &HashMap<u128, Participant>,
        finished: bool,
    ) -> (shown: AdminViewSlot)
        ensures
            shown@ == self@.shown_to_admin(participant_views(participants@), finished),
    {
        let ghost table = participant_views(participants@);
        let mut sessions: Vec<AdminViewSession> = Vec::new();
        let mut k: usize = 0;
        while k < self.sessions.len()
            invariant
                k <= self.sessions.len(),
                sessions@.len() == k,
                table == participant_views(participants@),
                forall|i: int|
                    0 <= i < k ==> (#[trigger] sessions@[i])@ == self@.sessions[i].shown_to_admin(
                        table,
                        finished,
                    ),
            decreases self.sessions.len() - k,
        {
            assert(self@.sessions[k as int] == self.sessions@[k as int]@);
            sessions.push(self.sessions[k].shown_to_admin(participants, finished));
            k += 1;
        }
        let shown = AdminViewSlot {
            uuid: self.uuid,
            name: self.name.clone(),
            description: copy_text(&self.description),
            sessions,
        };
        assert(shown@.sessions =~= self@.shown_to_admin(table, finished).sessions);
        shown
    }
}

impl Storage {
    /// The codes of the invitations to event `event_id`, in the order they
    /// were issued.
    pub fn invite_codes(&self, event_id: u128) -> (found: Vec<String>)
        ensures
            text_views(found@) == codes_for(self@.invitations, event_id),
    {
        let ghost all = self@.invitations;
        let mut found: Vec<String> = Vec::new();
        let mut i: usize = 0;
        proof {
            reveal(Seq::filter);
            assert(all.take(0) =~= Seq::<InvitationView>::empty());
            assert(text_views(found@) =~= codes_for(all.take(0), event_id));
        }
        while i < self.invitations_codes.len()
            invariant
                i <= self.invitations_codes.len(),
                all == self@.invitations,
                text_views(found@) == codes_for(all.take(i as int), event_id),
            decreases self.invitations_codes.len() - i,
        {
            let ghost before = all.take(i as int);
            let ghost shown = text_views(found@);
            proof {
                assert(all[i as int] == self.invitations_codes@[i as int]@);
                assert(all.take(i + 1) =~= before.push(all[i as int]));
                before.lemma_filter_push(all[i as int], is_for(event_id));
            }
            if self.invitations_codes[i].event_id == event_id {
                found.push(self.invitations_codes[i].code.clone());
                proof {
                    assert(text_views(found@) =~= shown.push(all[i as int].code));
                    assert(before.filter(is_for(event_id)).push(all[i as int]).map_values(
                        code_of(),
                    ) =~= codes_for(before, event_id).push(code_of()(all[i as int])));
                }
            }
            i += 1;
        }
        proof {
            assert(all.take(all.len() as int) =~= all);
        }
        found
    }
}

/// Shows an administrator the event `event_id`.
pub fn event_view(user: &SessionUserType, storage: &Storage, event_id: u128) -> (result: Result<
    AdminEventContext,
    Rejection,
>)
    ensures
        match event_refusal(*user, storage@, event_id) {
            Some(why) => result == Err::<AdminEventContext, Rejection>(why),
            None => result matches Ok(context) && context@ == storage@.shown_to_admin(event_id),
        },
{
    broadcast use vstd::std_specs::hash::group_hash_axioms;

    if !user.is_admin() {
        return Err(Rejection::Forbidden);
    }
    let event = match storage.events.get(&event_id) {
        Some(event) => event,
        None => {
            return Err(Rejection::NotFound);
        },
    };
    let finished = event.state == EventState::Finished;
    let mut view_slots: Vec<AdminViewSlot> = Vec::new();
    let mut i: usize = 0;
    while i < event.slots.len()
        invariant
            i <= event.slots.len(),
            view_slots@.len() == i,
            finished == (event.state is Finished),
            forall|s: int|
                0 <= s < i ==> (#[trigger] view_slots@[s])@ == event@.slots[s].shown_to_admin(
                    event@.participants,
                    finished,
                ),
        decreases event.slots.len() - i,
    {
        assert(event@.slots[i as int] == event.slots@[i as int]@);
        view_slots.push(event.slots[i].shown_to_admin(&event.participants, finished));
        i += 1;
    }
    let context = AdminEventContext {
        invite_codes: storage.invite_codes(event_id),
        view_slots,
        can_close_and_distribute: event.state == EventState::OpenForRegistration,
        is_finished: finished,
    };
    assert(context@.view_slots =~= storage@.shown_to_admin(event_id).view_slots);
    Ok(context)
}

} // verus!
