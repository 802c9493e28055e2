//! What a participant is shown: the event's slots with their sessions, and
//! for each slot the sessions the participant has picked.

use crate::application::{Participant, ParticipantView};
use crate::event::{Event, EventView};
use crate::ident::{fresh_id, id_text, write_id};
use crate::priority::ApplicationPriority;
use crate::request::{Rejection, SessionUserType};
use crate::session::{text_view, Session, SessionView};
use crate::slot::{Slot, SlotView};
use crate::storage::Storage;
use crate::user::{blank_participant, invitation_refusal};
use vstd::prelude::*;

verus! {

/// The sessions a participant has picked in a slot.
#[derive(Clone, Copy, Debug)]
pub struct SlotSelection {
    pub slot_id: u128,
    pub first: Option<u128>,
    pub second: Option<u128>,
    pub third: Option<u128>,
}

/// The picks of a participant in a slot as they are shown: identifier and
/// name of each picked session, as text.
#[derive(Clone, Debug, Default)]
pub struct SlotSelectionStr {
    pub first: Option<String>,
    pub second: Option<String>,
    pub third: Option<String>,
    pub first_name: Option<String>,
    pub second_name: Option<String>,
    pub third_name: Option<String>,
}

/// The mathematical value of a [`SlotSelectionStr`].
pub struct SlotSelectionText {
    pub first: Option<Seq<char>>,
    pub second: Option<Seq<char>>,
    pub third: Option<Seq<char>>,
    pub first_name: Option<Seq<char>>,
    pub second_name: Option<Seq<char>>,
    pub third_name: Option<Seq<char>>,
}

impl View for SlotSelectionStr {
    type V = SlotSelectionText;

    open spec fn view(&self) -> SlotSelectionText {
        SlotSelectionText {
            first: text_view(self.first),
            second: text_view(self.second),
            third: text_view(self.third),
            first_name: text_view(self.first_name),
            second_name: text_view(self.second_name),
            third_name: text_view(self.third_name),
        }
    }
}

/// A session as a participant is shown it.
#[derive(Clone, Debug)]
pub struct ViewSession {
    pub uuid: u128,
    pub name: String,
    pub description: Option<String>,
    pub seats: usize,
}

/// The mathematical value of a [`ViewSession`].
pub struct ViewSessionView {
    pub uuid: u128,
    pub name: Seq<char>,
    pub description: Option<Seq<char>>,
    pub seats: usize,
}

impl View for ViewSession {
    type V = ViewSessionView;

    open spec fn view(&self) -> ViewSessionView {
        ViewSessionView {
            uuid: self.uuid,
            name: self.name@,
            description: text_view(self.description),
            seats: self.seats,
        }
    }
}

/// A slot as a participant is shown it.
#[derive(Clone, Debug)]
pub struct ViewSlot {
    pub uuid: u128,
    pub name: String,
    pub description: Option<String>,
    pub sessions: Vec<ViewSession>,
    pub selection: SlotSelectionStr,
}

/// The mathematical value of a [`ViewSlot`].
pub struct ViewSlotView {
    pub uuid: u128,
    pub name: Seq<char>,
    pub description: Option<Seq<char>>,
    pub sessions: Seq<ViewSessionView>,
    pub selection: SlotSelectionText,
}

impl View for ViewSlot {
    type V = ViewSlotView;

    open spec fn view(&self) -> ViewSlotView {
        ViewSlotView {
            uuid: self.uuid,
            name: self.name@,
            description: text_view(self.description),
            sessions: Seq::new(self.sessions@.len(), |k: int| self.sessions@[k]@),
            selection: self.selection@,
        }
    }
}

/// What a participant is shown of the event.
#[derive(Clone, Debug)]
pub struct UserEventContext {
    pub participant: Participant,
    pub is_open: bool,
    pub selections: Vec<SlotSelection>,
    pub view_slots: Vec<ViewSlot>,
}

/// `participant` has an application of rank `priority` pending in
/// `session`.
pub open spec fn wants(
    session: SessionView,
    participant: u128,
    priority: ApplicationPriority,
) -> bool {
    exists|i: int|
        0 <= i < session.applications.len() && (#[trigger] session.applications[i]).participant
            == participant && session.applications[i].priority == priority
}

/// The last of the first `n` sessions in which `participant` has an
/// application of rank `priority` pending.
pub open spec fn pick_among(
    sessions: Seq<SessionView>,
    participant: u128,
    priority: ApplicationPriority,
    n: int,
) -> Option<int>
    decreases n,
{
    if n <= 0 {
        None
    } else if wants(sessions[n - 1], participant, priority) {
        Some(n - 1)
    } else {
        pick_among(sessions, participant, priority, n - 1)
    }
}

/// The identifier of the session at an optional position.
pub open spec fn picked_id(sessions: Seq<SessionView>, pick: Option<int>) -> Option<u128> {
    match pick {
        Some(k) => Some(sessions[k].uuid),
        None => None,
    }
}

/// The identifier, as text, of the session at an optional position.
pub open spec fn picked_text(sessions: Seq<SessionView>, pick: Option<int>) -> Option<Seq<char>> {
    match pick {
        Some(k) => Some(id_text(sessions[k].uuid)),
        None => None,
    }
}

/// The name of the session at an optional position.
pub open spec fn picked_name(sessions: Seq<SessionView>, pick: Option<int>) -> Option<Seq<char>> {
    match pick {
        Some(k) => Some(sessions[k].name),
        None => None,
    }
}

impl SlotView {
    /// The position of the session `participant` has picked at rank
    /// `priority`: the last one with such an application pending.
    pub open spec fn pick(self, participant: u128, priority: ApplicationPriority) -> Option<int> {
        pick_among(self.sessions, participant, priority, self.sessions.len() as int)
    }

    /// The sessions `participant` has picked in this slot.
    pub open spec fn selection(self, participant: u128) -> SlotSelection {
        SlotSelection {
            slot_id: self.uuid,
            first: picked_id(
                self.sessions,
                self.pick(participant, ApplicationPriority::FirstPreference),
            ),
            second: picked_id(
                self.sessions,
                self.pick(participant, ApplicationPriority::SecondPreference),
            ),
            third: picked_id(
                self.sessions,
                self.pick(participant, ApplicationPriority::ThirdPreference),
            ),
        }
    }

    /// The picks of `participant` in this slot as they are shown.
    pub open spec fn selection_text(self, participant: u128) -> SlotSelectionText {
        let first = self.pick(participant, ApplicationPriority::FirstPreference);
        let second = self.pick(participant, ApplicationPriority::SecondPreference);
        let third = self.pick(participant, ApplicationPriority::ThirdPreference);
        SlotSelectionText {
            first: picked_text(self.sessions, first),
            second: picked_text(self.sessions, second),
            third: picked_text(self.sessions, third),
            first_name: picked_name(self.sessions, first),
            second_name: picked_name(self.sessions, second),
            third_name: picked_name(self.sessions, third),
        }
    }

    /// The slot as `participant` is shown it.
    pub open spec fn shown_to(self, participant: u128) -> ViewSlotView {
        ViewSlotView {
            uuid: self.uuid,
            name: self.name,
            description: self.description,
            sessions: Seq::new(
                self.sessions.len(),
                |k: int|
                    ViewSessionView {
                        uuid: self.sessions[k].uuid,
                        name: self.sessions[k].name,
                        description: self.sessions[k].description,
                        seats: self.sessions[k].seats,
                    },
            ),
            selection: self.selection_text(participant),
        }
    }
}

/// A copy of an optional text.
pub fn copy_text(text: &Option<String>) -> (copy: Option<String>)
    ensures
        text_view(copy) == text_view(*text),
{
    match text {
        Some(t) => Some(t.clone()),
        None => None,
    }
}

impl Session {
    /// Whether `participant` has an application of rank `priority` pending
    /// in this session.
    pub fn is_wanted(&self, participant: u128, priority: ApplicationPriority) -> (wanted: bool)
        ensures
            wanted == wants(self@, participant, priority),
    {
        let mut i: usize = 0;
        while i < self.applications.len()
            invariant
                i <= self.applications.len(),
                forall|k: int|
                    0 <= k < i ==> !((#[trigger] self.applications@[k]).participant == participant
                        && self.applications@[k].priority == priority),
            decreases self.applications.len() - i,
        {
            if self.applications[i].participant == participant && self.applications[i].priority
                == priority {
                return true;
            }
            i += 1;
        }
        false
    }

    /// The session as a participant is shown it.
    pub fn shown(&self) -> (shown: ViewSession)
        ensures
            shown@ == (ViewSessionView {
                uuid: self@.uuid,
                name: self@.name,
                description: self@.description,
                seats: self@.seats,
            }),
    {
        ViewSession {
            uuid: self.uuid,
            name: self.name.clone(),
            description: copy_text(&self.description),
            seats: self.seats,
        }
    }
}

impl Slot {
    /// The position of the session `participant` has picked at rank
    /// `priority`.
    pub fn pick_of(&self, participant: u128, priority: ApplicationPriority) -> (pick: Option<usize>)
        ensures
            match pick {
                Some(k) => self@.pick(participant, priority) == Some(k as int) && k
                    < self.sessions.len(),
                None => self@.pick(participant, priority) is None,
            },
    {
        let mut n: usize = self.sessions.len();
        while n > 0
            invariant
                n <= self.sessions.len(),
                self@.pick(participant, priority) == pick_among(
                    self@.sessions,
                    participant,
                    priority,
                    n as int,
                ),
            decreases n,
        {
            assert(self@.sessions[n - 1] == self.sessions@[n - 1]@);
            if self.sessions[n - 1].is_wanted(participant, priority) {
                return Some(n - 1);
            }
            n -= 1;
        }
        None
    }

    /// The sessions `participant` has picked in this slot.
    pub fn selection_of(&self, participant: u128) -> (selection: SlotSelection)
        ensures
            selection == self@.selection(participant),
    {
        let first = self.pick_of(participant, ApplicationPriority::FirstPreference);
        let second = self.pick_of(participant, ApplicationPriority::SecondPreference);
        let third = self.pick_of(participant, ApplicationPriority::ThirdPreference);
        SlotSelection {
            slot_id: self.uuid,
            first: self.id_at(first),
            second: self.id_at(second),
            third: self.id_at(third),
        }
    }

    fn id_at(&self, pick: Option<usize>) -> (id: Option<u128>)
        requires
            pick matches Some(k) ==> k < self.sessions.len(),
        ensures
            id == picked_id(
                self@.sessions,
                match pick {
                    Some(k) => Some(k as int),
                    None => None,
                },
            ),
    {
        match pick {
            Some(k) => {
                assert(self@.sessions[k as int] == self.sessions@[k as int]@);
                Some(self.sessions[k].uuid)
            },
            None => None,
        }
    }

    fn text_at(&self, pick: Option<usize>) -> (text: Option<String>)
        requires
            pick matches Some(k) ==> k < self.sessions.len(),
        ensures
            text_view(text) == picked_text(
                self@.sessions,
                match pick {
                    Some(k) => Some(k as int),
                    None => None,
                },
            ),
    {
        match pick {
            Some(k) => {
                assert(self@.sessions[k as int] == self.sessions@[k as int]@);
                Some(write_id(self.sessions[k].uuid))
            },
            None => None,
        }
    }

    fn name_at(&self, pick: Option<usize>) -> (name: Option<String>)
        requires
            pick matches Some(k) ==> k < self.sessions.len(),
        ensures
            text_view(name) == picked_name(
                self@.sessions,
                match pick {
                    Some(k) => Some(k as int),
                    None => None,
                },
            ),
    {
        match pick {
            Some(k) => {
                assert(self@.sessions[k as int] == self.sessions@[k as int]@);
                Some(self.sessions[k].name.clone())
            },
            None => None,
        }
    }

    /// The picks of `participant` in this slot as they are shown.
    pub fn selection_text_of(&self, participant: u128) -> (selection: SlotSelectionStr)
        ensures
            selection@ == self@.selection_text(participant),
    {
        let first = self.pick_of(participant, ApplicationPriority::FirstPreference);
        let second = self.pick_of(participant, ApplicationPriority::SecondPreference);
        let third = self.pick_of(participant, ApplicationPriority::ThirdPreference);
        SlotSelectionStr {
            first: self.text_at(first),
            second: self.text_at(second),
            third: self.text_at(third),
            first_name: self.name_at(first),
            second_name: self.name_at(second),
            third_name: self.name_at(third),
        }
    }

    /// The slot as `participant` is shown it.
    pub fn shown_to(&self, participant: u128) -> (shown: ViewSlot)
        ensures
            shown@ == self@.shown_to(participant),
    {
        let mut sessions: Vec<ViewSession> = Vec::new();
        let mut k: usize = 0;
        while k < self.sessions.len()
            invariant
                k <= self.sessions.len(),
                sessions@.len() == k,
                forall|i: int|
                    0 <= i < k ==> (#[trigger] sessions@[i])@ == self@.shown_to(
                        participant,
                    ).sessions[i],
            decreases self.sessions.len() - k,
        {
            assert(self@.sessions[k as int] == self.sessions@[k as int]@);
            sessions.push(self.sessions[k].shown());
            k += 1;
        }
        let shown = ViewSlot {
            uuid: self.uuid,
            name: self.name.clone(),
            description: copy_text(&self.description),
            sessions,
            selection: self.selection_text_of(participant),
        };
        assert(shown@.sessions =~= self@.shown_to(participant).sessions);
        shown
    }
}

impl EventView {
    /// The entry of `participant`, or a blank one where the event has none.
    pub open spec fn participant_or_blank(self, participant: u128) -> ParticipantView {
        if self.participants.contains_key(participant) {
            self.participants[participant]
        } else {
            blank_participant(participant)
        }
    }
}

/// The values of a list of shown slots.
pub open spec fn shown_slots(slots: Seq<ViewSlot>) -> Seq<ViewSlotView> {
    Seq::new(slots.len(), |i: int| slots[i]@)
}

/// What the holder `participant` is shown of `event`.
pub open spec fn shows(context: UserEventContext, event: EventView, participant: u128) -> bool {
    &&& context.participant@ == event.participant_or_blank(participant)
    &&& context.is_open == (event.state is OpenForRegistration)
    &&& context.selections@ == Seq::new(
        event.slots.len(),
        |i: int| event.slots[i].selection(participant),
    )
    &&& shown_slots(context.view_slots@) == Seq::new(
        event.slots.len(),
        |i: int| event.slots[i].shown_to(participant),
    )
}

impl Event {
    /// A copy of the entry of `participant`, or a blank one where the event
    /// has none.
    pub fn participant_entry(&self, participant: u128) -> (entry: Participant)
        ensures
            entry@ == self@.participant_or_blank(participant),
    {
        broadcast use vstd::std_specs::hash::group_hash_axioms;

        match self.participants.get(&participant) {
            Some(found) => Participant {
                uuid: found.uuid,
                name: found.name.clone(),
                points_from_previous_rounds: found.points_from_previous_rounds,
            },
            None => Participant {
                uuid: participant,
                name: String::new(),
                points_from_previous_rounds: 0,
            },
        }
    }

    /// What `participant` is shown of the event.
    pub fn shown_to(&self, participant: u128) -> (context: UserEventContext)
        ensures
            shows(context, self@, participant),
    {
        let mut selections: Vec<SlotSelection> = Vec::new();
        let mut view_slots: Vec<ViewSlot> = Vec::new();
        let mut i: usize = 0;
        while i < self.slots.len()
            invariant
                i <= self.slots.len(),
                selections@.len() == i,
                view_slots@.len() == i,
                forall|s: int|
                    0 <= s < i ==> #[trigger] selections@[s] == self@.slots[s].selection(
                        participant,
                    ),
                forall|s: int|
                    0 <= s < i ==> (#[trigger] view_slots@[s])@ == self@.slots[s].shown_to(
                        participant,
                    ),
            decreases self.slots.len() - i,
        {
            assert(self@.slots[i as int] == self.slots@[i as int]@);
            selections.push(self.slots[i].selection_of(participant));
            view_slots.push(self.slots[i].shown_to(participant));
            i += 1;
        }
        let context = UserEventContext {
            participant: self.participant_entry(participant),
            is_open: self.state == crate::event::EventState::OpenForRegistration,
            selections,
            view_slots,
        };
        assert(context.selections@ =~= Seq::new(
            self@.slots.len(),
            |i: int| self@.slots[i].selection(participant),
        ));
        assert(shown_slots(context.view_slots@) =~= Seq::new(
            self@.slots.len(),
            |i: int| self@.slots[i].shown_to(participant),
        ));
        context
    }
}

/// Shows the holder of the invitation the event it is for. A holder who
/// had no participant entry gets a blank one.
pub fn event_view(user: &SessionUserType, storage: &mut Storage) -> (result: Result<
    UserEventContext,
    Rejection,
>)
    ensures
        match invitation_refusal(*user, old(storage)@) {
            Some(why) => result == Err::<UserEventContext, Rejection>(why) && final(storage)@
                == old(storage)@,
            None => {
                let i = old(storage)@.invitation_index(user.code()->0)->0;
                let event_id = old(storage)@.invitations[i].event_id;
                &&& exists|fresh: u128| #[trigger]
                    old(storage)@.registered(i, fresh) == final(storage)@
                &&& result matches Ok(context) && shows(
                    context,
                    final(storage)@.events[event_id],
                    final(storage)@.invitations[i].participant_id->0,
                )
            },
        },
        old(storage)@.well_formed() ==> final(storage)@.well_formed(),
{
    broadcast use vstd::std_specs::hash::group_hash_axioms;

    let i = match crate::user::invitation_of(user, storage) {
        Ok(i) => i,
        Err(why) => {
            return Err(why);
        },
    };
    assert(storage@.invitations[i as int] == storage.invitations_codes@[i as int]@);
    let event_id = storage.invitations_codes[i].event_id;
    let fresh = match storage.invitations_codes[i].participant_id {
        Some(participant) => participant,
        None => fresh_id(),
    };
    let participant = storage.register(i, fresh);
    assert(old(storage)@.registered(i as int, fresh) == storage@);
    assert(storage@.events.contains_key(event_id));
    match storage.events.get(&event_id) {
        Some(event) => Ok(event.shown_to(participant)),
        None => Err(Rejection::NotFound),
    }
}

} // verus!
