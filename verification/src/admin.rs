//! What an administrator may ask for: creating, editing and deleting
//! events, slots and sessions, issuing and revoking invitations, opening
//! and closing registration, and distributing the seats.
//!
//! Every request names who asks. A request that is turned down changes
//! nothing, and the contracts say which rejection comes on which input.

use crate::editing::{session_ids, slot_ids};
use crate::event::{Event, EventState, EventView};
use crate::ident::is_random_id;
use crate::laws::outcome;
use crate::lookup::lemma_first_index_none;
use crate::request::{Rejection, SessionUserType};
use crate::session::{text_view, Session, SessionView};
use crate::slot::{Slot, SlotView};
use crate::storage::{
    codes, lemma_push_distinct, lemma_put_back, lemma_remove_distinct, Invitation,
    InvitationView, Storage, StorageView,
};
use crate::text::{clean, cleaned, lines, lines_of, text_views, trim, trimmed};
use vstd::prelude::*;

verus! {

/// The most seats a session may be given.
pub const MAX_SEATS: usize = 10000;

pub struct CreateEventForm {
    pub name: String,
    pub description: Option<String>,
}

pub struct SetStateForm {
    pub state: String,
}

pub struct CreateSlotForm {
    pub name: String,
    pub description: Option<String>,
}

pub struct EditSlotForm {
    pub name: String,
    pub description: Option<String>,
}

pub struct CreateSessionForm {
    pub name: String,
    pub description: Option<String>,
    pub seats: usize,
}

pub struct EditSessionForm {
    pub name: String,
    pub description: Option<String>,
    pub seats: usize,
}

pub struct BulkInvitesForm {
    pub codes: String,
}

/// The state a form asks for. Only the two registration states can be
/// asked for by name.
pub open spec fn requested_state(name: Seq<char>) -> Option<EventState> {
    if name == "NotOpenedYet"@ {
        Some(EventState::NotOpenedYet)
    } else if name == "OpenForRegistration"@ {
        Some(EventState::OpenForRegistration)
    } else {
        None
    }
}

/// A session can have between one and `MAX_SEATS` seats.
pub open spec fn seats_allowed(seats: usize) -> bool {
    1 <= seats <= MAX_SEATS
}

/// Why a request on event `event_id` is turned down before it is looked
/// at: the requester is no administrator, or there is no such event.
pub open spec fn event_refusal(
    user: SessionUserType,
    storage: StorageView,
    event_id: u128,
) -> Option<Rejection> {
    if !(user is Admin) {
        Some(Rejection::Forbidden)
    } else if !storage.events.contains_key(event_id) {
        Some(Rejection::NotFound)
    } else {
        None
    }
}

/// Why a request on slot `slot_id` of event `event_id` is turned down
/// before it is looked at.
pub open spec fn slot_refusal(
    user: SessionUserType,
    storage: StorageView,
    event_id: u128,
    slot_id: u128,
) -> Option<Rejection> {
    match event_refusal(user, storage, event_id) {
        Some(why) => Some(why),
        None => if storage.events[event_id].slot_index(slot_id) is None {
            Some(Rejection::NotFound)
        } else {
            None
        },
    }
}

/// Why a request on session `session_id` is turned down before it is
/// looked at.
pub open spec fn session_refusal(
    user: SessionUserType,
    storage: StorageView,
    event_id: u128,
    slot_id: u128,
    session_id: u128,
) -> Option<Rejection> {
    match slot_refusal(user, storage, event_id, slot_id) {
        Some(why) => Some(why),
        None => {
            let event = storage.events[event_id];
            let slot = event.slots[event.slot_index(slot_id)->0];
            if slot.session_index(session_id) is None {
                Some(Rejection::NotFound)
            } else {
                None
            }
        },
    }
}

/// What a rejection leaves behind: the rejection, and the storage as it
/// was.
pub open spec fn turned_down<T>(
    result: Result<T, Rejection>,
    why: Rejection,
    before: StorageView,
    after: StorageView,
) -> bool {
    result == Err::<T, Rejection>(why) && after == before
}

/// A new event as it is stored.
pub open spec fn new_event(id: u128, name: Seq<char>, description: Option<Seq<char>>) -> EventView {
    EventView {
        uuid: id,
        name,
        description,
        slots: Seq::empty(),
        participants: Map::empty(),
        state: EventState::NotOpenedYet,
    }
}

/// A new slot as it is stored.
pub open spec fn new_slot(id: u128, name: Seq<char>, description: Option<Seq<char>>) -> SlotView {
    SlotView { uuid: id, name, description, sessions: Seq::empty() }
}

/// A new session as it is stored.
pub open spec fn new_session(
    id: u128,
    name: Seq<char>,
    description: Option<Seq<char>>,
    seats: usize,
) -> SessionView {
    SessionView {
        uuid: id,
        name,
        description,
        seats,
        participants: Seq::empty(),
        applications: Seq::empty(),
    }
}

/// The invitations with one for the code on `line`, unless the line is
/// blank or the code is taken.
pub open spec fn with_code(
    invitations: Seq<InvitationView>,
    line: Seq<char>,
    event_id: u128,
) -> Seq<InvitationView> {
    let code = trimmed(line);
    if code.len() == 0 || codes(invitations).contains(code) {
        invitations
    } else {
        invitations.push(InvitationView { code, event_id, participant_id: None })
    }
}

/// The invitations with one for the code on each line, from the first line
/// to the last.
pub open spec fn with_codes(
    invitations: Seq<InvitationView>,
    lines: Seq<Seq<char>>,
    event_id: u128,
) -> Seq<InvitationView>
    decreases lines.len(),
{
    if lines.len() == 0 {
        invitations
    } else {
        with_codes(with_code(invitations, lines.first(), event_id), lines.drop_first(), event_id)
    }
}

/// The storage after the invitation `code` of event `event_id` is revoked:
/// the participant registered with it leaves the event, and the invitation
/// is gone. A code that is unknown, or belongs to another event, changes
/// nothing.
pub open spec fn without_invitation(
    storage: StorageView,
    event_id: u128,
    code: Seq<char>,
) -> StorageView {
    match storage.invitation_index(code) {
        Some(i) => if storage.invitations[i].event_id == event_id {
            let cleared = match storage.invitations[i].participant_id {
                Some(participant) => if storage.events.contains_key(event_id) {
                    storage.with_event(
                        event_id,
                        storage.events[event_id].without_participant(participant),
                    )
                } else {
                    storage
                },
                None => storage,
            };
            cleared.with_invitations(storage.invitations.remove(i))
        } else {
            storage
        },
        None => storage,
    }
}

/// The state a form asks for, if it can be asked for by name.
pub fn parse_requested_state(name: &str) -> (state: Option<EventState>)
    ensures
        state == requested_state(name@),
{
    let name = name.to_owned();
    if name == "NotOpenedYet".to_owned() {
        Some(EventState::NotOpenedYet)
    } else if name == "OpenForRegistration".to_owned() {
        Some(EventState::OpenForRegistration)
    } else {
        None
    }
}

fn check_event(user: &SessionUserType, storage: &Storage, event_id: u128) -> (result: Result<
    (),
    Rejection,
>)
    ensures
        match event_refusal(*user, storage@, event_id) {
            Some(why) => result == Err::<(), Rejection>(why),
            None => result is Ok,
        },
{
    if !user.is_admin() {
        Err(Rejection::Forbidden)
    } else if !storage.has_event(event_id) {
        Err(Rejection::NotFound)
    } else {
        Ok(())
    }
}

/// Creates an event from a form and returns its identifier. The name is
/// trimmed and must not be blank; a blank description is dropped.
pub fn create_event(
    user: &SessionUserType,
    storage: &mut Storage,
    form: CreateEventForm,
) -> (result: Result<u128, Rejection>)
    ensures
        !(*user is Admin) ==> turned_down(
            result,
            Rejection::Forbidden,
            old(storage)@,
            final(storage)@,
        ),
        *user is Admin && trimmed(form.name@).len() == 0 ==> turned_down(
            result,
            Rejection::BadRequest,
            old(storage)@,
            final(storage)@,
        ),
        *user is Admin && trimmed(form.name@).len() > 0 ==> (result matches Ok(id) && is_random_id(
            id,
        ) && final(storage)@ == old(storage)@.with_event(
            id,
            new_event(id, trimmed(form.name@), cleaned(text_view(form.description))),
        )),
{
    if !user.is_admin() {
        return Err(Rejection::Forbidden);
    }
    let name = trim(form.name.as_str());
    if name.as_str().is_empty() {
        return Err(Rejection::BadRequest);
    }
    let event = Event::new(name, clean(form.description));
    let id = event.uuid;
    storage.put_event(id, event);
    Ok(id)
}

/// Deletes the event `event_id`, if there is one.
pub fn delete_event(
    user: &SessionUserType,
    storage: &mut Storage,
    event_id: u128,
) -> (result: Result<(), Rejection>)
    ensures
        !(*user is Admin) ==> turned_down(
            result,
            Rejection::Forbidden,
            old(storage)@,
            final(storage)@,
        ),
        *user is Admin ==> result is Ok && final(storage)@ == old(storage)@.without_event(event_id),
{
    broadcast use vstd::std_specs::hash::group_hash_axioms;

    if !user.is_admin() {
        return Err(Rejection::Forbidden);
    }
    storage.events.remove(&event_id);
    assert(storage@.events =~= old(storage)@.events.remove(event_id));
    Ok(())
}

/// Why a distribution is turned down: the general reasons, or the event is
/// not open for registration.
pub open spec fn distribution_refusal(
    user: SessionUserType,
    storage: StorageView,
    event_id: u128,
) -> Option<Rejection> {
    match event_refusal(user, storage, event_id) {
        Some(why) => Some(why),
        None => if storage.events[event_id].state is OpenForRegistration {
            None
        } else {
            Some(Rejection::BadRequest)
        },
    }
}

/// Closes the registration of event `event_id` and distributes its seats.
pub fn close_and_distribute(
    user: &SessionUserType,
    storage: &mut Storage,
    event_id: u128,
) -> (result: Result<(), Rejection>)
    requires
        distribution_refusal(*user, old(storage)@, event_id) is None ==> old(
            storage,
        )@.events[event_id].scorable(),
    ensures
        match distribution_refusal(*user, old(storage)@, event_id) {
            Some(why) => turned_down(result, why, old(storage)@, final(storage)@),
            None => result is Ok && final(storage)@ == old(storage)@.with_event(
                event_id,
                old(storage)@.events[event_id].distributed(),
            ) && outcome(
                old(storage)@.events[event_id],
                old(storage)@.events[event_id].distributed(),
            ),
        },
{
    match check_event(user, storage, event_id) {
        Err(why) => {
            return Err(why);
        },
        Ok(_) => {},
    }
    let mut event = storage.take_event(event_id);
    let done = event.close_and_distribute();
    storage.put_event(event_id, event);
    proof {
        lemma_put_back(old(storage)@, event_id, event@);
    }
    match done {
        Ok(_) => Ok(()),
        Err(_) => Err(Rejection::BadRequest),
    }
}

/// Why a change of state is turned down: the general reasons, a state that
/// cannot be asked for by name, or a transition that the table does not
/// hold.
pub open spec fn state_refusal(
    user: SessionUserType,
    storage: StorageView,
    event_id: u128,
    name: Seq<char>,
) -> Option<Rejection> {
    match event_refusal(user, storage, event_id) {
        Some(why) => Some(why),
        None => match requested_state(name) {
            Some(target) => if storage.events[event_id].state.allows(target) {
                None
            } else {
                Some(Rejection::BadRequest)
            },
            None => Some(Rejection::BadRequest),
        },
    }
}

/// Opens or closes the registration of event `event_id`, as the form asks.
pub fn set_event_state(
    user: &SessionUserType,
    storage: &mut Storage,
    event_id: u128,
    form: SetStateForm,
) -> (result: Result<(), Rejection>)
    ensures
        match state_refusal(*user, old(storage)@, event_id, form.state@) {
            Some(why) => turned_down(result, why, old(storage)@, final(storage)@),
            None => result is Ok && final(storage)@ == old(storage)@.with_event(
                event_id,
                old(storage)@.events[event_id].with_state(requested_state(form.state@)->0),
            ),
        },
{
    match check_event(user, storage, event_id) {
        Err(why) => {
            return Err(why);
        },
        Ok(_) => {},
    }
    let target = match parse_requested_state(form.state.as_str()) {
        Some(target) => target,
        None => {
            return Err(Rejection::BadRequest);
        },
    };
    let mut event = storage.take_event(event_id);
    let moved = event.transition_to(target);
    storage.put_event(event_id, event);
    proof {
        lemma_put_back(old(storage)@, event_id, event@);
    }
    match moved {
        Ok(_) => Ok(()),
        Err(_) => Err(Rejection::BadRequest),
    }
}

/// Adds a slot to event `event_id` and returns the slot's identifier. The
/// name is trimmed and must not be blank; a blank description is dropped.
pub fn create_slot(
    user: &SessionUserType,
    storage: &mut Storage,
    event_id: u128,
    form: CreateSlotForm,
) -> (result: Result<u128, Rejection>)
    ensures
        match event_refusal(*user, old(storage)@, event_id) {
            Some(why) => turned_down(result, why, old(storage)@, final(storage)@),
            None => if trimmed(form.name@).len() == 0 {
                turned_down(result, Rejection::BadRequest, old(storage)@, final(storage)@)
            } else {
                result matches Ok(id) && is_random_id(id) && final(storage)@ == old(
                    storage,
                )@.with_event(
                    event_id,
                    old(storage)@.events[event_id].with_slot_added(
                        new_slot(id, trimmed(form.name@), cleaned(text_view(form.description))),
                    ),
                )
            },
        },
{
    match check_event(user, storage, event_id) {
        Err(why) => {
            return Err(why);
        },
        Ok(_) => {},
    }
    let name = trim(form.name.as_str());
    if name.as_str().is_empty() {
        return Err(Rejection::BadRequest);
    }
    let slot = Slot::new(name, clean(form.description));
    let id = slot.uuid;
    let mut event = storage.take_event(event_id);
    event.slots.push(slot);
    assert(event@.slots =~= old(storage)@.events[event_id].slots.push(slot@));
    storage.put_event(event_id, event);
    proof {
        lemma_put_back(old(storage)@, event_id, event@);
    }
    Ok(id)
}

/// Gives slot `slot_id` of event `event_id` the name and description of
/// the form.
pub fn edit_slot(
    user: &SessionUserType,
    storage: &mut Storage,
    event_id: u128,
    slot_id: u128,
    form: EditSlotForm,
) -> (result: Result<(), Rejection>)
    ensures
        match slot_refusal(*user, old(storage)@, event_id, slot_id) {
            Some(why) => turned_down(result, why, old(storage)@, final(storage)@),
            None => if trimmed(form.name@).len() == 0 {
                turned_down(result, Rejection::BadRequest, old(storage)@, final(storage)@)
            } else {
                let event = old(storage)@.events[event_id];
                let i = event.slot_index(slot_id)->0;
                result is Ok && final(storage)@ == old(storage)@.with_event(
                    event_id,
                    event.with_slot(
                        i,
                        SlotView {
                            name: trimmed(form.name@),
                            description: cleaned(text_view(form.description)),
                            ..event.slots[i]
                        },
                    ),
                )
            },
        },
{
    match check_event(user, storage, event_id) {
        Err(why) => {
            return Err(why);
        },
        Ok(_) => {},
    }
    let mut event = storage.take_event(event_id);
    let ghost before = event@;
    let outcome = match event.find_slot(slot_id) {
        Some(i) => {
            let name = trim(form.name.as_str());
            if name.as_str().is_empty() {
                Err(Rejection::BadRequest)
            } else {
                proof {
                    lemma_first_index_none(slot_ids(before.slots), slot_id);
                    assert(before.slots[i as int] == event.slots@[i as int]@);
                }
                event.slots[i].name = name;
                event.slots[i].description = clean(form.description);
                assert(event@.slots =~= before.slots.update(
                    i as int,
                    SlotView {
                        name: trimmed(form.name@),
                        description: cleaned(text_view(form.description)),
                        ..before.slots[i as int]
                    },
                ));
                Ok(())
            }
        },
        None => Err(Rejection::NotFound),
    };
    storage.put_event(event_id, event);
    proof {
        lemma_put_back(old(storage)@, event_id, event@);
    }
    outcome
}

/// Deletes slot `slot_id` from event `event_id`, if the event has it.
pub fn delete_slot(
    user: &SessionUserType,
    storage: &mut Storage,
    event_id: u128,
    slot_id: u128,
) -> (result: Result<(), Rejection>)
    ensures
        match event_refusal(*user, old(storage)@, event_id) {
            Some(why) => turned_down(result, why, old(storage)@, final(storage)@),
            None => result is Ok && final(storage)@ == old(storage)@.with_event(
                event_id,
                old(storage)@.events[event_id].without_slot(slot_id),
            ),
        },
{
    match check_event(user, storage, event_id) {
        Err(why) => {
            return Err(why);
        },
        Ok(_) => {},
    }
    let mut event = storage.take_event(event_id);
    event.remove_slot(slot_id);
    storage.put_event(event_id, event);
    proof {
        lemma_put_back(old(storage)@, event_id, event@);
    }
    Ok(())
}

/// Adds a session to slot `slot_id` of event `event_id` and returns the
/// session's identifier. The name is trimmed and must not be blank, and
/// the seats must be allowed.
pub fn create_session(
    user: &SessionUserType,
    storage: &mut Storage,
    event_id: u128,
    slot_id: u128,
    form: CreateSessionForm,
) -> (result: Result<u128, Rejection>)
    ensures
        match slot_refusal(*user, old(storage)@, event_id, slot_id) {
            Some(why) => turned_down(result, why, old(storage)@, final(storage)@),
            None => if trimmed(form.name@).len() == 0 || !seats_allowed(form.seats) {
                turned_down(result, Rejection::BadRequest, old(storage)@, final(storage)@)
            } else {
                let event = old(storage)@.events[event_id];
                let i = event.slot_index(slot_id)->0;
                result matches Ok(id) && is_random_id(id) && final(storage)@ == old(
                    storage,
                )@.with_event(
                    event_id,
                    event.with_slot(
                        i,
                        event.slots[i].with_session_added(
                            new_session(
                                id,
                                trimmed(form.name@),
                                cleaned(text_view(form.description)),
                                form.seats,
                            ),
                        ),
                    ),
                )
            },
        },
{
    match check_event(user, storage, event_id) {
        Err(why) => {
            return Err(why);
        },
        Ok(_) => {},
    }
    let mut event = storage.take_event(event_id);
    let ghost before = event@;
    let outcome = match event.find_slot(slot_id) {
        Some(i) => {
            let name = trim(form.name.as_str());
            if name.as_str().is_empty() || form.seats < 1 || form.seats > MAX_SEATS {
                Err(Rejection::BadRequest)
            } else {
                proof {
                    lemma_first_index_none(slot_ids(before.slots), slot_id);
                    assert(before.slots[i as int] == event.slots@[i as int]@);
                }
                let session = Session::new(name, clean(form.description), form.seats);
                let id = session.uuid;
                event.slots[i].sessions.push(session);
                proof {
                    assert(event.slots@[i as int]@.sessions =~= before.slots[i as int].sessions.push(
                        session@,
                    ));
                    assert(event@.slots =~= before.slots.update(
                        i as int,
                        before.slots[i as int].with_session_added(session@),
                    ));
                }
                Ok(id)
            }
        },
        None => Err(Rejection::NotFound),
    };
    storage.put_event(event_id, event);
    proof {
        lemma_put_back(old(storage)@, event_id, event@);
    }
    outcome
}

/// Gives session `session_id` the name, description and seats of the form.
pub fn edit_session(
    user: &SessionUserType,
    storage: &mut Storage,
    event_id: u128,
    slot_id: u128,
    session_id: u128,
    form: EditSessionForm,
) -> (result: Result<(), Rejection>)
    ensures
        match session_refusal(*user, old(storage)@, event_id, slot_id, session_id) {
            Some(why) => turned_down(result, why, old(storage)@, final(storage)@),
            None => if trimmed(form.name@).len() == 0 || !seats_allowed(form.seats) {
                turned_down(result, Rejection::BadRequest, old(storage)@, final(storage)@)
            } else {
                let event = old(storage)@.events[event_id];
                let i = event.slot_index(slot_id)->0;
                let k = event.slots[i].session_index(session_id)->0;
                result is Ok && final(storage)@ == old(storage)@.with_event(
                    event_id,
                    event.with_slot(
                        i,
                        event.slots[i].with_session(
                            k,
                            SessionView {
                                name: trimmed(form.name@),
                                description: cleaned(text_view(form.description)),
                                seats: form.seats,
                                ..event.slots[i].sessions[k]
                            },
                        ),
                    ),
                )
            },
        },
{
    match check_event(user, storage, event_id) {
        Err(why) => {
            return Err(why);
        },
        Ok(_) => {},
    }
    let mut event = storage.take_event(event_id);
    let ghost before = event@;
    let outcome = match event.find_slot(slot_id) {
        Some(i) => {
            proof {
                lemma_first_index_none(slot_ids(before.slots), slot_id);
                assert(before.slots[i as int] == event.slots@[i as int]@);
            }
            match event.slots[i].find_session(session_id) {
                Some(k) => {
                    let name = trim(form.name.as_str());
                    if name.as_str().is_empty() || form.seats < 1 || form.seats > MAX_SEATS {
                        Err(Rejection::BadRequest)
                    } else {
                        let ghost slot = before.slots[i as int];
                        proof {
                            lemma_first_index_none(session_ids(slot.sessions), session_id);
                            assert(slot.sessions[k as int] == event.slots@[i as int].sessions@[k as int]@);
                        }
                        event.slots[i].sessions[k].name = name;
                        event.slots[i].sessions[k].description = clean(form.description);
                        event.slots[i].sessions[k].seats = form.seats;
                        proof {
                            let edited = SessionView {
                                name: trimmed(form.name@),
                                description: cleaned(text_view(form.description)),
                                seats: form.seats,
                                ..slot.sessions[k as int]
                            };
                            assert(event.slots@[i as int]@.sessions =~= slot.sessions.update(
                                k as int,
                                edited,
                            ));
                            assert(event@.slots =~= before.slots.update(
                                i as int,
                                slot.with_session(k as int, edited),
                            ));
                        }
                        Ok(())
                    }
                },
                None => Err(Rejection::NotFound),
            }
        },
        None => Err(Rejection::NotFound),
    };
    storage.put_event(event_id, event);
    proof {
        lemma_put_back(old(storage)@, event_id, event@);
    }
    outcome
}

/// Deletes session `session_id` from slot `slot_id`, if the slot has it.
pub fn delete_session(
    user: &SessionUserType,
    storage: &mut Storage,
    event_id: u128,
    slot_id: u128,
    session_id: u128,
) -> (result: Result<(), Rejection>)
    ensures
        match slot_refusal(*user, old(storage)@, event_id, slot_id) {
            Some(why) => turned_down(result, why, old(storage)@, final(storage)@),
            None => {
                let event = old(storage)@.events[event_id];
                let i = event.slot_index(slot_id)->0;
                result is Ok && final(storage)@ == old(storage)@.with_event(
                    event_id,
                    event.with_slot(i, event.slots[i].without_session(session_id)),
                )
            },
        },
{
    match check_event(user, storage, event_id) {
        Err(why) => {
            return Err(why);
        },
        Ok(_) => {},
    }
    let mut event = storage.take_event(event_id);
    let ghost before = event@;
    let outcome = match event.find_slot(slot_id) {
        Some(i) => {
            proof {
                lemma_first_index_none(slot_ids(before.slots), slot_id);
                assert(before.slots[i as int] == event.slots@[i as int]@);
            }
            event.slots[i].remove_session(session_id);
            assert(event@.slots =~= before.slots.update(
                i as int,
                before.slots[i as int].without_session(session_id),
            ));
            Ok(())
        },
        None => Err(Rejection::NotFound),
    };
    storage.put_event(event_id, event);
    proof {
        lemma_put_back(old(storage)@, event_id, event@);
    }
    outcome
}

impl Storage {
    /// Issues an invitation to event `event_id` for the code on `line`,
    /// unless the line is blank or the code is taken.
    pub fn invite(&mut self, line: &str, event_id: u128)
        ensures
            final(self)@ == old(self)@.with_invitations(
                with_code(old(self)@.invitations, line@, event_id),
            ),
            old(self)@.well_formed() ==> final(self)@.well_formed(),
    {
        let code = trim(line);
        if code.as_str().is_empty() {
            return ;
        }
        if self.find_invitation(code.as_str()).is_some() {
            proof {
                lemma_first_index_none(codes(self@.invitations), code@);
            }
            return ;
        }
        let ghost before = codes(self@.invitations);
        let invitation = Invitation { code, event_id, participant_id: None };
        self.invitations_codes.push(invitation);
        proof {
            lemma_first_index_none(before, invitation@.code);
            assert(self@.invitations =~= old(self)@.invitations.push(invitation@));
            assert(codes(self@.invitations) =~= before.push(invitation@.code));
            if before.no_duplicates() {
                lemma_push_distinct(before, invitation@.code);
            }
        }
    }
}

/// Issues invitations to event `event_id`, one for the code on each line
/// of the form. Blank lines and codes that are taken are passed over.
pub fn add_invites_bulk(
    user: &SessionUserType,
    storage: &mut Storage,
    event_id: u128,
    form: BulkInvitesForm,
) -> (result: Result<(), Rejection>)
    ensures
        match event_refusal(*user, old(storage)@, event_id) {
            Some(why) => turned_down(result, why, old(storage)@, final(storage)@),
            None => result is Ok && final(storage)@ == old(storage)@.with_invitations(
                with_codes(old(storage)@.invitations, lines_of(form.codes@), event_id),
            ),
        },
        old(storage)@.well_formed() ==> final(storage)@.well_formed(),
{
    match check_event(user, storage, event_id) {
        Err(why) => {
            return Err(why);
        },
        Ok(_) => {},
    }
    let found = lines(form.codes.as_str());
    let ghost all = lines_of(form.codes@);
    let mut i: usize = 0;
    proof {
        assert(all.skip(0) =~= all);
    }
    while i < found.len()
        invariant
            i <= found.len(),
            all == text_views(found@),
            storage@.with_invitations(old(storage)@.invitations) == old(storage)@,
            with_codes(storage@.invitations, all.skip(i as int), event_id) == with_codes(
                old(storage)@.invitations,
                all,
                event_id,
            ),
            old(storage)@.well_formed() ==> storage@.well_formed(),
        decreases found.len() - i,
    {
        proof {
            assert(all.skip(i as int).first() == found@[i as int]@);
            assert(all.skip(i as int).drop_first() =~= all.skip(i + 1));
        }
        storage.invite(found[i].as_str(), event_id);
        i += 1;
    }
    Ok(())
}

/// Revokes the invitation `code` of event `event_id`: the participant who
/// registered with it leaves the event, and the code is free again.
pub fn delete_invite(
    user: &SessionUserType,
    storage: &mut Storage,
    event_id: u128,
    code: &str,
) -> (result: Result<(), Rejection>)
    ensures
        !(*user is Admin) ==> turned_down(
            result,
            Rejection::Forbidden,
            old(storage)@,
            final(storage)@,
        ),
        *user is Admin ==> result is Ok && final(storage)@ == without_invitation(
            old(storage)@,
            event_id,
            code@,
        ),
        old(storage)@.well_formed() ==> final(storage)@.well_formed(),
{
    if !user.is_admin() {
        return Err(Rejection::Forbidden);
    }
    match storage.find_invitation(code) {
        Some(i) => {
            proof {
                lemma_first_index_none(codes(storage@.invitations), code@);
                assert(storage@.invitations[i as int] == storage.invitations_codes@[i as int]@);
            }
            if storage.invitations_codes[i].event_id == event_id {
                match storage.invitations_codes[i].participant_id {
                    Some(participant) => {
                        if storage.has_event(event_id) {
                            let mut event = storage.take_event(event_id);
                            event.remove_participant(participant);
                            storage.put_event(event_id, event);
                            proof {
                                lemma_put_back(old(storage)@, event_id, event@);
                            }
                        }
                    },
                    None => {},
                }
                let ghost before = storage@.invitations;
                storage.invitations_codes.remove(i);
                proof {
                    assert(storage@.invitations =~= before.remove(i as int));
                    assert(codes(storage@.invitations) =~= codes(before).remove(i as int));
                    if codes(before).no_duplicates() {
                        lemma_remove_distinct(codes(before), i as int);
                    }
                }
            }
        },
        None => {},
    }
    Ok(())
}

} // verus!
