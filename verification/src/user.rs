//! What an invited participant may ask for: registering a name and
//! submitting preferences for a slot.

use crate::application::{Participant, ParticipantView};
use crate::editing::{distinct_picks, picks_are_distinct, slot_ids};
use crate::event::Event;
use crate::ident::fresh_id;
use crate::lookup::lemma_first_index_none;
use crate::request::{Rejection, SessionUserType};
use crate::storage::{codes, lemma_put_back, InvitationView, Storage, StorageView};
use crate::text::{trim, trimmed};
use vstd::prelude::*;

verus! {

pub struct SaveNameForm {
    pub name: String,
}

pub struct PreferencesForm {
    pub first: Option<u128>,
    pub second: Option<u128>,
    pub third: Option<u128>,
}

/// A participant who has just registered: no name yet and no points.
pub open spec fn blank_participant(id: u128) -> ParticipantView {
    ParticipantView { uuid: id, name: Seq::empty(), points: 0 }
}

/// Why a request of a participant is turned down before it is looked at:
/// the requester is no participant, the invitation is not known, or its
/// event is gone.
pub open spec fn invitation_refusal(user: SessionUserType, storage: StorageView) -> Option<
    Rejection,
> {
    match user.code() {
        None => Some(Rejection::Forbidden),
        Some(code) => match storage.invitation_index(code) {
            None => Some(Rejection::Unauthorized),
            Some(i) => if storage.events.contains_key(storage.invitations[i].event_id) {
                None
            } else {
                Some(Rejection::NotFound)
            },
        },
    }
}

impl StorageView {
    /// The storage with a participant entry for invitation `i`: if the
    /// invitation has none, a blank participant `fresh` joins the event and
    /// the invitation points to it.
    pub open spec fn registered(self, i: int, fresh: u128) -> StorageView {
        let invitation = self.invitations[i];
        match invitation.participant_id {
            Some(_) => self,
            None => {
                let event = self.events[invitation.event_id];
                self.with_event(
                    invitation.event_id,
                    event.with_participants(
                        event.participants.insert(fresh, blank_participant(fresh)),
                    ),
                ).with_invitations(
                    self.invitations.update(
                        i,
                        InvitationView { participant_id: Some(fresh), ..invitation },
                    ),
                )
            },
        }
    }

    /// The storage with the participant `participant` of event `event_id`
    /// called `name`, if the event has the participant.
    pub open spec fn renamed(
        self,
        event_id: u128,
        participant: u128,
        name: Seq<char>,
    ) -> StorageView {
        let event = self.events[event_id];
        if event.participants.contains_key(participant) {
            self.with_event(
                event_id,
                event.with_participants(
                    event.participants.insert(
                        participant,
                        ParticipantView { name, ..event.participants[participant] },
                    ),
                ),
            )
        } else {
            self
        }
    }

    /// The storage after the holder of invitation `i` registered as `name`,
    /// with `fresh` as the identifier of a participant entry that had to be
    /// made.
    pub open spec fn with_name(self, i: int, name: Seq<char>, fresh: u128) -> StorageView {
        let joined = self.registered(i, fresh);
        joined.renamed(
            self.invitations[i].event_id,
            joined.invitations[i].participant_id->0,
            name,
        )
    }
}

impl Storage {
    /// Makes sure invitation `i` has a participant entry, using `fresh` as
    /// the identifier if one has to be made, and returns the participant's
    /// identifier.
    pub fn register(&mut self, i: usize, fresh: u128) -> (participant: u128)
        requires
            i < old(self).invitations_codes.len(),
            old(self)@.events.contains_key(old(self)@.invitations[i as int].event_id),
        ensures
            final(self)@ == old(self)@.registered(i as int, fresh),
            final(self)@.invitations[i as int].participant_id == Some(participant),
            old(self)@.well_formed() ==> final(self)@.well_formed(),
    {
        broadcast use vstd::std_specs::hash::group_hash_axioms;

        assert(self@.invitations[i as int] == self.invitations_codes@[i as int]@);
        match self.invitations_codes[i].participant_id {
            Some(participant) => participant,
            None => {
                let event_id = self.invitations_codes[i].event_id;
                let mut event = self.take_event(event_id);
                let ghost before = event@;
                event.participants.insert(
                    fresh,
                    Participant { uuid: fresh, name: String::new(), points_from_previous_rounds: 0 },
                );
                assert(event@.participants =~= before.participants.insert(
                    fresh,
                    blank_participant(fresh),
                ));
                self.put_event(event_id, event);
                assert(self@.invitations.len() == old(self)@.invitations.len());
                assert(self@.invitations[i as int] == self.invitations_codes@[i as int]@);
                self.invitations_codes[i].participant_id = Some(fresh);
                proof {
                    lemma_put_back(old(self)@, event_id, event@);
                    assert(self@.invitations =~= old(self)@.invitations.update(
                        i as int,
                        InvitationView {
                            participant_id: Some(fresh),
                            ..old(self)@.invitations[i as int]
                        },
                    ));
                    assert(codes(self@.invitations) =~= codes(old(self)@.invitations));
                }
                fresh
            },
        }
    }

    /// Calls the participant `participant` of event `event_id` `name`, if
    /// the event has the participant.
    pub fn rename(&mut self, event_id: u128, participant: u128, name: String)
        requires
            old(self)@.events.contains_key(event_id),
        ensures
            final(self)@ == old(self)@.renamed(event_id, participant, name@),
    {
        broadcast use vstd::std_specs::hash::group_hash_axioms;

        let mut event = self.take_event(event_id);
        let ghost before = event@;
        match event.participants.remove(&participant) {
            Some(mut entry) => {
                entry.name = name;
                event.participants.insert(participant, entry);
                assert(event@.participants =~= before.participants.insert(
                    participant,
                    ParticipantView { name: name@, ..before.participants[participant] },
                ));
            },
            None => {
                assert(event@.participants =~= before.participants);
            },
        }
        self.put_event(event_id, event);
        proof {
            lemma_put_back(old(self)@, event_id, event@);
        }
    }
}

pub(crate) fn invitation_of(user: &SessionUserType, storage: &Storage) -> (result: Result<
    usize,
    Rejection,
>)
    ensures
        match invitation_refusal(*user, storage@) {
            Some(why) => result == Err::<usize, Rejection>(why),
            None => result matches Ok(i) && storage@.invitation_index(user.code()->0) == Some(
                i as int,
            ) && i < storage.invitations_codes.len(),
        },
{
    match user {
        SessionUserType::Admin => Err(Rejection::Forbidden),
        SessionUserType::User { code } => match storage.find_invitation(code.as_str()) {
            Some(i) => {
                assert(storage@.invitations[i as int] == storage.invitations_codes@[i as int]@);
                if storage.has_event(storage.invitations_codes[i].event_id) {
                    Ok(i)
                } else {
                    Err(Rejection::NotFound)
                }
            },
            None => Err(Rejection::Unauthorized),
        },
    }
}

/// Registers the name of the form, trimmed, for the holder of the
/// invitation. A holder who had no participant entry gets one.
pub fn save_name(user: &SessionUserType, storage: &mut Storage, form: SaveNameForm) -> (result:
    Result<(), Rejection>)
    ensures
        match invitation_refusal(*user, old(storage)@) {
            Some(why) => result == Err::<(), Rejection>(why) && final(storage)@ == old(storage)@,
            None => result is Ok && exists|fresh: u128| #[trigger]
                old(storage)@.with_name(
                    old(storage)@.invitation_index(user.code()->0)->0,
                    trimmed(form.name@),
                    fresh,
                ) == final(storage)@,
        },
        old(storage)@.well_formed() ==> final(storage)@.well_formed(),
{
    let i = match invitation_of(user, storage) {
        Ok(i) => i,
        Err(why) => {
            return Err(why);
        },
    };
    assert(storage@.invitations[i as int] == storage.invitations_codes@[i as int]@);
    let event_id = storage.invitations_codes[i].event_id;
    let fresh = match storage.invitations_codes[i].participant_id {
        Some(participant) => participant,
        None => fresh_id(),
    };
    let participant = storage.register(i, fresh);
    storage.rename(event_id, participant, trim(form.name.as_str()));
    proof {
        assert(old(storage)@.with_name(i as int, trimmed(form.name@), fresh) == storage@);
    }
    Ok(())
}

/// Why a submission of preferences is turned down, in the order the
/// reasons are looked for.
pub open spec fn preferences_refusal(
    user: SessionUserType,
    storage: StorageView,
    slot_id: u128,
    picks: (Option<u128>, Option<u128>, Option<u128>),
) -> Option<Rejection> {
    match user.code() {
        None => Some(Rejection::Forbidden),
        Some(code) => if !distinct_picks(picks) {
            Some(Rejection::BadRequest)
        } else {
            match storage.invitation_index(code) {
                None => Some(Rejection::Unauthorized),
                Some(i) => match storage.invitations[i].participant_id {
                    None => Some(Rejection::BadRequest),
                    Some(participant) => if !storage.events.contains_key(
                        storage.invitations[i].event_id,
                    ) {
                        Some(Rejection::NotFound)
                    } else {
                        let event = storage.events[storage.invitations[i].event_id];
                        if !event.participants.contains_key(participant) || trimmed(
                            event.participants[participant].name,
                        ).len() == 0 {
                            Some(Rejection::BadRequest)
                        } else {
                            match event.slot_index(slot_id) {
                                None => Some(Rejection::NotFound),
                                Some(s) => if event.slots[s].offers(picks.0)
                                    && event.slots[s].offers(picks.1) && event.slots[s].offers(
                                    picks.2,
                                ) {
                                    None
                                } else {
                                    Some(Rejection::BadRequest)
                                },
                            }
                        }
                    },
                },
            }
        },
    }
}

impl StorageView {
    /// The storage after the holder of invitation `code` replaced the
    /// preferences for slot `slot_id` by `picks`, the new applications
    /// carrying the identifiers `ids`.
    pub open spec fn with_preferences(
        self,
        code: Seq<char>,
        slot_id: u128,
        picks: (Option<u128>, Option<u128>, Option<u128>),
        ids: (u128, u128, u128),
    ) -> StorageView {
        let invitation = self.invitations[self.invitation_index(code)->0];
        let event = self.events[invitation.event_id];
        let s = event.slot_index(slot_id)->0;
        self.with_event(
            invitation.event_id,
            event.with_slot(
                s,
                event.slots[s].with_preferences(invitation.participant_id->0, picks, ids),
            ),
        )
    }
}

impl Event {
    /// Whether the event has the participant `participant` under a name
    /// that is not blank.
    pub fn has_named_participant(&self, participant: u128) -> (named: bool)
        ensures
            named == (self@.participants.contains_key(participant) && trimmed(
                self@.participants[participant].name,
            ).len() > 0),
    {
        broadcast use vstd::std_specs::hash::group_hash_axioms;

        match self.participants.get(&participant) {
            Some(entry) => !trim(entry.name.as_str()).as_str().is_empty(),
            None => false,
        }
    }
}

/// Replaces the preferences of the holder of the invitation for slot
/// `slot_id` by the picks of the form: one application per pick, ranked
/// first, second and third preference.
///
/// The picks must name different sessions of the slot, and the holder must
/// have registered a name. Whether the event still takes preferences is
/// for the caller to see to.
pub fn save_preferences(
    user: &SessionUserType,
    storage: &mut Storage,
    slot_id: u128,
    form: PreferencesForm,
) -> (result: Result<(), Rejection>)
    ensures
        match preferences_refusal(
            *user,
            old(storage)@,
            slot_id,
            (form.first, form.second, form.third),
        ) {
            Some(why) => result == Err::<(), Rejection>(why) && final(storage)@ == old(storage)@,
            None => result is Ok && exists|ids: (u128, u128, u128)| #[trigger]
                old(storage)@.with_preferences(
                    user.code()->0,
                    slot_id,
                    (form.first, form.second, form.third),
                    ids,
                ) == final(storage)@,
        },
{
    let code = match user {
        SessionUserType::Admin => {
            return Err(Rejection::Forbidden);
        },
        SessionUserType::User { code } => code,
    };
    if !picks_are_distinct(form.first, form.second, form.third) {
        return Err(Rejection::BadRequest);
    }
    let i = match storage.find_invitation(code.as_str()) {
        Some(i) => i,
        None => {
            return Err(Rejection::Unauthorized);
        },
    };
    assert(storage@.invitations[i as int] == storage.invitations_codes@[i as int]@);
    let participant = match storage.invitations_codes[i].participant_id {
        Some(participant) => participant,
        None => {
            return Err(Rejection::BadRequest);
        },
    };
    let event_id = storage.invitations_codes[i].event_id;
    if !storage.has_event(event_id) {
        return Err(Rejection::NotFound);
    }
    let mut event = storage.take_event(event_id);
    let ghost before = event@;
    let outcome = if !event.has_named_participant(participant) {
        Err(Rejection::BadRequest)
    } else {
        match event.find_slot(slot_id) {
            None => Err(Rejection::NotFound),
            Some(s) => {
                proof {
                    lemma_first_index_none(slot_ids(before.slots), slot_id);
                    assert(before.slots[s as int] == event.slots@[s as int]@);
                }
                if event.slots[s].has_pick(form.first) && event.slots[s].has_pick(form.second)
                    && event.slots[s].has_pick(form.third) {
                    let ids = (fresh_id(), fresh_id(), fresh_id());
                    event.slots[s].set_preferences(
                        participant,
                        form.first,
                        form.second,
                        form.third,
                        ids,
                    );
                    proof {
                        assert(event@.slots =~= before.slots.update(
                            s as int,
                            before.slots[s as int].with_preferences(
                                participant,
                                (form.first, form.second, form.third),
                                ids,
                            ),
                        ));
                        assert(old(storage)@.with_event(event_id, event@) == old(
                            storage,
                        )@.with_preferences(
                            code@,
                            slot_id,
                            (form.first, form.second, form.third),
                            ids,
                        ));
                    }
                    Ok(())
                } else {
                    Err(Rejection::BadRequest)
                }
            },
        }
    };
    storage.put_event(event_id, event);
    proof {
        lemma_put_back(old(storage)@, event_id, event@);
    }
    outcome
}

} // verus!
