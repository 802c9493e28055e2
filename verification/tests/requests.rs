use seat_allocation::admin::{
    add_invites_bulk, close_and_distribute, create_event, create_session, create_slot,
    delete_event, delete_invite, delete_session, delete_slot, edit_session, edit_slot,
    parse_requested_state, set_event_state, BulkInvitesForm, CreateEventForm, CreateSessionForm,
    CreateSlotForm, EditSessionForm, EditSlotForm, SetStateForm, MAX_SEATS,
};
use seat_allocation::admin_view;
use seat_allocation::application::Application;
use seat_allocation::auth::{invitation_login, login_admin, login_user, LoginRequest, UserLoginRequest};
use seat_allocation::event::EventState;
use seat_allocation::priority::ApplicationPriority;
use seat_allocation::request::{require_admin, Rejection, SessionUserType};
use seat_allocation::storage::{AdminAccount, Storage};
use seat_allocation::text::clean;
use seat_allocation::user::{save_name, save_preferences, PreferencesForm, SaveNameForm};
use seat_allocation::user_view;

fn admin() -> SessionUserType {
    SessionUserType::Admin
}

fn holder(code: &str) -> SessionUserType {
    SessionUserType::User { code: code.to_string() }
}

fn event_form(name: &str, description: Option<&str>) -> CreateEventForm {
    CreateEventForm { name: name.to_string(), description: description.map(|d| d.to_string()) }
}

fn slot_form(name: &str, description: Option<&str>) -> CreateSlotForm {
    CreateSlotForm { name: name.to_string(), description: description.map(|d| d.to_string()) }
}

fn session_form(name: &str, seats: usize) -> CreateSessionForm {
    CreateSessionForm { name: name.to_string(), description: None, seats }
}

fn state_form(state: &str) -> SetStateForm {
    SetStateForm { state: state.to_string() }
}

fn picks(first: Option<u128>, second: Option<u128>, third: Option<u128>) -> PreferencesForm {
    PreferencesForm { first, second, third }
}

struct World {
    storage: Storage,
    event: u128,
    slot: u128,
    math: u128,
    art: u128,
    music: u128,
}

fn world() -> World {
    let mut storage = Storage::new();
    let event = create_event(&admin(), &mut storage, event_form("Conference", None)).unwrap();
    let slot = create_slot(&admin(), &mut storage, event, slot_form("Morning", None)).unwrap();
    let math = create_session(&admin(), &mut storage, event, slot, session_form("Math", 1)).unwrap();
    let art = create_session(&admin(), &mut storage, event, slot, session_form("Art", 1)).unwrap();
    let music = create_session(&admin(), &mut storage, event, slot, session_form("Music", 2)).unwrap();
    let codes = BulkInvitesForm { codes: "alpha\nbeta\ngamma".to_string() };
    add_invites_bulk(&admin(), &mut storage, event, codes).unwrap();
    World { storage, event, slot, math, art, music }
}

fn named_world() -> World {
    let mut world = world();
    for (code, name) in [("alpha", "Ada"), ("beta", "Bob"), ("gamma", "Cyd")] {
        save_name(&holder(code), &mut world.storage, SaveNameForm { name: name.to_string() }).unwrap();
    }
    world
}

fn participant_of(world: &World, code: &str) -> u128 {
    let i = world.storage.find_invitation(code).unwrap();
    world.storage.invitations_codes[i].participant_id.unwrap()
}

fn queue(world: &World, session: usize) -> Vec<(u128, ApplicationPriority)> {
    world.storage.events[&world.event].slots[0].sessions[session]
        .applications
        .iter()
        .map(|a: &Application| (a.participant, a.priority))
        .collect()
}

#[test]
fn only_administrators_pass() {
    assert_eq!(require_admin(&admin()), Ok(()));
    assert_eq!(require_admin(&holder("alpha")), Err(Rejection::Forbidden));
    assert!(admin().is_admin());
    assert!(!holder("alpha").is_admin());
}

#[test]
fn create_event_trims_the_name() {
    let mut storage = Storage::new();
    let id = create_event(&admin(), &mut storage, event_form("  Conference \n", Some("  \t "))).unwrap();
    let event = &storage.events[&id];
    assert_eq!(event.uuid, id);
    assert_eq!(event.name, "Conference");
    assert_eq!(event.description, None);
    assert_eq!(event.state, EventState::NotOpenedYet);
    assert!(event.slots.is_empty() && event.participants.is_empty());
    let other = create_event(&admin(), &mut storage, event_form("Fair", Some(" every year "))).unwrap();
    assert_eq!(storage.events[&other].description, Some("every year".to_string()));
    assert_eq!(storage.events.len(), 2);
}

#[test]
fn create_event_is_turned_down() {
    let mut storage = Storage::new();
    assert_eq!(create_event(&holder("alpha"), &mut storage, event_form("Conference", None)), Err(Rejection::Forbidden));
    assert_eq!(create_event(&holder("alpha"), &mut storage, event_form("", None)), Err(Rejection::Forbidden));
    assert_eq!(create_event(&admin(), &mut storage, event_form(" \u{a0}\t", None)), Err(Rejection::BadRequest));
    assert!(storage.events.is_empty());
}

#[test]
fn clean_drops_blank_texts() {
    assert_eq!(clean(None), None);
    assert_eq!(clean(Some("   ".to_string())), None);
    assert_eq!(clean(Some(" a b ".to_string())), Some("a b".to_string()));
}

#[test]
fn delete_event_removes_the_event() {
    let mut world = world();
    assert_eq!(delete_event(&holder("alpha"), &mut world.storage, world.event), Err(Rejection::Forbidden));
    assert!(world.storage.events.contains_key(&world.event));
    assert_eq!(delete_event(&admin(), &mut world.storage, world.event), Ok(()));
    assert!(world.storage.events.is_empty());
    assert_eq!(delete_event(&admin(), &mut world.storage, world.event), Ok(()));
    assert_eq!(world.storage.invitations_codes.len(), 3);
}

#[test]
fn only_registration_states_can_be_asked_for() {
    assert_eq!(parse_requested_state("NotOpenedYet"), Some(EventState::NotOpenedYet));
    assert_eq!(parse_requested_state("OpenForRegistration"), Some(EventState::OpenForRegistration));
    assert_eq!(parse_requested_state("AssigningSeats"), None);
    assert_eq!(parse_requested_state("Finished"), None);
    assert_eq!(parse_requested_state("notopenedyet"), None);
    assert_eq!(parse_requested_state(""), None);
}

#[test]
fn registration_is_opened_and_closed() {
    let mut world = world();
    let event = world.event;
    assert_eq!(set_event_state(&admin(), &mut world.storage, event, state_form("OpenForRegistration")), Ok(()));
    assert_eq!(world.storage.events[&event].state, EventState::OpenForRegistration);
    assert_eq!(set_event_state(&admin(), &mut world.storage, event, state_form("OpenForRegistration")), Ok(()));
    assert_eq!(set_event_state(&admin(), &mut world.storage, event, state_form("NotOpenedYet")), Ok(()));
    assert_eq!(world.storage.events[&event].state, EventState::NotOpenedYet);
    assert_eq!(set_event_state(&admin(), &mut world.storage, event, state_form("Finished")), Err(Rejection::BadRequest));
    assert_eq!(set_event_state(&holder("alpha"), &mut world.storage, event, state_form("OpenForRegistration")), Err(Rejection::Forbidden));
    assert_eq!(set_event_state(&admin(), &mut world.storage, event + 1, state_form("bogus")), Err(Rejection::NotFound));
    assert_eq!(world.storage.events[&event].state, EventState::NotOpenedYet);
}

#[test]
fn a_finished_event_cannot_be_reopened() {
    let mut world = world();
    let event = world.event;
    set_event_state(&admin(), &mut world.storage, event, state_form("OpenForRegistration")).unwrap();
    assert_eq!(close_and_distribute(&admin(), &mut world.storage, event), Ok(()));
    assert_eq!(world.storage.events[&event].state, EventState::Finished);
    for state in ["OpenForRegistration", "NotOpenedYet"] {
        assert_eq!(set_event_state(&admin(), &mut world.storage, event, state_form(state)), Err(Rejection::BadRequest));
    }
    assert_eq!(close_and_distribute(&admin(), &mut world.storage, event), Err(Rejection::BadRequest));
    assert_eq!(world.storage.events[&event].state, EventState::Finished);
}

#[test]
fn distribution_is_turned_down() {
    let mut world = world();
    let event = world.event;
    assert_eq!(close_and_distribute(&holder("alpha"), &mut world.storage, event), Err(Rejection::Forbidden));
    assert_eq!(close_and_distribute(&admin(), &mut world.storage, event + 1), Err(Rejection::NotFound));
    assert_eq!(close_and_distribute(&admin(), &mut world.storage, event), Err(Rejection::BadRequest));
    assert_eq!(world.storage.events[&event].state, EventState::NotOpenedYet);
}

#[test]
fn slots_are_created_edited_and_deleted() {
    let mut world = world();
    let event = world.event;
    let second = create_slot(&admin(), &mut world.storage, event, slot_form(" Noon ", Some(" lunch "))).unwrap();
    {
        let slots = &world.storage.events[&event].slots;
        assert_eq!(slots.len(), 2);
        assert_eq!((slots[1].uuid, slots[1].name.as_str()), (second, "Noon"));
        assert_eq!(slots[1].description, Some("lunch".to_string()));
        assert!(slots[1].sessions.is_empty());
    }
    let edit = EditSlotForm { name: " Midday".to_string(), description: Some(" ".to_string()) };
    assert_eq!(edit_slot(&admin(), &mut world.storage, event, second, edit), Ok(()));
    {
        let slots = &world.storage.events[&event].slots;
        assert_eq!((slots[1].uuid, slots[1].name.as_str()), (second, "Midday"));
        assert_eq!(slots[1].description, None);
        assert_eq!(slots[0].name, "Morning");
        assert_eq!(slots[0].sessions.len(), 3);
    }
    assert_eq!(delete_slot(&admin(), &mut world.storage, event, world.slot), Ok(()));
    let slots = &world.storage.events[&event].slots;
    assert_eq!(slots.len(), 1);
    assert_eq!(slots[0].uuid, second);
}

#[test]
fn slot_requests_are_turned_down() {
    let mut world = world();
    let event = world.event;
    let slot = world.slot;
    assert_eq!(create_slot(&holder("alpha"), &mut world.storage, event, slot_form("Noon", None)), Err(Rejection::Forbidden));
    assert_eq!(create_slot(&admin(), &mut world.storage, event + 1, slot_form("", None)), Err(Rejection::NotFound));
    assert_eq!(create_slot(&admin(), &mut world.storage, event, slot_form("  ", None)), Err(Rejection::BadRequest));
    let blank = || EditSlotForm { name: " ".to_string(), description: None };
    assert_eq!(edit_slot(&holder("alpha"), &mut world.storage, event, slot, blank()), Err(Rejection::Forbidden));
    assert_eq!(edit_slot(&admin(), &mut world.storage, event + 1, slot, blank()), Err(Rejection::NotFound));
    assert_eq!(edit_slot(&admin(), &mut world.storage, event, slot + 1, blank()), Err(Rejection::NotFound));
    assert_eq!(edit_slot(&admin(), &mut world.storage, event, slot, blank()), Err(Rejection::BadRequest));
    assert_eq!(delete_slot(&holder("alpha"), &mut world.storage, event, slot), Err(Rejection::Forbidden));
    assert_eq!(delete_slot(&admin(), &mut world.storage, event + 1, slot), Err(Rejection::NotFound));
    assert_eq!(delete_slot(&admin(), &mut world.storage, event, slot + 1), Ok(()));
    let slots = &world.storage.events[&event].slots;
    assert_eq!(slots.len(), 1);
    assert_eq!(slots[0].name, "Morning");
}

#[test]
fn sessions_are_created_edited_and_deleted() {
    let mut world = world();
    let (event, slot) = (world.event, world.slot);
    {
        let sessions = &world.storage.events[&event].slots[0].sessions;
        assert_eq!(sessions.iter().map(|s| s.uuid).collect::<Vec<_>>(), vec![world.math, world.art, world.music]);
        assert_eq!(sessions.iter().map(|s| s.seats).collect::<Vec<_>>(), vec![1, 1, 2]);
    }
    let edit = EditSessionForm { name: " Algebra ".to_string(), description: Some("x".to_string()), seats: 7 };
    assert_eq!(edit_session(&admin(), &mut world.storage, event, slot, world.math, edit), Ok(()));
    {
        let sessions = &world.storage.events[&event].slots[0].sessions;
        assert_eq!((sessions[0].name.as_str(), sessions[0].seats), ("Algebra", 7));
        assert_eq!(sessions[0].description, Some("x".to_string()));
        assert_eq!(sessions[0].uuid, world.math);
        assert_eq!((sessions[1].name.as_str(), sessions[1].seats), ("Art", 1));
    }
    assert_eq!(delete_session(&admin(), &mut world.storage, event, slot, world.art), Ok(()));
    let sessions = &world.storage.events[&event].slots[0].sessions;
    assert_eq!(sessions.iter().map(|s| s.uuid).collect::<Vec<_>>(), vec![world.math, world.music]);
}

#[test]
fn seats_must_be_between_one_and_the_limit() {
    let mut world = world();
    let (event, slot) = (world.event, world.slot);
    assert_eq!(MAX_SEATS, 10000);
    assert_eq!(create_session(&admin(), &mut world.storage, event, slot, session_form("Dance", 0)), Err(Rejection::BadRequest));
    assert_eq!(create_session(&admin(), &mut world.storage, event, slot, session_form("Dance", 10001)), Err(Rejection::BadRequest));
    assert_eq!(create_session(&admin(), &mut world.storage, event, slot, session_form(" ", 5)), Err(Rejection::BadRequest));
    assert!(create_session(&admin(), &mut world.storage, event, slot, session_form("Dance", 10000)).is_ok());
    assert!(create_session(&admin(), &mut world.storage, event, slot, session_form("Drama", 1)).is_ok());
    let edit = |seats: usize| EditSessionForm { name: "Math".to_string(), description: None, seats };
    assert_eq!(edit_session(&admin(), &mut world.storage, event, slot, world.math, edit(0)), Err(Rejection::BadRequest));
    assert_eq!(edit_session(&admin(), &mut world.storage, event, slot, world.math, edit(10001)), Err(Rejection::BadRequest));
    assert_eq!(world.storage.events[&event].slots[0].sessions.len(), 5);
    assert_eq!(world.storage.events[&event].slots[0].sessions[0].seats, 1);
}

#[test]
fn session_requests_are_turned_down() {
    let mut world = world();
    let (event, slot, math) = (world.event, world.slot, world.math);
    assert_eq!(create_session(&holder("alpha"), &mut world.storage, event, slot, session_form("Dance", 1)), Err(Rejection::Forbidden));
    assert_eq!(create_session(&admin(), &mut world.storage, event + 1, slot, session_form("Dance", 1)), Err(Rejection::NotFound));
    assert_eq!(create_session(&admin(), &mut world.storage, event, slot + 1, session_form("", 0)), Err(Rejection::NotFound));
    let edit = || EditSessionForm { name: "".to_string(), description: None, seats: 1 };
    assert_eq!(edit_session(&holder("alpha"), &mut world.storage, event, slot, math, edit()), Err(Rejection::Forbidden));
    assert_eq!(edit_session(&admin(), &mut world.storage, event + 1, slot, math, edit()), Err(Rejection::NotFound));
    assert_eq!(edit_session(&admin(), &mut world.storage, event, slot + 1, math, edit()), Err(Rejection::NotFound));
    assert_eq!(edit_session(&admin(), &mut world.storage, event, slot, math + 1, edit()), Err(Rejection::NotFound));
    assert_eq!(edit_session(&admin(), &mut world.storage, event, slot, math, edit()), Err(Rejection::BadRequest));
    assert_eq!(delete_session(&holder("alpha"), &mut world.storage, event, slot, math), Err(Rejection::Forbidden));
    assert_eq!(delete_session(&admin(), &mut world.storage, event + 1, slot, math), Err(Rejection::NotFound));
    assert_eq!(delete_session(&admin(), &mut world.storage, event, slot + 1, math), Err(Rejection::NotFound));
    assert_eq!(delete_session(&admin(), &mut world.storage, event, slot, math + 1), Ok(()));
    assert_eq!(world.storage.events[&event].slots[0].sessions.len(), 3);
}

#[test]
fn invitations_are_issued_line_by_line() {
    let mut world = world();
    let event = world.event;
    let form = BulkInvitesForm { codes: "  delta \r\n\n alpha\nepsilon\n   \ndelta\nzeta".to_string() };
    assert_eq!(add_invites_bulk(&admin(), &mut world.storage, event, form), Ok(()));
    let codes: Vec<&str> = world.storage.invitations_codes.iter().map(|i| i.code.as_str()).collect();
    assert_eq!(codes, vec!["alpha", "beta", "gamma", "delta", "epsilon", "zeta"]);
    assert!(world.storage.invitations_codes.iter().all(|i| i.event_id == event && i.participant_id.is_none()));
    let form = || BulkInvitesForm { codes: "eta".to_string() };
    assert_eq!(add_invites_bulk(&holder("alpha"), &mut world.storage, event, form()), Err(Rejection::Forbidden));
    assert_eq!(add_invites_bulk(&admin(), &mut world.storage, event + 1, form()), Err(Rejection::NotFound));
    assert_eq!(world.storage.invitations_codes.len(), 6);
    world.storage.invite("  eta ", event);
    world.storage.invite(" ", event);
    world.storage.invite("eta", event);
    assert_eq!(world.storage.invitations_codes.len(), 7);
    assert_eq!(world.storage.find_invitation("eta"), Some(6));
    assert_eq!(world.storage.find_invitation("theta"), None);
}

#[test]
fn participants_sign_in_with_their_code() {
    let world = world();
    assert_eq!(invitation_login("beta", &world.storage), Ok(holder("beta")));
    assert_eq!(invitation_login("delta", &world.storage), Err(Rejection::Unauthorized));
    assert_eq!(invitation_login(" beta", &world.storage), Err(Rejection::Unauthorized));
    assert_eq!(login_user(&UserLoginRequest { code: "gamma".to_string() }, &world.storage), Ok(holder("gamma")));
    assert_eq!(login_user(&UserLoginRequest { code: "".to_string() }, &world.storage), Err(Rejection::Unauthorized));
}

#[test]
fn administrators_sign_in_with_their_password() {
    let mut storage = Storage::new();
    let form = |username: &str, password: &str| LoginRequest { username: username.to_string(), password: password.to_string() };
    assert_eq!(login_admin(&form("admin", "secret"), &storage), Err(Rejection::Unauthorized));
    assert!(storage.add_admin("admin".to_string(), "secret").is_ok());
    assert_eq!(storage.admins.len(), 1);
    assert_eq!(storage.admins[0].username, "admin");
    assert!(storage.admins[0].password_hash.starts_with("$argon2id$v=19$"));
    assert_eq!(login_admin(&form("admin", "secret"), &storage), Ok(SessionUserType::Admin));
    assert_eq!(login_admin(&form("admin", "Secret"), &storage), Err(Rejection::Unauthorized));
    assert_eq!(login_admin(&form("Admin", "secret"), &storage), Err(Rejection::Unauthorized));
    assert!(storage.verify_admin("admin", "secret"));
    assert!(!storage.verify_admin("admin", ""));
    assert!(!storage.verify_admin("root", "secret"));
}

#[test]
fn a_new_password_replaces_the_old_one() {
    let mut storage = Storage::new();
    storage.add_admin("admin".to_string(), "first").unwrap();
    storage.add_admin("root".to_string(), "other").unwrap();
    let before = storage.admins[0].password_hash.clone();
    storage.add_admin("admin".to_string(), "second").unwrap();
    assert_eq!(storage.admins.len(), 2);
    assert_eq!(storage.find_admin("admin"), Some(0));
    assert_eq!(storage.find_admin("root"), Some(1));
    assert_eq!(storage.find_admin("nobody"), None);
    assert_ne!(storage.admins[0].password_hash, before);
    assert!(storage.verify_admin("admin", "second"));
    assert!(!storage.verify_admin("admin", "first"));
    assert!(storage.verify_admin("root", "other"));
}

#[test]
fn hashing_depends_on_password_and_salt_alone() {
    let one = AdminAccount::with_salt("admin".to_string(), "secret", "c29tZXNhbHQ").unwrap();
    let two = AdminAccount::with_salt("other".to_string(), "secret", "c29tZXNhbHQ").unwrap();
    let three = AdminAccount::with_salt("admin".to_string(), "secret", "b3RoZXJzYWx0").unwrap();
    let four = AdminAccount::with_salt("admin".to_string(), "Secret", "c29tZXNhbHQ").unwrap();
    assert_eq!(one.username, "admin");
    assert_eq!(one.password_hash, two.password_hash);
    assert_ne!(one.password_hash, three.password_hash);
    assert_ne!(one.password_hash, four.password_hash);
    assert!(one.password_hash.starts_with("$argon2id$v=19$m=19456,t=2,p=1$c29tZXNhbHQ$"));
    assert_ne!(one.password_hash, "secret");
    assert!(AdminAccount::with_salt("admin".to_string(), "secret", "no").is_none());
    assert!(AdminAccount::with_salt("admin".to_string(), "secret", "not a salt!").is_none());
}

#[test]
fn fresh_salts_differ() {
    let one = AdminAccount::new_hashed("admin".to_string(), "secret").unwrap();
    let two = AdminAccount::new_hashed("admin".to_string(), "secret").unwrap();
    assert_ne!(one.password_hash, two.password_hash);
    let mut storage = Storage::new();
    storage.put_admin(one);
    assert!(storage.verify_admin("admin", "secret"));
    storage.put_admin(AdminAccount { username: "broken".to_string(), password_hash: "secret".to_string() });
    assert!(!storage.verify_admin("broken", "secret"));
}

#[test]
fn save_name_registers_the_holder() {
    let mut world = world();
    let event = world.event;
    assert_eq!(save_name(&holder("alpha"), &mut world.storage, SaveNameForm { name: "  Ada ".to_string() }), Ok(()));
    let ada = participant_of(&world, "alpha");
    assert_eq!((ada >> 76) & 0xf, 4);
    {
        let entry = &world.storage.events[&event].participants[&ada];
        assert_eq!((entry.uuid, entry.name.as_str(), entry.points_from_previous_rounds), (ada, "Ada", 0));
    }
    assert_eq!(save_name(&holder("alpha"), &mut world.storage, SaveNameForm { name: "Ada L.".to_string() }), Ok(()));
    assert_eq!(participant_of(&world, "alpha"), ada);
    assert_eq!(world.storage.events[&event].participants.len(), 1);
    assert_eq!(world.storage.events[&event].participants[&ada].name, "Ada L.");
    assert_eq!(world.storage.invitations_codes[1].participant_id, None);
}

#[test]
fn save_name_is_turned_down() {
    let mut world = world();
    let form = || SaveNameForm { name: "Ada".to_string() };
    assert_eq!(save_name(&admin(), &mut world.storage, form()), Err(Rejection::Forbidden));
    assert_eq!(save_name(&holder("delta"), &mut world.storage, form()), Err(Rejection::Unauthorized));
    delete_event(&admin(), &mut world.storage, world.event).unwrap();
    assert_eq!(save_name(&holder("alpha"), &mut world.storage, form()), Err(Rejection::NotFound));
    assert_eq!(world.storage.invitations_codes[0].participant_id, None);
}

#[test]
fn preferences_replace_earlier_ones() {
    let mut world = named_world();
    let slot = world.slot;
    let ada = participant_of(&world, "alpha");
    let bob = participant_of(&world, "beta");
    assert_eq!(save_preferences(&holder("alpha"), &mut world.storage, slot, picks(Some(world.math), Some(world.art), None)), Ok(()));
    assert_eq!(save_preferences(&holder("beta"), &mut world.storage, slot, picks(Some(world.math), None, Some(world.music))), Ok(()));
    assert_eq!(queue(&world, 0), vec![(ada, ApplicationPriority::FirstPreference), (bob, ApplicationPriority::FirstPreference)]);
    assert_eq!(queue(&world, 1), vec![(ada, ApplicationPriority::SecondPreference)]);
    assert_eq!(queue(&world, 2), vec![(bob, ApplicationPriority::ThirdPreference)]);
    assert_eq!(save_preferences(&holder("alpha"), &mut world.storage, slot, picks(None, Some(world.music), Some(world.math))), Ok(()));
    assert_eq!(queue(&world, 0), vec![(bob, ApplicationPriority::FirstPreference), (ada, ApplicationPriority::ThirdPreference)]);
    assert_eq!(queue(&world, 1), vec![]);
    assert_eq!(queue(&world, 2), vec![(bob, ApplicationPriority::ThirdPreference), (ada, ApplicationPriority::SecondPreference)]);
    let applications = &world.storage.events[&world.event].slots[0].sessions[2].applications;
    assert_eq!(applications[1].session_uuid, world.music);
    assert_eq!(applications[1].calculated_points, None);
    assert_ne!(applications[0].uuid, applications[1].uuid);
    assert_eq!(save_preferences(&holder("alpha"), &mut world.storage, slot, picks(None, None, None)), Ok(()));
    assert_eq!(queue(&world, 0), vec![(bob, ApplicationPriority::FirstPreference)]);
    assert_eq!(queue(&world, 2), vec![(bob, ApplicationPriority::ThirdPreference)]);
}

#[test]
fn preferences_are_turned_down() {
    let mut world = named_world();
    let (slot, math, art) = (world.slot, world.math, world.art);
    assert_eq!(save_preferences(&admin(), &mut world.storage, slot, picks(Some(math), Some(math), None)), Err(Rejection::Forbidden));
    assert_eq!(save_preferences(&holder("delta"), &mut world.storage, slot, picks(Some(math), None, Some(math))), Err(Rejection::BadRequest));
    assert_eq!(save_preferences(&holder("alpha"), &mut world.storage, slot, picks(None, Some(art), Some(art))), Err(Rejection::BadRequest));
    assert_eq!(save_preferences(&holder("delta"), &mut world.storage, slot, picks(Some(math), None, None)), Err(Rejection::Unauthorized));
    assert_eq!(save_preferences(&holder("alpha"), &mut world.storage, slot + 1, picks(Some(math), None, None)), Err(Rejection::NotFound));
    assert_eq!(save_preferences(&holder("alpha"), &mut world.storage, slot, picks(Some(math), Some(math + 1), None)), Err(Rejection::BadRequest));
    world.storage.invite("delta", world.event);
    assert_eq!(save_preferences(&holder("delta"), &mut world.storage, slot + 1, picks(None, None, None)), Err(Rejection::BadRequest));
    save_name(&holder("delta"), &mut world.storage, SaveNameForm { name: "  ".to_string() }).unwrap();
    assert_eq!(save_preferences(&holder("delta"), &mut world.storage, slot + 1, picks(None, None, None)), Err(Rejection::BadRequest));
    for session in 0..3 {
        assert!(queue(&world, session).is_empty());
    }
    delete_event(&admin(), &mut world.storage, world.event).unwrap();
    assert_eq!(save_preferences(&holder("alpha"), &mut world.storage, slot, picks(None, None, None)), Err(Rejection::NotFound));
}

#[test]
fn the_seats_are_distributed_on_request() {
    let mut world = named_world();
    let (event, slot) = (world.event, world.slot);
    let ada = participant_of(&world, "alpha");
    let bob = participant_of(&world, "beta");
    let cyd = participant_of(&world, "gamma");
    set_event_state(&admin(), &mut world.storage, event, state_form("OpenForRegistration")).unwrap();
    save_preferences(&holder("alpha"), &mut world.storage, slot, picks(Some(world.math), Some(world.music), None)).unwrap();
    save_preferences(&holder("beta"), &mut world.storage, slot, picks(Some(world.math), Some(world.music), Some(world.art))).unwrap();
    save_preferences(&holder("gamma"), &mut world.storage, slot, picks(Some(world.art), None, None)).unwrap();
    assert_eq!(close_and_distribute(&admin(), &mut world.storage, event), Ok(()));
    let stored = &world.storage.events[&event];
    assert_eq!(stored.state, EventState::Finished);
    let sessions = &stored.slots[0].sessions;
    let winner = sessions[0].participants[0];
    let loser = if winner == ada { bob } else { ada };
    assert_eq!(sessions[0].participants.len(), 1);
    assert!(winner == ada || winner == bob);
    assert_eq!(sessions[1].participants, vec![cyd]);
    assert_eq!(sessions[2].participants, vec![loser]);
    assert!(sessions.iter().all(|s| s.applications.is_empty()));
    assert_eq!(stored.participants[&winner].points_from_previous_rounds, 0);
    assert_eq!(stored.participants[&loser].points_from_previous_rounds, 5);
    assert_eq!(stored.participants[&cyd].points_from_previous_rounds, 0);
}

#[test]
fn revoking_an_invitation_removes_the_participant() {
    let mut world = named_world();
    let (event, slot) = (world.event, world.slot);
    let ada = participant_of(&world, "alpha");
    let bob = participant_of(&world, "beta");
    save_preferences(&holder("alpha"), &mut world.storage, slot, picks(Some(world.math), Some(world.art), None)).unwrap();
    save_preferences(&holder("beta"), &mut world.storage, slot, picks(Some(world.math), None, None)).unwrap();
    {
        let mut stored = world.storage.take_event(event);
        stored.slots[0].sessions[2].participants = vec![bob, ada, bob, ada];
        world.storage.put_event(event, stored);
    }
    assert_eq!(delete_invite(&holder("alpha"), &mut world.storage, event, "alpha"), Err(Rejection::Forbidden));
    assert_eq!(delete_invite(&admin(), &mut world.storage, event + 1, "alpha"), Ok(()));
    assert_eq!(delete_invite(&admin(), &mut world.storage, event, "delta"), Ok(()));
    assert_eq!(world.storage.invitations_codes.len(), 3);
    assert_eq!(world.storage.events[&event].participants.len(), 3);
    assert_eq!(delete_invite(&admin(), &mut world.storage, event, "alpha"), Ok(()));
    let codes: Vec<&str> = world.storage.invitations_codes.iter().map(|i| i.code.as_str()).collect();
    assert_eq!(codes, vec!["beta", "gamma"]);
    let stored = &world.storage.events[&event];
    assert!(!stored.participants.contains_key(&ada));
    assert_eq!(stored.participants.len(), 2);
    assert_eq!(queue(&world, 0), vec![(bob, ApplicationPriority::FirstPreference)]);
    assert!(queue(&world, 1).is_empty());
    assert_eq!(stored.slots[0].sessions[2].participants, vec![bob, bob]);
    assert_eq!(invitation_login("alpha", &world.storage), Err(Rejection::Unauthorized));
}

#[test]
fn a_participant_leaves_every_session() {
    let mut world = named_world();
    let (event, slot) = (world.event, world.slot);
    let ada = participant_of(&world, "alpha");
    save_preferences(&holder("alpha"), &mut world.storage, slot, picks(Some(world.math), Some(world.art), Some(world.music))).unwrap();
    let mut stored = world.storage.take_event(event);
    assert!(!world.storage.has_event(event));
    stored.slots[0].sessions[0].participants.push(ada);
    stored.remove_participant(ada);
    assert!(stored.slots[0].sessions.iter().all(|s| s.participants.is_empty() && s.applications.is_empty()));
    assert!(!stored.participants.contains_key(&ada));
    assert_eq!(stored.find_slot(slot), Some(0));
    assert_eq!(stored.find_slot(slot + 1), None);
    assert_eq!(stored.slots[0].find_session(world.music), Some(2));
    assert_eq!(stored.slots[0].find_session(1), None);
}

#[test]
fn the_participant_is_shown_the_picks() {
    let mut world = named_world();
    let (event, slot) = (world.event, world.slot);
    let ada = participant_of(&world, "alpha");
    set_event_state(&admin(), &mut world.storage, event, state_form("OpenForRegistration")).unwrap();
    save_preferences(&holder("alpha"), &mut world.storage, slot, picks(Some(world.art), None, Some(world.math))).unwrap();
    let shown = user_view::event_view(&holder("alpha"), &mut world.storage).unwrap();
    assert_eq!((shown.participant.uuid, shown.participant.name.as_str()), (ada, "Ada"));
    assert!(shown.is_open);
    assert_eq!(shown.selections.len(), 1);
    let selection = shown.selections[0];
    assert_eq!((selection.slot_id, selection.first, selection.second, selection.third), (slot, Some(world.art), None, Some(world.math)));
    assert_eq!(shown.view_slots.len(), 1);
    let view = &shown.view_slots[0];
    assert_eq!((view.uuid, view.name.as_str()), (slot, "Morning"));
    assert_eq!(view.sessions.iter().map(|s| (s.uuid, s.name.as_str(), s.seats)).collect::<Vec<_>>(),
        vec![(world.math, "Math", 1), (world.art, "Art", 1), (world.music, "Music", 2)]);
    assert_eq!(view.selection.first_name, Some("Art".to_string()));
    assert_eq!(view.selection.second_name, None);
    assert_eq!(view.selection.third_name, Some("Math".to_string()));
    assert_eq!(view.selection.second, None);
    let text = view.selection.first.clone().unwrap();
    let digits: String = text.chars().filter(|c| *c != '-').collect();
    assert_eq!(text.len(), 36);
    assert_eq!(u128::from_str_radix(&digits, 16), Ok(world.art));
    assert_eq!(text.chars().filter(|c| *c == '-').count(), 4);
}

#[test]
fn identifiers_are_written_in_hyphenated_groups() {
    let mut world = named_world();
    let ada = participant_of(&world, "alpha");
    {
        let mut stored = world.storage.take_event(world.event);
        stored.slots[0].sessions[1].uuid = 0xa1a2a3a4b1b2c1c2d1d2d3d4d5d6d7d8;
        stored.slots[0].add_application(Some(0xa1a2a3a4b1b2c1c2d1d2d3d4d5d6d7d8), 1, ada, ApplicationPriority::SecondPreference);
        world.storage.put_event(world.event, stored);
    }
    let shown = user_view::event_view(&holder("alpha"), &mut world.storage).unwrap();
    assert_eq!(shown.view_slots[0].selection.second, Some("a1a2a3a4-b1b2-c1c2-d1d2-d3d4d5d6d7d8".to_string()));
    assert_eq!(shown.view_slots[0].selection.second_name, Some("Art".to_string()));
    assert!(!shown.is_open);
}

#[test]
fn looking_at_the_event_registers_the_holder() {
    let mut world = world();
    assert_eq!(world.storage.invitations_codes[1].participant_id, None);
    let shown = user_view::event_view(&holder("beta"), &mut world.storage).unwrap();
    let bob = participant_of(&world, "beta");
    assert_eq!((shown.participant.uuid, shown.participant.name.as_str(), shown.participant.points_from_previous_rounds), (bob, "", 0));
    assert!(world.storage.events[&world.event].participants.contains_key(&bob));
    assert_eq!(shown.selections[0].first, None);
    assert!(user_view::event_view(&admin(), &mut world.storage).is_err());
    assert!(user_view::event_view(&holder("delta"), &mut world.storage).is_err());
    let again = user_view::event_view(&holder("beta"), &mut world.storage).unwrap();
    assert_eq!(again.participant.uuid, bob);
    assert_eq!(world.storage.events[&world.event].participants.len(), 1);
}

#[test]
fn the_administrator_is_shown_names_once_finished() {
    let mut world = named_world();
    let (event, slot) = (world.event, world.slot);
    let other = create_event(&admin(), &mut world.storage, event_form("Fair", None)).unwrap();
    world.storage.invite("omega", other);
    set_event_state(&admin(), &mut world.storage, event, state_form("OpenForRegistration")).unwrap();
    save_preferences(&holder("gamma"), &mut world.storage, slot, picks(Some(world.art), None, None)).unwrap();
    save_preferences(&holder("alpha"), &mut world.storage, slot, picks(Some(world.music), None, None)).unwrap();
    save_preferences(&holder("beta"), &mut world.storage, slot, picks(Some(world.music), None, None)).unwrap();
    let open = admin_view::event_view(&admin(), &world.storage, event).unwrap();
    assert!(open.can_close_and_distribute && !open.is_finished);
    assert_eq!(open.invite_codes, vec!["alpha", "beta", "gamma"]);
    assert!(open.view_slots[0].sessions.iter().all(|s| s.assigned_names.is_empty()));
    close_and_distribute(&admin(), &mut world.storage, event).unwrap();
    delete_invite(&admin(), &mut world.storage, event, "beta").unwrap();
    let done = admin_view::event_view(&admin(), &world.storage, event).unwrap();
    assert!(!done.can_close_and_distribute && done.is_finished);
    assert_eq!(done.invite_codes, vec!["alpha", "gamma"]);
    let sessions = &done.view_slots[0].sessions;
    assert_eq!(sessions.iter().map(|s| (s.name.as_str(), s.seats)).collect::<Vec<_>>(), vec![("Math", 1), ("Art", 1), ("Music", 2)]);
    assert!(sessions[0].assigned_names.is_empty());
    assert_eq!(sessions[1].assigned_names, vec!["Cyd"]);
    assert_eq!(sessions[2].assigned_names, vec!["Ada"]);
    assert_eq!(admin_view::event_view(&holder("alpha"), &world.storage, event).err(), Some(Rejection::Forbidden));
    assert_eq!(admin_view::event_view(&admin(), &world.storage, event + 1).err(), Some(Rejection::NotFound));
    assert_eq!(admin_view::event_view(&admin(), &world.storage, other).unwrap().invite_codes, vec!["omega"]);
}

#[test]
fn names_of_vanished_participants_are_left_out() {
    let mut world = named_world();
    let event = world.event;
    let ada = participant_of(&world, "alpha");
    let cyd = participant_of(&world, "gamma");
    let mut stored = world.storage.take_event(event);
    stored.slots[0].sessions[2].participants = vec![cyd, 12345, ada];
    stored.state = EventState::Finished;
    world.storage.put_event(event, stored);
    let done = admin_view::event_view(&admin(), &world.storage, event).unwrap();
    assert_eq!(done.view_slots[0].sessions[2].assigned_names, vec!["Cyd", "Ada"]);
}
