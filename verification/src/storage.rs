//! Everything the application keeps: events, invitations and administrator
//! accounts.
//!
//! Invitations and accounts are kept in lists. A code, or a user name, is
//! looked up as the first entry that carries it, and no operation adds a
//! second entry for a code or name that is taken, so a well-formed storage
//! stays well-formed.

use crate::event::{Event, EventView};
use crate::lookup::{first_index, found_at, lemma_first_index, lemma_first_index_none};
use crate::password::{accepts, hash_with_salt, phc_accepts, phc_hash, random_salt};
use std::collections::HashMap;
use vstd::prelude::*;

verus! {

/// An administrator's account. `password_hash` is an Argon2 hash in PHC
/// string format.
#[derive(Debug, Clone)]
pub struct AdminAccount {
    pub username: String,
    pub password_hash: String,
}

/// The mathematical value of an [`AdminAccount`].
pub struct AdminAccountView {
    pub username: Seq<char>,
    pub password_hash: Seq<char>,
}

impl View for AdminAccount {
    type V = AdminAccountView;

    open spec fn view(&self) -> AdminAccountView {
        AdminAccountView { username: self.username@, password_hash: self.password_hash@ }
    }
}

/// An invitation: the code a participant signs in with, the event it is
/// for, and the participant entry once the invited person has registered.
#[derive(Debug, Clone)]
pub struct Invitation {
    pub code: String,
    pub event_id: u128,
    pub participant_id: Option<u128>,
}

/// The mathematical value of an [`Invitation`].
pub struct InvitationView {
    pub code: Seq<char>,
    pub event_id: u128,
    pub participant_id: Option<u128>,
}

impl View for Invitation {
    type V = InvitationView;

    open spec fn view(&self) -> InvitationView {
        InvitationView {
            code: self.code@,
            event_id: self.event_id,
            participant_id: self.participant_id,
        }
    }
}

/// Events by identifier, invitations and administrator accounts.
pub struct Storage {
    pub events: HashMap<u128, Event>,
    pub invitations_codes: Vec<Invitation>,
    pub admins: Vec<AdminAccount>,
}

/// The mathematical value of a [`Storage`].
pub struct StorageView {
    pub events: Map<u128, EventView>,
    pub invitations: Seq<InvitationView>,
    pub admins: Seq<AdminAccountView>,
}

/// The values of a table of events.
pub open spec fn event_views(events: Map<u128, Event>) -> Map<u128, EventView> {
    Map::new(|id: u128| events.contains_key(id), |id: u128| events[id]@)
}

/// The values of a list of invitations.
pub open spec fn invitation_views(invitations: Seq<Invitation>) -> Seq<InvitationView> {
    Seq::new(invitations.len(), |i: int| invitations[i]@)
}

/// The values of a list of accounts.
pub open spec fn account_views(admins: Seq<AdminAccount>) -> Seq<AdminAccountView> {
    Seq::new(admins.len(), |i: int| admins[i]@)
}

/// The codes of a list of invitations, in order.
pub open spec fn codes(invitations: Seq<InvitationView>) -> Seq<Seq<char>> {
    Seq::new(invitations.len(), |i: int| invitations[i].code)
}

/// The user names of a list of accounts, in order.
pub open spec fn usernames(admins: Seq<AdminAccountView>) -> Seq<Seq<char>> {
    Seq::new(admins.len(), |i: int| admins[i].username)
}

impl View for Storage {
    type V = StorageView;

    open spec fn view(&self) -> StorageView {
        StorageView {
            events: event_views(self.events@),
            invitations: invitation_views(self.invitations_codes@),
            admins: account_views(self.admins@),
        }
    }
}

impl StorageView {
    /// No code and no user name is taken twice.
    pub open spec fn well_formed(self) -> bool {
        &&& codes(self.invitations).no_duplicates()
        &&& usernames(self.admins).no_duplicates()
    }

    /// The position of the invitation with `code`.
    pub open spec fn invitation_index(self, code: Seq<char>) -> Option<int> {
        first_index(codes(self.invitations), code)
    }

    /// The position of the account of `username`.
    pub open spec fn admin_index(self, username: Seq<char>) -> Option<int> {
        first_index(usernames(self.admins), username)
    }

    /// The same storage with `event` stored under `id`.
    pub open spec fn with_event(self, id: u128, event: EventView) -> StorageView {
        StorageView { events: self.events.insert(id, event), ..self }
    }

    /// The same storage without the event `id`.
    pub open spec fn without_event(self, id: u128) -> StorageView {
        StorageView { events: self.events.remove(id), ..self }
    }

    /// The same storage with other invitations.
    pub open spec fn with_invitations(self, invitations: Seq<InvitationView>) -> StorageView {
        StorageView { invitations, ..self }
    }

    /// The storage with `account` in place of the account of the same user
    /// name, or added if there is none.
    pub open spec fn with_admin(self, account: AdminAccountView) -> StorageView {
        StorageView {
            admins: match self.admin_index(account.username) {
                Some(i) => self.admins.update(i, account),
                None => self.admins.push(account),
            },
            ..self
        }
    }

    /// Whether `password` is the password of the account of `username`.
    pub open spec fn admits(self, username: Seq<char>, password: Seq<char>) -> bool {
        match self.admin_index(username) {
            Some(i) => phc_accepts(password, self.admins[i].password_hash),
            None => false,
        }
    }
}

/// The value of an optional account.
pub open spec fn account_view(account: Option<AdminAccount>) -> Option<AdminAccountView> {
    match account {
        Some(a) => Some(a@),
        None => None,
    }
}

/// The account that hashing `password` under `salt` gives `username`:
/// the user name with the hash Argon2 makes, or nothing where Argon2
/// refuses password or salt.
pub open spec fn hashed_account(
    username: Seq<char>,
    password: Seq<char>,
    salt: Seq<char>,
) -> Option<AdminAccountView> {
    match phc_hash(password, salt) {
        Some(hash) => Some(AdminAccountView { username, password_hash: hash }),
        None => None,
    }
}

impl AdminAccount {
    /// The account of `username` with the password hashed under `salt`, or
    /// nothing where Argon2 refuses password or salt.
    pub fn with_salt(username: String, password_plain: &str, salt: &str) -> (account: Option<
        AdminAccount,
    >)
        ensures
            match phc_hash(password_plain@, salt@) {
                Some(hash) => account matches Some(a) && a@ == (AdminAccountView {
                    username: username@,
                    password_hash: hash,
                }) && phc_accepts(password_plain@, hash),
                None => account is None,
            },
    {
        match hash_with_salt(password_plain, salt) {
            Some(password_hash) => Some(AdminAccount { username, password_hash }),
            None => None,
        }
    }

    /// The account of `username` with the password hashed under a fresh
    /// random salt: what [`hashed_account`] gives for the salt drawn. So an
    /// account comes back unless Argon2 refused that salt or the password,
    /// and whatever the salt, an account that comes back accepts the
    /// password it was made with.
    pub fn new_hashed(username: String, password_plain: &str) -> (account: Option<AdminAccount>)
        ensures
            exists|salt: Seq<char>| #[trigger]
                hashed_account(username@, password_plain@, salt) == account_view(account),
            account matches Some(a) ==> a@.username == username@ && phc_accepts(
                password_plain@,
                a@.password_hash,
            ) && exists|salt: Seq<char>| #[trigger]
                phc_hash(password_plain@, salt) == Some(a@.password_hash),
    {
        let salt = random_salt();
        let account = AdminAccount::with_salt(username, password_plain, salt.as_str());
        assert(hashed_account(username@, password_plain@, salt@) == account_view(account));
        account
    }
}

impl Storage {
    /// A storage that holds nothing.
    pub fn new() -> (storage: Storage)
        ensures
            storage@ == (StorageView {
                events: Map::empty(),
                invitations: Seq::empty(),
                admins: Seq::empty(),
            }),
            storage@.well_formed(),
    {
        let storage = Storage {
            events: HashMap::new(),
            invitations_codes: Vec::new(),
            admins: Vec::new(),
        };
        assert(storage@.events =~= Map::empty());
        assert(storage@.invitations =~= Seq::empty());
        assert(storage@.admins =~= Seq::empty());
        storage
    }

    /// The position of the invitation with `code`.
    pub fn find_invitation(&self, code: &str) -> (found: Option<usize>)
        ensures
            found_at(codes(self@.invitations), code@, found),
            found matches Some(i) ==> i < self.invitations_codes.len()
                && self.invitations_codes@[i as int].code@ == code@,
    {
        let wanted = code.to_owned();
        let ghost keys = codes(self@.invitations);
        let mut i: usize = 0;
        while i < self.invitations_codes.len()
            invariant
                i <= self.invitations_codes.len(),
                keys == codes(self@.invitations),
                wanted@ == code@,
                forall|k: int| 0 <= k < i ==> keys[k] != code@,
            decreases self.invitations_codes.len() - i,
        {
            if self.invitations_codes[i].code == wanted {
                proof {
                    lemma_first_index(keys, code@, i as int);
                }
                return Some(i);
            }
            i += 1;
        }
        proof {
            lemma_first_index_none(keys, code@);
        }
        None
    }

    /// The position of the account of `username`.
    pub fn find_admin(&self, username: &str) -> (found: Option<usize>)
        ensures
            found_at(usernames(self@.admins), username@, found),
            found matches Some(i) ==> i < self.admins.len() && self.admins@[i as int].username@
                == username@,
    {
        let wanted = username.to_owned();
        let ghost keys = usernames(self@.admins);
        let mut i: usize = 0;
        while i < self.admins.len()
            invariant
                i <= self.admins.len(),
                keys == usernames(self@.admins),
                wanted@ == username@,
                forall|k: int| 0 <= k < i ==> keys[k] != username@,
            decreases self.admins.len() - i,
        {
            if self.admins[i].username == wanted {
                proof {
                    lemma_first_index(keys, username@, i as int);
                }
                return Some(i);
            }
            i += 1;
        }
        proof {
            lemma_first_index_none(keys, username@);
        }
        None
    }

    /// Stores `account`, in place of the account of the same user name if
    /// there is one.
    pub fn put_admin(&mut self, account: AdminAccount)
        ensures
            final(self)@ == old(self)@.with_admin(account@),
            old(self)@.well_formed() ==> final(self)@.well_formed(),
    {
        let ghost before = usernames(self@.admins);
        match self.find_admin(account.username.as_str()) {
            Some(i) => {
                self.admins[i] = account;
                assert(self@.admins =~= old(self)@.admins.update(i as int, account@));
                assert(usernames(self@.admins) =~= before);
            },
            None => {
                self.admins.push(account);
                assert(self@.admins =~= old(self)@.admins.push(account@));
                proof {
                    lemma_first_index_none(before, account@.username);
                    assert(usernames(self@.admins) =~= before.push(account@.username));
                    if before.no_duplicates() {
                        assert forall|a: int, b: int|
                            0 <= a < b < before.len() + 1 implies before.push(
                            account@.username,
                        )[a] != before.push(account@.username)[b] by {
                            if b == before.len() {
                                assert(before.contains(before[a]));
                            }
                        }
                    }
                }
            },
        }
    }

    /// Gives `username` an account with the given password, in place of any
    /// account the name had. Fails, changing nothing, where Argon2 refuses
    /// the password.
    pub fn add_admin(&mut self, username: String, password_plain: &str) -> (result: Result<
        (),
        &'static str,
    >)
        ensures
            match result {
                Ok(_) => exists|hash: Seq<char>| #[trigger]
                    phc_accepts(password_plain@, hash) && final(self)@ == old(self)@.with_admin(
                        AdminAccountView { username: username@, password_hash: hash },
                    ),
                Err(why) => why@ == "argon2 hashing failed"@ && final(self)@ == old(self)@,
            },
            old(self)@.well_formed() ==> final(self)@.well_formed(),
    {
        match AdminAccount::new_hashed(username, password_plain) {
            Some(account) => {
                proof {
                    assert(phc_accepts(password_plain@, account@.password_hash));
                }
                self.put_admin(account);
                Ok(())
            },
            None => Err("argon2 hashing failed"),
        }
    }

    /// Whether `password_plain` is the password of the account of
    /// `username`. An unknown name and a stored hash that does not parse
    /// both give `false`.
    pub fn verify_admin(&self, username: &str, password_plain: &str) -> (admitted: bool)
        ensures
            admitted == self@.admits(username@, password_plain@),
    {
        match self.find_admin(username) {
            Some(i) => accepts(password_plain, self.admins[i].password_hash.as_str()),
            None => false,
        }
    }
}

impl Default for Storage {
    fn default() -> (storage: Storage)
        ensures
            storage@ == (StorageView {
                events: Map::empty(),
                invitations: Seq::empty(),
                admins: Seq::empty(),
            }),
    {
        Storage::new()
    }
}

/// Storing an event under an identifier does not depend on what was
/// stored there before, and storing what is stored changes nothing.
pub proof fn lemma_put_back(storage: StorageView, id: u128, event: EventView)
    ensures
        storage.without_event(id).with_event(id, event) == storage.with_event(id, event),
        storage.events.contains_key(id) && storage.events[id] == event ==> storage.with_event(
            id,
            event,
        ) == storage,
{
    assert(storage.without_event(id).with_event(id, event).events =~= storage.with_event(
        id,
        event,
    ).events);
    if storage.events.contains_key(id) && storage.events[id] == event {
        assert(storage.with_event(id, event).events =~= storage.events);
    }
}

/// A list of distinct keys stays one when a key that is not in it is added.
pub proof fn lemma_push_distinct<K>(keys: Seq<K>, key: K)
    requires
        keys.no_duplicates(),
        !keys.contains(key),
    ensures
        keys.push(key).no_duplicates(),
{
    assert forall|a: int, b: int| 0 <= a < b < keys.len() + 1 implies keys.push(key)[a]
        != keys.push(key)[b] by {
        if b == keys.len() {
            assert(keys.contains(keys[a]));
        }
    }
}

/// A list of distinct keys stays one when a key is taken out.
pub proof fn lemma_remove_distinct<K>(keys: Seq<K>, i: int)
    requires
        keys.no_duplicates(),
        0 <= i < keys.len(),
    ensures
        keys.remove(i).no_duplicates(),
{
    assert forall|a: int, b: int| 0 <= a < b < keys.len() - 1 implies keys.remove(i)[a]
        != keys.remove(i)[b] by {
        let x = if a < i { a } else { a + 1 };
        let y = if b < i { b } else { b + 1 };
        assert(keys[x] != keys[y]);
    }
}

impl Storage {
    /// Whether an event is stored under `id`.
    pub fn has_event(&self, id: u128) -> (found: bool)
        ensures
            found == self@.events.contains_key(id),
    {
        broadcast use vstd::std_specs::hash::group_hash_axioms;

        self.events.contains_key(&id)
    }

    /// Takes the event stored under `id` out of the storage.
    pub fn take_event(&mut self, id: u128) -> (event: Event)
        requires
            old(self)@.events.contains_key(id),
        ensures
            event@ == old(self)@.events[id],
            final(self)@ == old(self)@.without_event(id),
    {
        broadcast use vstd::std_specs::hash::group_hash_axioms;

        let taken = self.events.remove(&id);
        assert(self@.events =~= old(self)@.events.remove(id));
        taken.unwrap()
    }

    /// Stores `event` under `id`, in place of what was stored there.
    pub fn put_event(&mut self, id: u128, event: Event)
        ensures
            final(self)@ == old(self)@.with_event(id, event@),
    {
        broadcast use vstd::std_specs::hash::group_hash_axioms;

        self.events.insert(id, event);
        assert(self@.events =~= old(self)@.events.insert(id, event@));
    }
}

} // verus!
