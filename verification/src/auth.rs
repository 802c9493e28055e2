//! Signing in: administrators with user name and password, participants
//! with an invitation code.

use crate::lookup::lemma_first_index_none;
use crate::request::{Rejection, SessionUserType};
use crate::storage::{codes, Storage, StorageView};
use vstd::prelude::*;

verus! {

pub struct LoginRequest {
    pub username: String,
    pub password: String,
}

pub struct UserLoginRequest {
    pub code: String,
}

impl StorageView {
    /// Whether an invitation with `code` has been issued.
    pub open spec fn invites(self, code: Seq<char>) -> bool {
        codes(self.invitations).contains(code)
    }
}

/// Signs an administrator in: the password must be the one of the account
/// of the user name.
pub fn login_admin(form: &LoginRequest, storage: &Storage) -> (result: Result<
    SessionUserType,
    Rejection,
>)
    ensures
        storage@.admits(form.username@, form.password@) ==> (result matches Ok(user) && user
            is Admin),
        !storage@.admits(form.username@, form.password@) ==> result == Err::<
            SessionUserType,
            Rejection,
        >(Rejection::Unauthorized),
{
    if storage.verify_admin(form.username.as_str(), form.password.as_str()) {
        Ok(SessionUserType::Admin)
    } else {
        Err(Rejection::Unauthorized)
    }
}

/// Signs a participant in with the invitation code `code`, which must have
/// been issued.
pub fn invitation_login(code: &str, storage: &Storage) -> (result: Result<
    SessionUserType,
    Rejection,
>)
    ensures
        storage@.invites(code@) ==> (result matches Ok(user) && user.code() == Some(code@)),
        !storage@.invites(code@) ==> result == Err::<SessionUserType, Rejection>(
            Rejection::Unauthorized,
        ),
{
    proof {
        lemma_first_index_none(codes(storage@.invitations), code@);
    }
    if storage.find_invitation(code).is_some() {
        Ok(SessionUserType::User { code: code.to_owned() })
    } else {
        Err(Rejection::Unauthorized)
    }
}

/// Signs a participant in with the invitation code of the form.
pub fn login_user(form: &UserLoginRequest, storage: &Storage) -> (result: Result<
    SessionUserType,
    Rejection,
>)
    ensures
        storage@.invites(form.code@) ==> (result matches Ok(user) && user.code() == Some(
            form.code@,
        )),
        !storage@.invites(form.code@) ==> result == Err::<SessionUserType, Rejection>(
            Rejection::Unauthorized,
        ),
{
    invitation_login(form.code.as_str(), storage)
}

} // verus!
