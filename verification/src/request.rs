//! Who asks, and how a request is turned down.

use vstd::prelude::*;

verus! {

/// Who a signed-in session belongs to.
#[derive(Clone, Debug, PartialEq, Eq)]
pub enum SessionUserType {
    Admin,
    User { code: String },
}

/// Why a request is turned down.
#[derive(Clone, Copy, Debug, PartialEq, Eq, Structural)]
pub enum Rejection {
    /// The request itself is not acceptable.
    BadRequest,
    /// The credentials are not known.
    Unauthorized,
    /// The requester is known but may not do this.
    Forbidden,
    /// What the request names does not exist.
    NotFound,
}

impl SessionUserType {
    /// The invitation code a participant signed in with.
    pub open spec fn code(self) -> Option<Seq<char>> {
        match self {
            SessionUserType::Admin => None,
            SessionUserType::User { code } => Some(code@),
        }
    }

    /// Whether the session belongs to an administrator.
    pub fn is_admin(&self) -> (admin: bool)
        ensures
            admin == (*self is Admin),
    {
        match self {
            SessionUserType::Admin => true,
            SessionUserType::User { .. } => false,
        }
    }
}

/// Lets administrators pass and nobody else.
pub fn require_admin(user: &SessionUserType) -> (result: Result<(), Rejection>)
    ensures
        result == (if *user is Admin {
            Ok::<(), Rejection>(())
        } else {
            Err::<(), Rejection>(Rejection::Forbidden)
        }),
{
    if user.is_admin() {
        Ok(())
    } else {
        Err(Rejection::Forbidden)
    }
}

} // verus!
