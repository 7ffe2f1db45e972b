//! The status of a user and the details that a client sees of a user.
use vstd::prelude::*;

verus! {

/// Whether a user is logged in.
#[derive(Clone, Copy, PartialEq, Eq, Structural, Debug)]
pub enum UserStatus {
    Unknown,
    Login,
    Expired,
}

/// The number that stands for a status on the wire.
pub open spec fn status_value(status: UserStatus) -> i32 {
    match status {
        UserStatus::Unknown => 0i32,
        UserStatus::Login => 1i32,
        UserStatus::Expired => 2i32,
    }
}

impl UserStatus {
    /// The number that stands for the status on the wire.
    pub fn value(&self) -> (v: i32)
        ensures
            v == status_value(*self),
    {
        match self {
            UserStatus::Unknown => 0,
            UserStatus::Login => 1,
            UserStatus::Expired => 2,
        }
    }

    /// The status that a number stands for; none for any other number.
    pub fn from_i32(v: i32) -> (status: Option<UserStatus>)
        ensures
            match status {
                Some(s) => status_value(s) == v,
                None => 0 > v || v > 2,
            },
    {
        if v == 0 {
            Some(UserStatus::Unknown)
        } else if v == 1 {
            Some(UserStatus::Login)
        } else if v == 2 {
            Some(UserStatus::Expired)
        } else {
            None
        }
    }
}

impl Default for UserStatus {
    fn default() -> (status: Self)
        ensures
            status == UserStatus::Unknown,
    {
        UserStatus::Unknown
    }
}

/// A user as the user table stores it.
#[derive(Debug)]
pub struct User {
    pub id: String,
    pub name: String,
    pub token: String,
    pub email: String,
    pub workspace: String,
}

/// What a client sees of a user.
#[derive(Debug)]
pub struct UserDetail {
    pub email: String,
    pub name: String,
    pub status: UserStatus,
}

impl Default for UserDetail {
    fn default() -> (detail: Self)
        ensures
            detail.email@ == Seq::<char>::empty(),
            detail.name@ == Seq::<char>::empty(),
            detail.status == UserStatus::Unknown,
    {
        UserDetail { email: String::new(), name: String::new(), status: UserStatus::default() }
    }
}

impl From<User> for UserDetail {
    fn from(user: User) -> (detail: Self) {
        UserDetail { email: user.email, name: user.name, status: UserStatus::Login }
    }
}

impl vstd::std_specs::convert::FromSpecImpl<User> for UserDetail {
    open spec fn obeys_from_spec() -> bool {
        true
    }

    /// A stored user is logged in: the details are its email and name.
    open spec fn from_spec(v: User) -> UserDetail {
        UserDetail { email: v.email, name: v.name, status: UserStatus::Login }
    }
}

} // verus!
