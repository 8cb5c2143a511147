//! What the request layer decides: who is logged in, where a flow leads,
//! which sign-up is accepted, and when an event takes place.

use vstd::prelude::*;
use vstd::string::StringExecFns;
use crate::clock::{parse_time, parsed_time};
use crate::ids::{new_uuid, parse_uuid, parsed_uuid};
use crate::models::User;
use crate::passwords::{verified, verify_password};

verus! {

/// The format in which the date and the time of an event are entered.
pub const EVENT_TIME_FORMAT: &'static str = "%Y-%m-%d %H:%M";

/// The name of the variable of the environment that holds the invitation
/// id.
pub const INVITE_VARIABLE: &'static str = "INVITE_ID";

/// What the login page says of a login that was refused.
pub const LOGIN_REFUSED: &'static str = "Email/Password Incorrect";

/// Whether two texts are the same.
fn same(a: &str, b: &str) -> (equal: bool)
    ensures
        equal == (a@ == b@),
{
    a.to_owned() == b.to_owned()
}

/// Whether a session is logged in: only one that says so.
pub fn authorized(logged_in: Option<bool>) -> (allowed: bool)
    ensures
        allowed == (logged_in == Some(true)),
{
    match logged_in {
        Some(yes) => yes,
        None => false,
    }
}

/// The page to which a flow leads from the list of events.
pub open spec fn flow_target(flow: Seq<char>) -> Option<Seq<char>> {
    if flow == "drive"@ {
        Some("/vehicles"@)
    } else if flow == "ride"@ {
        Some("/pickup"@)
    } else {
        None
    }
}

/// The page to which a flow leads from the list of events: the vehicles
/// for one who drives, the pickup for one who rides, none for any other
/// flow.
pub fn events_href(flow: &str) -> (href: Option<&'static str>)
    ensures
        match href {
            Some(h) => flow_target(flow@) == Some(h@),
            None => flow_target(flow@) is None,
        },
{
    if same(flow, "drive") {
        Some("/vehicles")
    } else if same(flow, "ride") {
        Some("/pickup")
    } else {
        None
    }
}

/// Why a sign-up was refused.
#[derive(Clone, Copy, Debug, PartialEq, Eq, Structural)]
pub enum SignupError {
    /// The password and its confirmation differ.
    PasswordsDiffer,
    /// The password has fewer than eight bytes.
    PasswordTooShort,
}

impl SignupError {
    /// What the sign-up page says of the refusal.
    pub open spec fn text(self) -> &'static str {
        match self {
            SignupError::PasswordsDiffer => "Passwords do not match",
            SignupError::PasswordTooShort => "Password must be 8 characters or more",
        }
    }

    /// What the sign-up page says of the refusal.
    pub fn message(&self) -> (text: &'static str)
        ensures
            text == self.text(),
    {
        match self {
            SignupError::PasswordsDiffer => "Passwords do not match",
            SignupError::PasswordTooShort => "Password must be 8 characters or more",
        }
    }
}

/// Checks the passwords of a sign-up: they have to be the same, and at
/// least eight bytes long.
pub fn check_signup(password: &str, confirm_password: &str) -> (checked: Result<(), SignupError>)
    ensures
        checked == if password@ != confirm_password@ {
            Err::<(), SignupError>(SignupError::PasswordsDiffer)
        } else if password.len() < 8 {
            Err::<(), SignupError>(SignupError::PasswordTooShort)
        } else {
            Ok::<(), SignupError>(())
        },
{
    if !same(password, confirm_password) {
        Err(SignupError::PasswordsDiffer)
    } else if password.len() < 8 {
        Err(SignupError::PasswordTooShort)
    } else {
        Ok(())
    }
}

/// What is made of the invitation that a sign-up brings.
#[derive(Clone, Copy, Debug, PartialEq, Eq, Structural)]
pub enum Invitation {
    /// The sign-up brings none.
    Missing,
    /// What it brings is no UUID.
    Malformed,
    /// It is not the invitation of this server.
    Refused,
    /// It is the invitation of this server.
    Accepted,
}

/// Checks the invitation of a sign-up against the invitation id of the
/// server.
pub fn check_invitation(invite_id: Option<&str>, secret: u128) -> (invitation: Invitation)
    ensures
        invitation == match invite_id {
            None => Invitation::Missing,
            Some(text) => match parsed_uuid(text@) {
                None => Invitation::Malformed,
                Some(id) => if id == secret {
                    Invitation::Accepted
                } else {
                    Invitation::Refused
                },
            },
        },
{
    match invite_id {
        None => Invitation::Missing,
        Some(text) => match parse_uuid(text) {
            None => Invitation::Malformed,
            Some(id) => if id == secret {
                Invitation::Accepted
            } else {
                Invitation::Refused
            },
        },
    }
}

/// The invitation id that the variables of the environment set, from
/// variable `from` on: that of the first variable named `INVITE_ID` whose
/// value is a UUID.
pub open spec fn invite_set(vars: Seq<(String, String)>, from: int) -> Option<u128>
    decreases vars.len() - from,
{
    if from < 0 || from >= vars.len() {
        None
    } else if vars[from].0@ == INVITE_VARIABLE@ && parsed_uuid(vars[from].1@) is Some {
        parsed_uuid(vars[from].1@)
    } else {
        invite_set(vars, from + 1)
    }
}

/// The invitation id of the server: the one that the environment sets, or
/// the fresh one where it sets none.
pub fn invite_id(vars: &Vec<(String, String)>, fresh: u128) -> (id: u128)
    ensures
        id == match invite_set(vars@, 0) {
            Some(set) => set,
            None => fresh,
        },
{
    let mut i: usize = 0;
    while i < vars.len()
        invariant
            i <= vars@.len(),
            invite_set(vars@, 0) == invite_set(vars@, i as int),
        decreases vars@.len() - i,
    {
        if same(vars[i].0.as_str(), INVITE_VARIABLE) {
            match parse_uuid(vars[i].1.as_str()) {
                Some(id) => {
                    return id;
                },
                None => {},
            }
        }
        i += 1;
    }
    fresh
}

/// The invitation id of the server: the one that the environment sets, or
/// a new random one where it sets none.
pub fn invite_id_or_new(vars: &Vec<(String, String)>) -> (id: u128)
    ensures
        invite_set(vars@, 0) matches Some(set) ==> id == set,
{
    let fresh = new_uuid();
    invite_id(vars, fresh)
}

/// The user who is logged in by a login: the user that was found under the
/// email, where bcrypt has said that the password is theirs.
pub fn login_with(user: Option<&User>, answer: Option<bool>) -> (id: Option<u128>)
    ensures
        id == match user {
            Some(u) => if answer == Some(true) {
                Some(u.id)
            } else {
                None
            },
            None => None,
        },
{
    match user {
        Some(u) => match answer {
            Some(true) => Some(u.id),
            _ => None,
        },
        None => None,
    }
}

/// Checks a login: the user that was found under the email is logged in
/// where the password is the one of their hash.
pub fn login(user: Option<&User>, password: &str) -> (id: Option<u128>)
    ensures
        id == match user {
            Some(u) => if verified(password@, u.password@) == Some(true) {
                Some(u.id)
            } else {
                None
            },
            None => None,
        },
{
    match user {
        Some(u) => {
            let answer = verify_password(password, u.password.as_str());
            login_with(user, answer)
        },
        None => None,
    }
}

/// The time at which an event takes place, in seconds since the Unix epoch,
/// from its date as year, month and day and its time as hour and minute;
/// none where the two are no date and time.
pub fn event_time(date: &str, time: &str) -> (seconds: Option<i64>)
    ensures
        seconds == parsed_time(date@ + " "@ + time@, EVENT_TIME_FORMAT@),
{
    let mut text = date.to_owned();
    text.append(" ");
    text.append(time);
    parse_time(text.as_str(), EVENT_TIME_FORMAT)
}

} // verus!
