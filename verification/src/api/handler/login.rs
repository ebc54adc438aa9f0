//! Opening a session.
use vstd::prelude::*;

use crate::api::claims::{
    expiration_after, max_timestamp, session_hours, since_unix_epoch, surely_representable,
    timestamp_of_reading, Claims, ClockReading,
};

verus! {

/// A request to open a session.
pub struct LoginInput {
    username: String,
    password: String,
}

impl LoginInput {
    /// A request to open a session as `username` with `password`.
    pub fn new(username: String, password: String) -> (r: LoginInput)
        ensures
            r.username() == username,
            r.password() == password,
    {
        LoginInput { username, password }
    }

    /// The name given.
    pub closed spec fn username(&self) -> String {
        self.username
    }

    /// The password given.
    pub closed spec fn password(&self) -> String {
        self.password
    }
}

/// Why a session was refused.
#[derive(Debug, Clone, Copy, PartialEq, Eq, Structural)]
pub enum LoginError {
    /// The name or the password is not the configured one.
    WrongCredentials,
    /// The clock reads before 1970 or beyond what `chrono` can hold, so no
    /// expiration can be given.
    ClockUnreadable,
}

impl LoginError {
    /// The text of the refusal.
    pub fn message(&self) -> (s: String)
        ensures
            s@ == (match self {
                LoginError::WrongCredentials => "Wrong username or password."@,
                LoginError::ClockUnreadable => "The server clock cannot be read."@,
            }),
    {
        match self {
            LoginError::WrongCredentials => "Wrong username or password.".to_owned(),
            LoginError::ClockUnreadable => "The server clock cannot be read.".to_owned(),
        }
    }

    /// The HTTP status of the refusal: 401, unauthorized, for wrong
    /// credentials; 500, internal server error, for an unreadable clock.
    pub fn status(&self) -> (code: u16)
        ensures
            code == (match self {
                LoginError::WrongCredentials => 401u16,
                LoginError::ClockUnreadable => 500u16,
            }),
    {
        match self {
            LoginError::WrongCredentials => 401,
            LoginError::ClockUnreadable => 500,
        }
    }
}

/// Whether `input` names the configured user with the configured password.
pub open spec fn credentials_match(input: &LoginInput, username: Seq<char>, password: Seq<char>) -> bool {
    input.username()@ == username && input.password()@ == password
}

/// Opens a session at `now` where the name and password are the configured
/// ones: the claims name the user and expire a day after `now`. A clock that
/// reads before 1970 gives no session.
pub fn check_login(input: &LoginInput, username: &String, password: &String, now: i64) -> (r: Result<
    Claims,
    LoginError,
>)
    requires
        now <= max_timestamp(),
    ensures
        !credentials_match(input, username@, password@) ==> r == Err::<Claims, LoginError>(
            LoginError::WrongCredentials,
        ),
        credentials_match(input, username@, password@) && now < 0 ==> r == Err::<
            Claims,
            LoginError,
        >(LoginError::ClockUnreadable),
        credentials_match(input, username@, password@) && 0 <= now ==> (r matches Ok(c) && c.sub
            == input.username() && c.exp == expiration_after(now as int, session_hours() * 3600)),
{
    if !(input.username == *username) || !(input.password == *password) {
        return Err(LoginError::WrongCredentials);
    }
    if now < 0 {
        return Err(LoginError::ClockUnreadable);
    }
    Ok(Claims::expiring(input.username.clone(), now))
}

/// Opens a session at the clock reading `reading` where the name and
/// password are the configured ones: the claims name the user and expire a
/// day after the reading. A reading with no timestamp gives no session.
pub fn login_at_reading(
    input: &LoginInput,
    username: &String,
    password: &String,
    reading: ClockReading,
) -> (r: Result<Claims, LoginError>)
    ensures
        !credentials_match(input, username@, password@) ==> r == Err::<Claims, LoginError>(
            LoginError::WrongCredentials,
        ),
        credentials_match(input, username@, password@) ==> match reading {
            Err(_) => r == Err::<Claims, LoginError>(LoginError::ClockUnreadable),
            Ok((s, n)) => {
                &&& (r matches Ok(c) ==> c.sub == input.username() && s <= max_timestamp()
                    && c.exp == expiration_after(s as int, session_hours() * 3600))
                &&& (r is Err ==> r == Err::<Claims, LoginError>(LoginError::ClockUnreadable))
                &&& (s < surely_representable() && n < 1_000_000_000 ==> r is Ok)
            },
        },
{
    if !(input.username == *username) || !(input.password == *password) {
        return Err(LoginError::WrongCredentials);
    }
    match timestamp_of_reading(reading) {
        Some(now) => check_login(input, username, password, now),
        None => Err(LoginError::ClockUnreadable),
    }
}

/// Opens a session now where the name and password are the configured ones.
/// The clock is read here and its reading handed to `login_at_reading`, so
/// the expiration is tied to no given argument, and a clock that cannot be
/// read refuses the session.
pub fn login_handler(input: &LoginInput, username: &String, password: &String) -> (r: Result<
    Claims,
    LoginError,
>)
    ensures
        !credentials_match(input, username@, password@) ==> r == Err::<Claims, LoginError>(
            LoginError::WrongCredentials,
        ),
        credentials_match(input, username@, password@) ==> r is Ok || r == Err::<
            Claims,
            LoginError,
        >(LoginError::ClockUnreadable),
        r matches Ok(c) ==> c.sub == input.username() && exists|now: i64|
            0 <= now <= max_timestamp() && c.exp == #[trigger] expiration_after(
                now as int,
                session_hours() * 3600,
            ),
{
    let reading = since_unix_epoch();
    let r = login_at_reading(input, username, password, reading);
    proof {
        if r is Ok {
            let (s, _n) = reading->Ok_0;
            assert(s as i64 as int == s as int);
            assert(expiration_after(s as i64 as int, session_hours() * 3600) == r->Ok_0.exp);
        }
    }
    r
}

} // verus!
