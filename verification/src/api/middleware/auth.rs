//! Reading the session token of a request.
use vstd::prelude::*;

use crate::text::{chars_of, string_of, strip_prefix, strip_prefix_chars};

verus! {

/// Why a request was refused.
#[derive(Debug, Clone, Copy, PartialEq, Eq, Structural)]
pub enum AuthError {
    /// No usable `Authorization` header, or a token that does not hold.
    Unauthorized,
}

impl AuthError {
    /// The HTTP status of the refusal: 401, unauthorized.
    pub fn status(&self) -> (code: u16)
        ensures
            code == 401,
    {
        401
    }
}

/// The token that an `Authorization` header carries: what follows `Bearer `,
/// or nothing where the header does not begin so. A request without the
/// header is refused.
pub open spec fn spec_bearer_token(header: Option<Seq<char>>) -> Result<Seq<char>, AuthError> {
    match header {
        None => Err(AuthError::Unauthorized),
        Some(h) => match strip_prefix(h, "Bearer "@) {
            Some(t) => Ok(t),
            None => Ok(Seq::<char>::empty()),
        },
    }
}

/// The token that an `Authorization` header carries (see `spec_bearer_token`).
pub fn bearer_token(header: &Option<String>) -> (r: Result<String, AuthError>)
    ensures
        match (r, spec_bearer_token(
            match header {
                Some(h) => Some(h@),
                None => None,
            },
        )) {
            (Ok(t), Ok(st)) => t@ == st,
            (Err(e), Err(se)) => e == se,
            _ => false,
        },
{
    match header {
        None => Err(AuthError::Unauthorized),
        Some(h) => {
            let chars = chars_of(h.as_str());
            match strip_prefix_chars(&chars, &chars_of("Bearer ")) {
                Some(t) => Ok(string_of(&t)),
                None => Ok(String::new()),
            }
        },
    }
}

/// A header made of `Bearer ` and a token carries that token.
pub proof fn law_bearer_token_round_trip(token: Seq<char>)
    ensures
        spec_bearer_token(Some("Bearer "@ + token)) == Ok::<Seq<char>, AuthError>(token),
{
    let h = "Bearer "@ + token;
    let p = "Bearer "@;
    assert(h.subrange(0, p.len() as int) =~= p);
    assert(h.subrange(p.len() as int, h.len() as int) =~= token);
}

} // verus!
