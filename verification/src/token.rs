//! The claims of the auth token a client presents to the server.

use vstd::prelude::*;
use crate::error::{Error, ErrorV};
use crate::text::chars_of;

verus! {

broadcast use vstd::string::group_string_axioms;

/// Seconds an auth token stays valid.
pub const TOKEN_LIFETIME_SECS: i64 = 60;

/// The claims of an auth token: its subject and its expiry (seconds since
/// the epoch).
pub struct Claims {
    pub sub: String,
    pub exp: usize,
}

/// The claims of a new auth token at time `now`: subject `AUTH`, expiring a
/// minute later.
pub fn auth_claims(now: i64) -> (r: Claims)
    requires
        now <= i64::MAX - 60,
    ensures
        r.sub@ == "AUTH"@,
        r.exp == (now + 60) as usize,
{
    let exp: i64 = now + TOKEN_LIFETIME_SECS;
    Claims { sub: String::from_str("AUTH"), exp: exp as usize }
}

/// What creating a token gives, from the encoder's outcome.
pub fn created_token(encoded: Option<String>) -> (r: Result<String, Error>)
    ensures
        match r {
            Ok(t) => encoded == Some(t),
            Err(e) => encoded is None && e@ == ErrorV::AnyError("Error creating JWT token"@),
        },
{
    match encoded {
        Some(t) => Ok(t),
        None => Err(Error::AnyError(String::from_str("Error creating JWT token"))),
    }
}

/// Whether a token is accepted, from the claims the decoder read out of it
/// (`None` when it refused the token): accepted when it read claims with a
/// non-empty subject.
pub fn verify_decoded(decoded: Option<Claims>) -> (r: Result<(), Error>)
    ensures
        r is Ok <==> (decoded matches Some(c) && c.sub@.len() > 0),
        r matches Err(e) ==> e@ == ErrorV::InvalidAuthToken,
{
    match decoded {
        None => Err(Error::InvalidAuthToken),
        Some(c) => {
            if chars_of(c.sub.as_str()).len() == 0 {
                return Err(Error::InvalidAuthToken);
            }
            Ok(())
        },
    }
}

} // verus!
