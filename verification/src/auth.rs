//! The request-boundary authentication gate: it takes the raw
//! `Authorization` header value, requires the bearer scheme, validates
//! the token and yields the authenticated claims. A missing header, a
//! wrong scheme and an invalid or expired token are all rejections; a
//! client must see them all as the same unauthorized response.
use vstd::prelude::*;

use crate::text::{chars_to_string, dec_str_i64, i64_to_string, str_chars};
use crate::token::{match_lit, token_of, Claims, InvalidReason};

verus! {

/// The authenticated principal of a request.
pub struct AuthUser {
    /// The principal's identifier, as its decimal string.
    pub user_id: String,
}

impl AuthUser {
    /// The principal that a validated claim set identifies.
    pub fn from_claims(c: &Claims) -> (a: AuthUser)
        ensures
            a.user_id@ == dec_str_i64(c@.id as int),
    {
        AuthUser { user_id: i64_to_string(c.id as i64) }
    }
}

/// Authenticates a request from its `Authorization` header value: the
/// value must be `Bearer ` followed by a token that validates under the
/// service key at time `now`. A bearer token issued under the same key
/// yields its claims while unexpired, and `Expired` afterwards; a
/// missing header or another scheme is `Malformed`. Whatever is
/// accepted is unexpired.
pub fn authenticate(header: Option<&str>, key: &Vec<u8>, now: i64) -> (r: Result<
    Claims,
    InvalidReason,
>)
    ensures
        r matches Ok(c) ==> now < c@.exp,
        header is None ==> r == Err::<Claims, InvalidReason>(InvalidReason::Malformed),
        forall|id: i32, name: Seq<char>, exp: i64|
            #![trigger token_of(id as int, name, exp as int, key@)]
            (header matches Some(h) && h@ == "Bearer "@ + token_of(
                id as int,
                name,
                exp as int,
                key@,
            )) ==> (if now < exp {
                r matches Ok(c) && c@.id == id && c@.username == name && c@.exp == exp
            } else {
                r == Err::<Claims, InvalidReason>(InvalidReason::Expired)
            }),
{
    let h = match header {
        None => {
            return Err(InvalidReason::Malformed);
        },
        Some(h) => h,
    };
    let chars = str_chars(h);
    let p = match match_lit(&chars, 0, "Bearer ") {
        Some(p) => p,
        None => {
            proof {
                broadcast use vstd::string::group_string_axioms;

                reveal_strlit("Bearer ");
                assert forall|id: i32, name: Seq<char>, exp: i64|
                    h@ != "Bearer "@ + token_of(id as int, name, exp as int, key@) by {
                    if h@ == "Bearer "@ + token_of(id as int, name, exp as int, key@) {
                        assert(h@.subrange(0, 7) =~= "Bearer "@);
                    }
                }
            }
            return Err(InvalidReason::Malformed);
        },
    };
    let token_chars = crate::token::slice_chars(&chars, p, chars.len());
    let token = chars_to_string(&token_chars);
    let r = Claims::validate(token.as_str(), key, now);
    proof {
        broadcast use vstd::string::group_string_axioms;

        reveal_strlit("Bearer ");
        assert forall|id: i32, name: Seq<char>, exp: i64|
            h@ == "Bearer "@ + token_of(id as int, name, exp as int, key@) implies token@
            == token_of(id as int, name, exp as int, key@) by {
            assert(token@ =~= token_of(id as int, name, exp as int, key@));
        }
    }
    r
}

} // verus!
