//! The decisions around a usage request: which token to send, what a reply's status
//! means, and where the figures are in the reply's body.
use vstd::prelude::*;
use crate::auth::{parse_json, parsed_json};
use crate::json::Json;
use crate::search::{access_token, access_token_spec, find_number, find_number_spec, keys_view, opt_text};
use crate::store::{fails_with, find_profile, first_with_id, has_no_id, ProfileStore};

verus! {

/// The bearer token for a usage request for `profile_id`: the access token of the
/// first profile with that id.
pub fn usage_token(store: &ProfileStore, profile_id: &str) -> (r: Result<String, String>)
    ensures
        has_no_id(store.profiles@, profile_id@) ==> fails_with(r, "Profile not found"@),
        !has_no_id(store.profiles@, profile_id@) ==> ({
            let p = store.profiles@[first_with_id(store.profiles@, profile_id@)];
            match access_token_spec(p.raw_auth_json) {
                Some(t) => r matches Ok(token) && token@ == t,
                None => fails_with(r, "Re-login required"@),
            }
        }),
{
    match find_profile(&store.profiles, profile_id) {
        Some(k) => match access_token(&store.profiles[k].raw_auth_json) {
            Some(token) => Ok(token),
            None => Err(String::from_str("Re-login required")),
        },
        None => Err(String::from_str("Profile not found")),
    }
}

/// What to do with the reply to a usage request.
#[derive(Clone, Copy, Debug, PartialEq, Eq, Structural)]
pub enum UsageReply {
    /// The credentials were refused: the profile needs a new login.
    Unauthorized,
    /// The service failed; its status is reported as an error.
    Failed,
    /// The body holds the figures.
    Body,
}

/// Sorts a reply by its HTTP status: 401 means the credentials were refused, any other
/// status outside 200..=299 is a failure, and a success carries the figures.
pub fn usage_reply(status: u16) -> (r: UsageReply)
    ensures
        status == 401 ==> r == UsageReply::Unauthorized,
        status != 401 && !(200 <= status <= 299) ==> r == UsageReply::Failed,
        200 <= status <= 299 ==> r == UsageReply::Body,
{
    if status == 401 {
        UsageReply::Unauthorized
    } else if status < 200 || status > 299 {
        UsageReply::Failed
    } else {
        UsageReply::Body
    }
}

/// The keys under which a usage reply gives the amount used.
pub open spec fn used_keys() -> Seq<Seq<char>> {
    seq!["used"@, "usage"@, "amount_used"@, "spent"@]
}

/// The keys under which a usage reply gives the limit.
pub open spec fn limit_keys() -> Seq<Seq<char>> {
    seq!["monthlyLimit"@, "limit"@, "quota"@, "total"@, "amount_limit"@]
}

/// The amount used and the limit in a usage reply, as number texts, when the reply has them.
pub fn usage_figures(body: &Json) -> (r: (Option<String>, Option<String>))
    ensures
        opt_text(r.0) == find_number_spec(body@, used_keys()),
        opt_text(r.1) == find_number_spec(body@, limit_keys()),
{
    let used_names = ["used", "usage", "amount_used", "spent"];
    let limit_names = ["monthlyLimit", "limit", "quota", "total", "amount_limit"];
    proof {
        assert(keys_view(used_names@) =~= used_keys());
        assert(keys_view(limit_names@) =~= limit_keys());
    }
    let used = find_number(body, &used_names);
    let limit = find_number(body, &limit_names);
    (used, limit)
}

/// The body of a usage reply, read as JSON; a body that is not JSON is reported as a
/// decoding error.
pub fn usage_body(text: &str) -> (r: Result<Json, String>)
    ensures
        match parsed_json(text@) {
            Ok(v) => r matches Ok(body) && body@ == v,
            Err(_) => r matches Err(m) && m@ == "Usage response was invalid: error decoding response body"@,
        },
{
    match parse_json(text) {
        Ok(body) => Ok(body),
        Err(_) => Err(String::from_str("Usage response was invalid: error decoding response body")),
    }
}

} // verus!
