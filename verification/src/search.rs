//! Searching a JSON document for a string or a number stored under one of several keys.
use vstd::prelude::*;
use vstd::utf8::encode_utf8;
use crate::auth::{parsed_json, AuthJson};
use crate::canonical::MemberV;
use crate::json::{items_view, members_view, Json, JsonV};
use crate::order::text_eq;
use crate::text::{is_blank, is_blank_text};

verus! {

/// The texts of a list of keys.
pub open spec fn keys_view(keys: Seq<&str>) -> Seq<Seq<char>> {
    keys.map_values(|k: &str| k@)
}

/// The text of an optional string.
pub open spec fn opt_text(o: Option<String>) -> Option<Seq<char>> {
    match o {
        Some(s) => Some(s@),
        None => None,
    }
}

/// The value of the first member named `key`, as `serde_json::Map::get` finds it.
pub open spec fn member_value(members: Seq<MemberV>, key: Seq<char>) -> Option<JsonV>
    decreases members.len(),
{
    if members.len() == 0 {
        None
    } else if members[0].0 == key {
        Some(members[0].1)
    } else {
        member_value(members.drop_first(), key)
    }
}

/// The first key, in the order of `keys`, under which the object holds a string
/// that is not blank; that string.
pub open spec fn string_under_keys(members: Seq<MemberV>, keys: Seq<Seq<char>>) -> Option<
    Seq<char>,
>
    decreases keys.len(),
{
    if keys.len() == 0 {
        None
    } else {
        match member_value(members, keys[0]) {
            Some(JsonV::Str(s)) => if !is_blank(s) {
                Some(s)
            } else {
                string_under_keys(members, keys.drop_first())
            },
            _ => string_under_keys(members, keys.drop_first()),
        }
    }
}

/// Depth-first search for a non-blank string under one of `keys`: an object is searched
/// under its own keys first, then in its values, in order; an array in its items, in order.
pub open spec fn find_string(v: JsonV, keys: Seq<Seq<char>>) -> Option<Seq<char>>
    decreases v,
{
    match v {
        JsonV::Object(members) => match string_under_keys(members, keys) {
            Some(s) => Some(s),
            None => find_string_in_members(members, keys),
        },
        JsonV::Array(items) => find_string_in_items(items, keys),
        _ => None,
    }
}

/// The first result of [`find_string`] among the values of `members`.
pub open spec fn find_string_in_members(members: Seq<MemberV>, keys: Seq<Seq<char>>) -> Option<
    Seq<char>,
>
    decreases members,
{
    if members.len() == 0 {
        None
    } else {
        match find_string(members[0].1, keys) {
            Some(s) => Some(s),
            None => find_string_in_members(members.drop_first(), keys),
        }
    }
}

/// The first result of [`find_string`] among `items`.
pub open spec fn find_string_in_items(items: Seq<JsonV>, keys: Seq<Seq<char>>) -> Option<
    Seq<char>,
>
    decreases items,
{
    if items.len() == 0 {
        None
    } else {
        match find_string(items[0], keys) {
            Some(s) => Some(s),
            None => find_string_in_items(items.drop_first(), keys),
        }
    }
}

/// The object holds the string `s` under one of `keys`.
pub open spec fn key_holds(members: Seq<MemberV>, keys: Seq<Seq<char>>, s: Seq<char>) -> bool {
    exists|j: int| 0 <= j < keys.len() && member_value(members, #[trigger] keys[j]) == Some(JsonV::Str(s))
}

/// `v`, or an object or array inside it at any depth, holds the non-blank string `s`
/// under one of `keys`.
pub open spec fn holds_string(v: JsonV, keys: Seq<Seq<char>>, s: Seq<char>) -> bool
    decreases v,
{
    match v {
        JsonV::Object(members) => (!is_blank(s) && key_holds(members, keys, s)) || holds_in_members(
            members,
            keys,
            s,
        ),
        JsonV::Array(items) => holds_in_items(items, keys, s),
        _ => false,
    }
}

/// One of the values of `members` holds `s` (see [`holds_string`]).
pub open spec fn holds_in_members(members: Seq<MemberV>, keys: Seq<Seq<char>>, s: Seq<char>) -> bool
    decreases members,
{
    if members.len() == 0 {
        false
    } else {
        holds_string(members[0].1, keys, s) || holds_in_members(members.drop_first(), keys, s)
    }
}

/// One of `items` holds `s` (see [`holds_string`]).
pub open spec fn holds_in_items(items: Seq<JsonV>, keys: Seq<Seq<char>>, s: Seq<char>) -> bool
    decreases items,
{
    if items.len() == 0 {
        false
    } else {
        holds_string(items[0], keys, s) || holds_in_items(items.drop_first(), keys, s)
    }
}

/// A number stored directly, or wrapped as the `"val"` member of an object.
pub open spec fn number_at(candidate: JsonV) -> Option<Seq<char>> {
    match candidate {
        JsonV::Number(t) => Some(t),
        JsonV::Object(members) => match member_value(members, "val"@) {
            Some(JsonV::Number(t)) => Some(t),
            _ => None,
        },
        _ => None,
    }
}

/// The first key, in the order of `keys`, under which the object holds a number
/// (directly or wrapped); that number.
pub open spec fn number_under_keys(members: Seq<MemberV>, keys: Seq<Seq<char>>) -> Option<
    Seq<char>,
>
    decreases keys.len(),
{
    if keys.len() == 0 {
        None
    } else {
        match member_value(members, keys[0]) {
            Some(c) => match number_at(c) {
                Some(t) => Some(t),
                None => number_under_keys(members, keys.drop_first()),
            },
            None => number_under_keys(members, keys.drop_first()),
        }
    }
}

/// Depth-first search for a number under one of `keys`, in the order of [`find_string`].
pub open spec fn find_number_spec(v: JsonV, keys: Seq<Seq<char>>) -> Option<Seq<char>>
    decreases v,
{
    match v {
        JsonV::Object(members) => match number_under_keys(members, keys) {
            Some(t) => Some(t),
            None => find_number_in_members(members, keys),
        },
        JsonV::Array(items) => find_number_in_items(items, keys),
        _ => None,
    }
}

/// The first result of [`find_number_spec`] among the values of `members`.
pub open spec fn find_number_in_members(members: Seq<MemberV>, keys: Seq<Seq<char>>) -> Option<
    Seq<char>,
>
    decreases members,
{
    if members.len() == 0 {
        None
    } else {
        match find_number_spec(members[0].1, keys) {
            Some(t) => Some(t),
            None => find_number_in_members(members.drop_first(), keys),
        }
    }
}

/// The first result of [`find_number_spec`] among `items`.
pub open spec fn find_number_in_items(items: Seq<JsonV>, keys: Seq<Seq<char>>) -> Option<
    Seq<char>,
>
    decreases items,
{
    if items.len() == 0 {
        None
    } else {
        match find_number_spec(items[0], keys) {
            Some(t) => Some(t),
            None => find_number_in_items(items.drop_first(), keys),
        }
    }
}

proof fn lemma_member_value_skip(members: Seq<MemberV>, key: Seq<char>, i: int)
    requires
        0 <= i < members.len(),
        forall|k: int| 0 <= k < i ==> (#[trigger] members[k]).0 != key,
    ensures
        member_value(members, key) == member_value(members.skip(i), key),
    decreases i,
{
    if i > 0 {
        assert forall|k: int| 0 <= k < i - 1 implies (#[trigger] members.drop_first()[k]).0
            != key by {
            assert(members.drop_first()[k] == members[k + 1]);
        }
        lemma_member_value_skip(members.drop_first(), key, i - 1);
        assert(members.drop_first().skip(i - 1) =~= members.skip(i));
    } else {
        assert(members.skip(0) =~= members);
    }
}

proof fn lemma_member_value_absent(members: Seq<MemberV>, key: Seq<char>)
    requires
        forall|k: int| 0 <= k < members.len() ==> (#[trigger] members[k]).0 != key,
    ensures
        member_value(members, key) is None,
    decreases members.len(),
{
    if members.len() > 0 {
        assert forall|k: int| 0 <= k < members.len() - 1 implies (
        #[trigger] members.drop_first()[k]).0 != key by {
            assert(members.drop_first()[k] == members[k + 1]);
        }
        lemma_member_value_absent(members.drop_first(), key);
    }
}

/// The value of the first member named `key`.
pub fn lookup<'a>(members: &'a Vec<(String, Json)>, key: &str) -> (r: Option<&'a Json>)
    ensures
        match r {
            Some(v) => member_value(members_view(members@), key@) == Some(v@),
            None => member_value(members_view(members@), key@) is None,
        },
{
    let ghost mv = members_view(members@);
    let mut i: usize = 0;
    while i < members.len()
        invariant
            i <= members@.len(),
            mv == members_view(members@),
            forall|k: int| 0 <= k < i ==> (#[trigger] mv[k]).0 != key@,
        decreases members@.len() - i,
    {
        assert(mv[i as int] == (members@[i as int].0@, members@[i as int].1@));
        if text_eq(members[i].0.as_str(), key) {
            proof {
                lemma_member_value_skip(mv, key@, i as int);
            }
            return Some(&members[i].1);
        }
        i = i + 1;
    }
    proof {
        lemma_member_value_absent(mv, key@);
    }
    None
}

proof fn lemma_keys_step(keys: Seq<&str>, k: int)
    requires
        0 <= k < keys.len(),
    ensures
        keys_view(keys).skip(k).len() > 0,
        keys_view(keys).skip(k)[0] == keys[k]@,
        keys_view(keys).skip(k).drop_first() == keys_view(keys).skip(k + 1),
{
    assert(keys_view(keys).skip(k).drop_first() =~= keys_view(keys).skip(k + 1));
}

/// Searches `value` depth first for a non-blank string stored under one of `keys`;
/// see [`find_string`] for the order of the search.
#[verifier::loop_isolation(false)]
pub fn find_string_by_keys(value: &Json, keys: &[&str]) -> (r: Option<String>)
    ensures
        opt_text(r) == find_string(value@, keys_view(keys@)),
    decreases value,
{
    let ghost kv = keys_view(keys@);
    match value {
        Json::Object(members) => {
            let ghost mv = members_view(members@);
            let mut k: usize = 0;
            proof {
                assert(kv.skip(0) =~= kv);
            }
            while k < keys.len()
                invariant
                    k <= keys@.len(),
                    string_under_keys(mv, kv) == string_under_keys(mv, kv.skip(k as int)),
                decreases keys@.len() - k,
            {
                proof {
                    lemma_keys_step(keys@, k as int);
                }
                match lookup(members, keys[k]) {
                    Some(Json::Str(s)) => {
                        if !is_blank_text(s.as_str()) {
                            return Some(s.clone());
                        }
                    },
                    _ => {},
                }
                k = k + 1;
            }
            proof {
                assert(kv.skip(keys@.len() as int).len() == 0);
            }
            let mut i: usize = 0;
            proof {
                assert(mv.skip(0) =~= mv);
            }
            while i < members.len()
                invariant
                    i <= members@.len(),
                    find_string_in_members(mv, kv) == find_string_in_members(mv.skip(i as int), kv),
                decreases members@.len() - i,
            {
                proof {
                    assert(decreases_to!(members => members@[i as int]));
                    assert(mv.skip(i as int).drop_first() =~= mv.skip(i + 1));
                    assert(mv.skip(i as int)[0] == (members@[i as int].0@, members@[i as int].1@));
                }
                match find_string_by_keys(&members[i].1, keys) {
                    Some(s) => {
                        return Some(s);
                    },
                    None => {},
                }
                i = i + 1;
            }
            None
        },
        Json::Array(items) => {
            let ghost iv = items_view(items@);
            let mut i: usize = 0;
            proof {
                assert(iv.skip(0) =~= iv);
            }
            while i < items.len()
                invariant
                    i <= items@.len(),
                    find_string_in_items(iv, kv) == find_string_in_items(iv.skip(i as int), kv),
                decreases items@.len() - i,
            {
                proof {
                    assert(decreases_to!(items => items@[i as int]));
                    assert(iv.skip(i as int).drop_first() =~= iv.skip(i + 1));
                    assert(iv.skip(i as int)[0] == items@[i as int]@);
                }
                match find_string_by_keys(&items[i], keys) {
                    Some(s) => {
                        return Some(s);
                    },
                    None => {},
                }
                i = i + 1;
            }
            None
        },
        _ => None,
    }
}

/// A number stored directly in `candidate`, or as its `"val"` member.
fn number_in(candidate: &Json) -> (r: Option<String>)
    ensures
        opt_text(r) == number_at(candidate@),
{
    match candidate {
        Json::Number(t) => Some(t.clone()),
        Json::Object(members) => match lookup(members, "val") {
            Some(Json::Number(t)) => Some(t.clone()),
            _ => None,
        },
        _ => None,
    }
}

/// Searches `value` depth first for a number stored under one of `keys`, directly or
/// as the `"val"` member of the value found there; gives the number's text.
#[verifier::loop_isolation(false)]
pub fn find_number(value: &Json, keys: &[&str]) -> (r: Option<String>)
    ensures
        opt_text(r) == find_number_spec(value@, keys_view(keys@)),
    decreases value,
{
    let ghost kv = keys_view(keys@);
    match value {
        Json::Object(members) => {
            let ghost mv = members_view(members@);
            let mut k: usize = 0;
            proof {
                assert(kv.skip(0) =~= kv);
            }
            while k < keys.len()
                invariant
                    k <= keys@.len(),
                    number_under_keys(mv, kv) == number_under_keys(mv, kv.skip(k as int)),
                decreases keys@.len() - k,
            {
                proof {
                    lemma_keys_step(keys@, k as int);
                }
                match lookup(members, keys[k]) {
                    Some(candidate) => {
                        match number_in(candidate) {
                            Some(t) => {
                                return Some(t);
                            },
                            None => {},
                        }
                    },
                    None => {},
                }
                k = k + 1;
            }
            proof {
                assert(kv.skip(keys@.len() as int).len() == 0);
            }
            let mut i: usize = 0;
            proof {
                assert(mv.skip(0) =~= mv);
            }
            while i < members.len()
                invariant
                    i <= members@.len(),
                    find_number_in_members(mv, kv) == find_number_in_members(mv.skip(i as int), kv),
                decreases members@.len() - i,
            {
                proof {
                    assert(decreases_to!(members => members@[i as int]));
                    assert(mv.skip(i as int).drop_first() =~= mv.skip(i + 1));
                    assert(mv.skip(i as int)[0] == (members@[i as int].0@, members@[i as int].1@));
                }
                match find_number(&members[i].1, keys) {
                    Some(t) => {
                        return Some(t);
                    },
                    None => {},
                }
                i = i + 1;
            }
            None
        },
        Json::Array(items) => {
            let ghost iv = items_view(items@);
            let mut i: usize = 0;
            proof {
                assert(iv.skip(0) =~= iv);
            }
            while i < items.len()
                invariant
                    i <= items@.len(),
                    find_number_in_items(iv, kv) == find_number_in_items(iv.skip(i as int), kv),
                decreases items@.len() - i,
            {
                proof {
                    assert(decreases_to!(items => items@[i as int]));
                    assert(iv.skip(i as int).drop_first() =~= iv.skip(i + 1));
                    assert(iv.skip(i as int)[0] == items@[i as int]@);
                }
                match find_number(&items[i], keys) {
                    Some(t) => {
                        return Some(t);
                    },
                    None => {},
                }
                i = i + 1;
            }
            None
        },
        _ => None,
    }
}

/// The keys under which an auth file names its account.
pub open spec fn email_keys() -> Seq<Seq<char>> {
    seq!["email"@, "preferred_username"@]
}

/// The keys under which an auth file holds its access token.
pub open spec fn token_keys() -> Seq<Seq<char>> {
    seq!["access_token"@, "key"@, "token"@]
}

/// The account an auth file belongs to: the first non-blank `email` or
/// `preferred_username` found in it.
pub open spec fn auth_email_spec(auth: AuthJson) -> Option<Seq<char>> {
    match parsed_json(auth@) {
        Ok(v) => find_string(v, email_keys()),
        Err(_) => None,
    }
}

/// The access token of an auth file: the first non-blank `access_token`, `key` or `token`
/// found in it, when it is longer than 40 bytes.
pub open spec fn access_token_spec(auth: AuthJson) -> Option<Seq<char>> {
    match parsed_json(auth@) {
        Ok(v) => match find_string(v, token_keys()) {
            Some(t) => if encode_utf8(t).len() > 40 {
                Some(t)
            } else {
                None
            },
            None => None,
        },
        Err(_) => None,
    }
}

/// The account named in an auth file; see [`auth_email_spec`].
pub fn auth_email(auth: &AuthJson) -> (r: Option<String>)
    ensures
        opt_text(r) == auth_email_spec(*auth),
{
    match auth.document() {
        Ok(value) => {
            let keys = ["email", "preferred_username"];
            proof {
                assert(keys_view(keys@) =~= email_keys());
            }
            find_string_by_keys(value, &keys)
        },
        Err(_) => None,
    }
}

/// The access token in an auth file; see [`access_token_spec`].
pub fn access_token(auth: &AuthJson) -> (r: Option<String>)
    ensures
        opt_text(r) == access_token_spec(*auth),
{
    match auth.document() {
        Ok(value) => {
            let keys = ["access_token", "key", "token"];
            proof {
                assert(keys_view(keys@) =~= token_keys());
            }
            match find_string_by_keys(value, &keys) {
                Some(token) => {
                    if token.as_str().as_bytes().len() > 40 {
                        Some(token)
                    } else {
                        None
                    }
                },
                None => None,
            }
        },
        Err(_) => None,
    }
}

} // verus!
