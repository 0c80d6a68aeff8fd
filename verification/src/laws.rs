//! What holds of the library as a whole, across its functions.
use vstd::prelude::*;
use vstd::utf8::encode_utf8;
use crate::order::{key_before, lemma_bytes_before_lex, lex_less};
use crate::search::{access_token_spec, opt_text, find_number_spec, number_under_keys, token_keys};
use crate::text::decimal_text;
use crate::usage::{limit_keys, used_keys};
use crate::auth::{auth_fingerprint, fingerprint_of, normalized_text, parsed_json, AuthJson};
use crate::canonical::{
    canonical_form, is_canonical, lemma_canonical_fixed, lemma_canonical_wf, lemma_canonical_form_props,
    lemma_canonical_form_respects, same_up_to_key_order, MemberV,
};
use crate::json::JsonV;
use crate::search::{
    find_string, find_string_in_items, find_string_in_members, holds_in_items, holds_in_members,
    holds_string, key_holds, member_value, string_under_keys,
};
use crate::store::{
    first_match, first_with_id, has_no_id, lemma_first_with_id_is, lemma_first_match_is, is_view_of, name_given, new_profile_name, switch_confirmed, keeps, live_fingerprint, matches_auth,
    profile_fingerprint, upserted, Profile, ProfileView, Timestamp,
};
use crate::search::{auth_email_spec, email_keys};
use crate::text::{
    is_blank, is_whitespace, lemma_leading_whitespace, lemma_trailing_whitespace,
    lemma_trimmed_empty, leading_whitespace, trailing_whitespace, trimmed,
};

verus! {

/// Two auth documents that differ only in the order of object keys have the same
/// normalized text, hence the same fingerprint.
pub proof fn fingerprint_ignores_key_order(a: JsonV, b: JsonV)
    requires
        a.wf(),
        b.wf(),
        same_up_to_key_order(a, b),
    ensures
        normalized_text(a) == normalized_text(b),
        fingerprint_of(a) == fingerprint_of(b),
{
    lemma_canonical_form_respects(a, b);
}

/// Normalizing a document that is already normalized changes neither its text nor
/// its fingerprint.
pub proof fn fingerprint_of_canonical_form(v: JsonV)
    requires
        v.wf(),
    ensures
        normalized_text(canonical_form(v)) == normalized_text(v),
        fingerprint_of(canonical_form(v)) == fingerprint_of(v),
{
    canonical_form_idempotent(v);
}

/// The canonical form of a well-formed document is canonical, well formed, and holds
/// the same data.
pub proof fn canonical_form_is_canonical(v: JsonV)
    requires
        v.wf(),
    ensures
        is_canonical(canonical_form(v)),
        canonical_form(v).wf(),
        same_up_to_key_order(v, canonical_form(v)),
{
    lemma_canonical_form_props(v);
    lemma_canonical_wf(canonical_form(v));
}

/// A document already in canonical form is left as it is.
pub proof fn canonical_form_keeps_canonical(v: JsonV)
    requires
        is_canonical(v),
    ensures
        canonical_form(v) == v,
{
    lemma_canonical_fixed(v);
}

/// Putting a document in canonical form twice is the same as doing it once.
pub proof fn canonical_form_idempotent(v: JsonV)
    requires
        v.wf(),
    ensures
        canonical_form(canonical_form(v)) == canonical_form(v),
{
    lemma_canonical_form_props(v);
    lemma_canonical_fixed(canonical_form(v));
}

proof fn lemma_string_under_keys_not_blank(members: Seq<MemberV>, keys: Seq<Seq<char>>)
    ensures
        string_under_keys(members, keys) matches Some(s) ==> !is_blank(s),
    decreases keys.len(),
{
    if keys.len() > 0 {
        lemma_string_under_keys_not_blank(members, keys.drop_first());
    }
}

proof fn lemma_found_in_members_not_blank(members: Seq<MemberV>, keys: Seq<Seq<char>>)
    ensures
        find_string_in_members(members, keys) matches Some(s) ==> !is_blank(s),
    decreases members,
{
    if members.len() > 0 {
        found_string_is_not_blank(members[0].1, keys);
        lemma_found_in_members_not_blank(members.drop_first(), keys);
    }
}

proof fn lemma_found_in_items_not_blank(items: Seq<JsonV>, keys: Seq<Seq<char>>)
    ensures
        find_string_in_items(items, keys) matches Some(s) ==> !is_blank(s),
    decreases items,
{
    if items.len() > 0 {
        found_string_is_not_blank(items[0], keys);
        lemma_found_in_items_not_blank(items.drop_first(), keys);
    }
}

/// A string found by key is never blank.
pub proof fn found_string_is_not_blank(v: JsonV, keys: Seq<Seq<char>>)
    ensures
        find_string(v, keys) matches Some(s) ==> !is_blank(s),
    decreases v,
{
    match v {
        JsonV::Object(members) => {
            lemma_string_under_keys_not_blank(members, keys);
            lemma_found_in_members_not_blank(members, keys);
        },
        JsonV::Array(items) => {
            lemma_found_in_items_not_blank(items, keys);
        },
        _ => {},
    }
}

proof fn lemma_string_under_keys_held(members: Seq<MemberV>, keys: Seq<Seq<char>>)
    ensures
        string_under_keys(members, keys) matches Some(s) ==> key_holds(members, keys, s),
        string_under_keys(members, keys) is None ==> forall|s: Seq<char>|
            !is_blank(s) ==> !#[trigger] key_holds(members, keys, s),
    decreases keys.len(),
{
    if keys.len() > 0 {
        let rest = keys.drop_first();
        lemma_string_under_keys_held(members, rest);
        if let Some(s) = string_under_keys(members, keys) {
            if member_value(members, keys[0]) != Some(JsonV::Str(s)) {
                let j: int = choose|j: int|
                    0 <= j < rest.len() && member_value(members, #[trigger] rest[j]) == Some(
                        JsonV::Str(s),
                    );
                assert(rest[j] == keys[j + 1]);
            }
        } else {
            assert forall|s: Seq<char>| !is_blank(s) implies !#[trigger] key_holds(
                members,
                keys,
                s,
            ) by {
                if key_holds(members, keys, s) {
                    let j: int = choose|j: int|
                        0 <= j < keys.len() && member_value(members, #[trigger] keys[j]) == Some(
                            JsonV::Str(s),
                        );
                    if j > 0 {
                        assert(keys[j] == rest[j - 1]);
                        assert(key_holds(members, rest, s));
                    }
                }
            }
        }
    }
}

proof fn lemma_found_in_members_held(members: Seq<MemberV>, keys: Seq<Seq<char>>)
    ensures
        find_string_in_members(members, keys) matches Some(s) ==> holds_in_members(members, keys, s),
        find_string_in_members(members, keys) is None ==> forall|s: Seq<char>|
            !#[trigger] holds_in_members(members, keys, s),
    decreases members,
{
    if members.len() > 0 {
        found_string_is_held(members[0].1, keys);
        lemma_found_in_members_held(members.drop_first(), keys);
    }
    if find_string_in_members(members, keys) is None {
        assert forall|s: Seq<char>| !#[trigger] holds_in_members(members, keys, s) by {
            if members.len() > 0 {
                assert(!holds_string(members[0].1, keys, s));
                assert(!holds_in_members(members.drop_first(), keys, s));
            }
        }
    }
}

proof fn lemma_found_in_items_held(items: Seq<JsonV>, keys: Seq<Seq<char>>)
    ensures
        find_string_in_items(items, keys) matches Some(s) ==> holds_in_items(items, keys, s),
        find_string_in_items(items, keys) is None ==> forall|s: Seq<char>|
            !#[trigger] holds_in_items(items, keys, s),
    decreases items,
{
    if items.len() > 0 {
        found_string_is_held(items[0], keys);
        lemma_found_in_items_held(items.drop_first(), keys);
    }
    if find_string_in_items(items, keys) is None {
        assert forall|s: Seq<char>| !#[trigger] holds_in_items(items, keys, s) by {
            if items.len() > 0 {
                assert(!holds_string(items[0], keys, s));
                assert(!holds_in_items(items.drop_first(), keys, s));
            }
        }
    }
}

/// The search by key finds a string exactly when the document holds one: what it finds is a
/// non-blank string that some object in the document holds under one of the keys, and when
/// it finds nothing, no object holds one.
pub proof fn found_string_is_held(v: JsonV, keys: Seq<Seq<char>>)
    ensures
        find_string(v, keys) matches Some(s) ==> holds_string(v, keys, s),
        find_string(v, keys) is None ==> forall|s: Seq<char>| !#[trigger] holds_string(v, keys, s),
    decreases v,
{
    match v {
        JsonV::Object(members) => {
            lemma_string_under_keys_held(members, keys);
            lemma_string_under_keys_not_blank(members, keys);
            lemma_found_in_members_held(members, keys);
            if find_string(v, keys) is None {
                assert forall|s: Seq<char>| !#[trigger] holds_string(v, keys, s) by {
                    if !is_blank(s) {
                        assert(!key_holds(members, keys, s));
                    }
                    assert(!holds_in_members(members, keys, s));
                }
            }
        },
        JsonV::Array(items) => {
            lemma_found_in_items_held(items, keys);
            if find_string(v, keys) is None {
                assert forall|s: Seq<char>| !#[trigger] holds_string(v, keys, s) by {
                    assert(!holds_in_items(items, keys, s));
                }
            }
        },
        _ => {},
    }
}

proof fn lemma_first_match_found(ps: Seq<Profile>, fp: Seq<char>, email: Option<Seq<char>>, j: int)
    requires
        0 <= j < ps.len(),
        matches_auth(ps[j], fp, email),
    ensures
        first_match(ps, fp, email) <= j,
    decreases ps.len(),
{
    if j > 0 && !matches_auth(ps[0], fp, email) {
        assert(ps.drop_first()[j - 1] == ps[j]);
        lemma_first_match_found(ps.drop_first(), fp, email, j - 1);
    }
}

proof fn lemma_first_match_bounded(ps: Seq<Profile>, fp: Seq<char>, email: Option<Seq<char>>)
    ensures
        0 <= first_match(ps, fp, email) <= ps.len(),
    decreases ps.len(),
{
    if ps.len() > 0 {
        lemma_first_match_bounded(ps.drop_first(), fp, email);
    }
}

/// After importing an auth file that is JSON, the store holds a profile with that
/// auth file's fingerprint, and the import succeeded.
pub proof fn import_saves_auth(
    before: Seq<Profile>,
    after: Seq<Profile>,
    auth: AuthJson,
    name: Option<String>,
    now: Timestamp,
    new_id: String,
    r: Result<ProfileView, String>,
)
    requires
        parsed_json(auth@) is Ok,
        upserted(before, after, auth, name, now, new_id, r),
    ensures
        r is Ok,
        exists|j: int|
            0 <= j < after.len() && #[trigger] profile_fingerprint(after[j]) == auth_fingerprint(
                auth,
            ),
{
    let fp = auth_fingerprint(auth)->Some_0;
    let k: int = first_match(before, fp, auth_email_spec(auth));
    lemma_first_match_bounded(before, fp, auth_email_spec(auth));
    if k < before.len() {
        assert(profile_fingerprint(after[k]) == auth_fingerprint(auth));
    } else {
        assert(profile_fingerprint(after[after.len() - 1]) == auth_fingerprint(auth));
    }
}

/// When ids are unique in the store and a new profile's id is fresh, an import that
/// succeeds answers with the imported profile, shown as active: its auth file is the
/// one just imported.
pub proof fn imported_profile_is_active(
    before: Seq<Profile>,
    after: Seq<Profile>,
    auth: AuthJson,
    name: Option<String>,
    now: Timestamp,
    new_id: String,
    r: Result<ProfileView, String>,
)
    requires
        parsed_json(auth@) is Ok,
        upserted(before, after, auth, name, now, new_id, r),
        forall|i: int, j: int|
            0 <= i < j < before.len() ==> (#[trigger] before[i]).id@ != (#[trigger] before[j]).id@,
        has_no_id(before, new_id@),
    ensures
        r matches Ok(view) && view.is_active,
{
    let fp = auth_fingerprint(auth)->Some_0;
    let email = auth_email_spec(auth);
    let k: int = first_match(before, fp, email);
    lemma_first_match_bounded(before, fp, email);
    if k < before.len() {
        let id = before[k].id@;
        assert forall|i: int| 0 <= i < k implies (#[trigger] after[i]).id@ != id by {
            assert(after[i] == before[i]);
        }
        lemma_first_with_id_is(after, id, k);
        assert(first_with_id(after, id) == k);
    } else {
        assert forall|i: int| 0 <= i < before.len() implies (#[trigger] after[i]).id@
            != new_id@ by {
            assert(after[i] == before[i]);
        }
        lemma_first_with_id_is(after, new_id@, k);
    }
}

proof fn lemma_first_match_prefix(ps: Seq<Profile>, fp: Seq<char>, email: Option<Seq<char>>)
    ensures
        forall|i: int| 0 <= i < first_match(ps, fp, email) ==> !matches_auth(#[trigger] ps[i], fp, email),
    decreases ps.len(),
{
    lemma_first_match_bounded(ps, fp, email);
    if ps.len() > 0 && !matches_auth(ps[0], fp, email) {
        lemma_first_match_prefix(ps.drop_first(), fp, email);
        assert forall|i: int| 0 <= i < first_match(ps, fp, email) implies !matches_auth(
            #[trigger] ps[i],
            fp,
            email,
        ) by {
            if i > 0 {
                assert(ps[i] == ps.drop_first()[i - 1]);
            }
        }
    }
}

proof fn lemma_first_with_id_found(ps: Seq<Profile>, id: Seq<char>)
    ensures
        0 <= first_with_id(ps, id) <= ps.len(),
        first_with_id(ps, id) < ps.len() ==> ps[first_with_id(ps, id)].id@ == id,
    decreases ps.len(),
{
    if ps.len() > 0 && ps[0].id@ != id {
        lemma_first_with_id_found(ps.drop_first(), id);
    }
}

/// Importing the same auth file a second time adds no profile and changes no id: the
/// second import finds the profile that the first one saved, and both answer with its id.
pub proof fn reimport_adds_no_profile(
    before: Seq<Profile>,
    middle: Seq<Profile>,
    after: Seq<Profile>,
    auth: AuthJson,
    first_name: Option<String>,
    second_name: Option<String>,
    first_now: Timestamp,
    second_now: Timestamp,
    first_id: String,
    second_id: String,
    first_r: Result<ProfileView, String>,
    second_r: Result<ProfileView, String>,
)
    requires
        parsed_json(auth@) is Ok,
        upserted(before, middle, auth, first_name, first_now, first_id, first_r),
        upserted(middle, after, auth, second_name, second_now, second_id, second_r),
    ensures
        after.len() == middle.len(),
        forall|i: int| 0 <= i < after.len() ==> (#[trigger] after[i]).id == middle[i].id,
        first_r is Ok && second_r is Ok,
        first_r->Ok_0.id@ == second_r->Ok_0.id@,
{
    let fp = auth_fingerprint(auth)->Some_0;
    let email = auth_email_spec(auth);
    let k: int = first_match(before, fp, email);
    lemma_first_match_bounded(before, fp, email);
    lemma_first_match_prefix(before, fp, email);
    let id1 = if k < before.len() {
        before[k].id@
    } else {
        first_id@
    };
    assert forall|i: int| 0 <= i < k implies !matches_auth(#[trigger] middle[i], fp, email) by {
        assert(middle[i] == before[i]);
        assert(!matches_auth(before[i], fp, email));
    }
    assert(middle[k].raw_auth_json == auth);
    assert(matches_auth(middle[k], fp, email));
    assert(middle[k].id@ == id1);
    lemma_first_match_is(middle, fp, email, k);
    lemma_first_with_id_found(middle, id1);
    lemma_first_with_id_found(after, id1);
    assert forall|i: int| 0 <= i < after.len() implies (#[trigger] after[i]).id == middle[i].id by {
        if i != k {
            assert(after[i] == middle[i]);
        }
    }
}

/// After a delete, no profile has the deleted id, and every remaining profile was
/// there before.
pub proof fn delete_leaves_no_profile_with_id(before: Seq<Profile>, id: Seq<char>)
    ensures
        has_no_id(before.filter(keeps(id)), id),
        forall|p: Profile| before.filter(keeps(id)).contains(p) ==> before.contains(p),
{
    assert forall|p: Profile| before.filter(keeps(id)).contains(p) implies before.contains(p) by {
        before.lemma_filter_contains_rev(keeps(id), p);
    }
    assert forall|i: int| 0 <= i < before.filter(keeps(id)).len() implies (
    #[trigger] before.filter(keeps(id))[i]).id@ != id by {
        before.lemma_filter_pred(keeps(id), i);
    }
}

/// Once a switch to a profile is confirmed, the store keeps its profiles, and listing
/// them against the live auth file that was written shows that profile as active.
pub proof fn switched_profile_is_active(
    before: Seq<Profile>,
    after: Seq<Profile>,
    index: usize,
    written: Option<AuthJson>,
    now: Timestamp,
    view: ProfileView,
)
    requires
        index < before.len(),
        switch_confirmed(before, after, index, written, now, Ok(())),
        is_view_of(view, after[index as int], live_fingerprint(written)),
    ensures
        after.len() == before.len(),
        view.is_active,
{
}

/// A profile created by an import gets a name that is not blank: the requested name,
/// the account (never blank when found), or `Profile <n>`.
pub proof fn new_profile_name_not_blank(name: Option<String>, auth: AuthJson, count: nat)
    ensures
        !is_blank(new_profile_name(name, auth_email_spec(auth), count)),
{
    if let Ok(v) = parsed_json(auth@) {
        found_string_is_not_blank(v, email_keys());
    }
    if !name_given(name) && auth_email_spec(auth) is None {
        reveal_strlit("Profile ");
        let t = new_profile_name(name, auth_email_spec(auth), count);
        assert(t[0] == 'P');
    }
}

/// A name that is not blank, once trimmed, is not empty and neither starts nor ends
/// with whitespace.
pub proof fn trimmed_name_is_clean(name: Seq<char>)
    requires
        !is_blank(name),
    ensures
        trimmed(name).len() > 0,
        !is_whitespace(trimmed(name)[0]),
        !is_whitespace(trimmed(name).last()),
{
    lemma_trimmed_empty(name);
    lemma_leading_whitespace(name);
    lemma_trailing_whitespace(name);
    let k: int = choose|k: int| 0 <= k < name.len() && !is_whitespace(name[k]);
    assert(leading_whitespace(name) <= k);
    assert(k < name.len() - trailing_whitespace(name));
}

} // verus!

verus! {

/// Keys are ordered by their UTF-8 bytes, left to right: one key sorts before another
/// exactly when it is a proper prefix of it, or when at the first byte where they differ
/// its byte is smaller, whatever the lengths.
pub proof fn key_order_is_byte_order(a: Seq<char>, b: Seq<char>)
    ensures
        key_before(a, b) == lex_less(encode_utf8(a), encode_utf8(b)),
{
    lemma_bytes_before_lex(encode_utf8(a), encode_utf8(b));
}

/// The canonical form of a well-formed object lists its keys in increasing byte order.
pub proof fn canonical_keys_in_byte_order(v: JsonV)
    requires
        v.wf(),
    ensures
        canonical_form(v) matches JsonV::Object(cs) ==> forall|i: int, j: int|
            0 <= i < j < cs.len() ==> lex_less(
                encode_utf8((#[trigger] cs[i]).0),
                encode_utf8((#[trigger] cs[j]).0),
            ),
{
    lemma_canonical_form_props(v);
    if let JsonV::Object(cs) = canonical_form(v) {
        assert forall|i: int, j: int| 0 <= i < j < cs.len() implies lex_less(
            encode_utf8((#[trigger] cs[i]).0),
            encode_utf8((#[trigger] cs[j]).0),
        ) by {
            assert(key_before(cs[i].0, cs[j].0));
            key_order_is_byte_order(cs[i].0, cs[j].0);
        }
    }
}

/// The non-blank string that an object holds under `key`, if it holds one there.
pub open spec fn text_under(members: Seq<MemberV>, key: Seq<char>) -> Option<Seq<char>> {
    match member_value(members, key) {
        Some(JsonV::Str(s)) => if is_blank(s) {
            None
        } else {
            Some(s)
        },
        _ => None,
    }
}

/// The number that an object holds under `key`: a number there, or the number that an
/// object there holds as its `val` member.
pub open spec fn figure_under(members: Seq<MemberV>, key: Seq<char>) -> Option<Seq<char>> {
    match member_value(members, key) {
        Some(JsonV::Number(t)) => Some(t),
        Some(JsonV::Object(inner)) => match member_value(inner, "val"@) {
            Some(JsonV::Number(t)) => Some(t),
            _ => None,
        },
        _ => None,
    }
}

proof fn lemma_text_under_key_at(members: Seq<MemberV>, keys: Seq<Seq<char>>, i: int)
    requires
        0 <= i < keys.len(),
        text_under(members, keys[i]) is Some,
        forall|j: int| 0 <= j < i ==> text_under(members, #[trigger] keys[j]) is None,
    ensures
        string_under_keys(members, keys) == text_under(members, keys[i]),
        find_string(JsonV::Object(members), keys) == text_under(members, keys[i]),
    decreases i,
{
    if i > 0 {
        let rest = keys.drop_first();
        assert(text_under(members, keys[0]) is None);
        assert forall|j: int| 0 <= j < i - 1 implies text_under(members, #[trigger] rest[j]) is None by {
            assert(rest[j] == keys[j + 1]);
        }
        assert(rest[i - 1] == keys[i]);
        lemma_text_under_key_at(members, rest, i - 1);
    }
}

proof fn lemma_figure_under_key_at(members: Seq<MemberV>, keys: Seq<Seq<char>>, i: int)
    requires
        0 <= i < keys.len(),
        figure_under(members, keys[i]) is Some,
        forall|j: int| 0 <= j < i ==> figure_under(members, #[trigger] keys[j]) is None,
    ensures
        number_under_keys(members, keys) == figure_under(members, keys[i]),
        find_number_spec(JsonV::Object(members), keys) == figure_under(members, keys[i]),
    decreases i,
{
    if i > 0 {
        let rest = keys.drop_first();
        assert(figure_under(members, keys[0]) is None);
        assert forall|j: int| 0 <= j < i - 1 implies figure_under(members, #[trigger] rest[j]) is None by {
            assert(rest[j] == keys[j + 1]);
        }
        assert(rest[i - 1] == keys[i]);
        lemma_figure_under_key_at(members, rest, i - 1);
    }
}

/// The account is looked up under `email` before `preferred_username`: when an auth file's
/// object holds a non-blank `email`, that is the account, whatever else the object holds;
/// when it holds none there, a non-blank `preferred_username` is.
pub proof fn account_key_order(auth: AuthJson, members: Seq<MemberV>)
    requires
        parsed_json(auth@) == Ok::<JsonV, Seq<char>>(JsonV::Object(members)),
    ensures
        text_under(members, "email"@) is Some ==> auth_email_spec(auth) == text_under(
            members,
            "email"@,
        ),
        text_under(members, "preferred_username"@) is Some ==> (text_under(members, "email"@) is None
            ==> auth_email_spec(auth) == text_under(members, "preferred_username"@)),
{
    let keys = email_keys();
    assert(keys[0] == "email"@);
    assert(keys[1] == "preferred_username"@);
    if text_under(members, "email"@) is Some {
        lemma_text_under_key_at(members, keys, 0);
    } else if text_under(members, "preferred_username"@) is Some {
        lemma_text_under_key_at(members, keys, 1);
    }
}

/// The token is looked up under `access_token`, then `key`, then `token`, and the first
/// non-blank one found is kept only when it is longer than 40 bytes; a shorter one there
/// gives no token, even when a later key holds a longer one.
pub proof fn token_key_order(auth: AuthJson, members: Seq<MemberV>)
    requires
        parsed_json(auth@) == Ok::<JsonV, Seq<char>>(JsonV::Object(members)),
    ensures
        text_under(members, "access_token"@) matches Some(t) ==> access_token_spec(auth) == (if encode_utf8(t).len() > 40 {
            Some(t)
        } else {
            None
        }),
        text_under(members, "key"@) matches Some(t) ==> (text_under(members, "access_token"@) is None
            ==> access_token_spec(auth) == (if encode_utf8(t).len() > 40 {
            Some(t)
        } else {
            None
        })),
        text_under(members, "token"@) matches Some(t) ==> (text_under(members, "access_token"@) is None
            && text_under(members, "key"@) is None ==> access_token_spec(auth) == (if encode_utf8(t).len() > 40 {
            Some(t)
        } else {
            None
        })),
{
    let keys = token_keys();
    assert(keys[0] == "access_token"@);
    assert(keys[1] == "key"@);
    assert(keys[2] == "token"@);
    if text_under(members, "access_token"@) is Some {
        lemma_text_under_key_at(members, keys, 0);
    } else if text_under(members, "key"@) is Some {
        lemma_text_under_key_at(members, keys, 1);
    } else if text_under(members, "token"@) is Some {
        lemma_text_under_key_at(members, keys, 2);
    }
}

/// The amount used is looked up under `used`, `usage`, `amount_used`, then `spent`; a
/// number there, or wrapped as `{"val": n}`, is the amount used.
pub proof fn used_key_order(members: Seq<MemberV>)
    ensures
        figure_under(members, "used"@) matches Some(t) ==> find_number_spec(
            JsonV::Object(members),
            used_keys(),
        ) == Some(t),
        figure_under(members, "usage"@) matches Some(t) ==> (figure_under(members, "used"@) is None
            ==> find_number_spec(JsonV::Object(members), used_keys()) == Some(t)),
        figure_under(members, "amount_used"@) matches Some(t) ==> (figure_under(members, "used"@) is None
            && figure_under(members, "usage"@) is None ==> find_number_spec(
            JsonV::Object(members),
            used_keys(),
        ) == Some(t)),
        figure_under(members, "spent"@) matches Some(t) ==> (figure_under(members, "used"@) is None
            && figure_under(members, "usage"@) is None && figure_under(members, "amount_used"@) is None
            ==> find_number_spec(JsonV::Object(members), used_keys()) == Some(t)),
{
    let keys = used_keys();
    assert(keys[0] == "used"@);
    assert(keys[1] == "usage"@);
    assert(keys[2] == "amount_used"@);
    assert(keys[3] == "spent"@);
    if figure_under(members, "used"@) is Some {
        lemma_figure_under_key_at(members, keys, 0);
    } else if figure_under(members, "usage"@) is Some {
        lemma_figure_under_key_at(members, keys, 1);
    } else if figure_under(members, "amount_used"@) is Some {
        lemma_figure_under_key_at(members, keys, 2);
    } else if figure_under(members, "spent"@) is Some {
        lemma_figure_under_key_at(members, keys, 3);
    }
}

/// The limit is looked up under `monthlyLimit`, `limit`, `quota`, `total`, then
/// `amount_limit`; a number there, or wrapped as `{"val": n}`, is the limit.
pub proof fn limit_key_order(members: Seq<MemberV>)
    ensures
        figure_under(members, "monthlyLimit"@) matches Some(t) ==> find_number_spec(
            JsonV::Object(members),
            limit_keys(),
        ) == Some(t),
        figure_under(members, "limit"@) matches Some(t) ==> (figure_under(members, "monthlyLimit"@)
            is None ==> find_number_spec(JsonV::Object(members), limit_keys()) == Some(t)),
        figure_under(members, "quota"@) matches Some(t) ==> (figure_under(members, "monthlyLimit"@)
            is None && figure_under(members, "limit"@) is None ==> find_number_spec(
            JsonV::Object(members),
            limit_keys(),
        ) == Some(t)),
        figure_under(members, "total"@) matches Some(t) ==> (figure_under(members, "monthlyLimit"@)
            is None && figure_under(members, "limit"@) is None && figure_under(members, "quota"@) is None
            ==> find_number_spec(JsonV::Object(members), limit_keys()) == Some(t)),
        figure_under(members, "amount_limit"@) matches Some(t) ==> (figure_under(
            members,
            "monthlyLimit"@,
        ) is None && figure_under(members, "limit"@) is None && figure_under(members, "quota"@)
            is None && figure_under(members, "total"@) is None ==> find_number_spec(
            JsonV::Object(members),
            limit_keys(),
        ) == Some(t)),
{
    let keys = limit_keys();
    assert(keys[0] == "monthlyLimit"@);
    assert(keys[1] == "limit"@);
    assert(keys[2] == "quota"@);
    assert(keys[3] == "total"@);
    assert(keys[4] == "amount_limit"@);
    if figure_under(members, "monthlyLimit"@) is Some {
        lemma_figure_under_key_at(members, keys, 0);
    } else if figure_under(members, "limit"@) is Some {
        lemma_figure_under_key_at(members, keys, 1);
    } else if figure_under(members, "quota"@) is Some {
        lemma_figure_under_key_at(members, keys, 2);
    } else if figure_under(members, "total"@) is Some {
        lemma_figure_under_key_at(members, keys, 3);
    } else if figure_under(members, "amount_limit"@) is Some {
        lemma_figure_under_key_at(members, keys, 4);
    }
}

/// A profile that an import adds is named by the requested name whenever one is given and
/// is not blank, whatever account the auth file names; with no such name, by the account;
/// with neither, `Profile <n>` where `n` is the new number of profiles.
pub proof fn new_profile_is_named(
    before: Seq<Profile>,
    after: Seq<Profile>,
    auth: AuthJson,
    name: Option<String>,
    now: Timestamp,
    new_id: String,
    r: Result<ProfileView, String>,
)
    requires
        parsed_json(auth@) is Ok,
        upserted(before, after, auth, name, now, new_id, r),
        after.len() == before.len() + 1,
    ensures
        name matches Some(n) ==> (!is_blank(n@) ==> after.last().name@ == n@),
        name_given(name) || auth_email_spec(auth) is None || after.last().name@
            == auth_email_spec(auth)->Some_0,
        name_given(name) || auth_email_spec(auth) is Some || after.last().name@ == "Profile "@
            + decimal_text(after.len()),
{
    let fp = auth_fingerprint(auth)->Some_0;
    let k: int = first_match(before, fp, auth_email_spec(auth));
    lemma_first_match_bounded(before, fp, auth_email_spec(auth));
    assert(k == before.len());
}

proof fn lemma_first_match_hit(ps: Seq<Profile>, fp: Seq<char>, email: Option<Seq<char>>)
    ensures
        first_match(ps, fp, email) < ps.len() ==> matches_auth(ps[first_match(ps, fp, email)], fp, email),
    decreases ps.len(),
{
    if ps.len() > 0 && !matches_auth(ps[0], fp, email) {
        lemma_first_match_hit(ps.drop_first(), fp, email);
        lemma_first_match_bounded(ps.drop_first(), fp, email);
        let k = first_match(ps.drop_first(), fp, email);
        if k < ps.drop_first().len() {
            assert(ps.drop_first()[k] == ps[k + 1]);
        }
    }
}

/// An import that adds no profile refreshes the first saved profile whose fingerprint is
/// the auth file's, or whose account is the account the auth file names: it keeps that
/// profile's id, takes the new auth file and, when a name is requested and not blank, that
/// name trimmed; every other profile is left as it was.
pub proof fn import_refreshes_first_match(
    before: Seq<Profile>,
    after: Seq<Profile>,
    auth: AuthJson,
    name: Option<String>,
    now: Timestamp,
    new_id: String,
    r: Result<ProfileView, String>,
) -> (k: int)
    requires
        parsed_json(auth@) is Ok,
        upserted(before, after, auth, name, now, new_id, r),
        after.len() == before.len(),
    ensures
        0 <= k < before.len(),
        profile_fingerprint(before[k]) == auth_fingerprint(auth) || (auth_email_spec(auth) is Some
            && opt_text(before[k].email) == auth_email_spec(auth)),
        forall|i: int|
            0 <= i < k ==> profile_fingerprint(#[trigger] before[i]) != auth_fingerprint(auth) && (
            auth_email_spec(auth) is None || opt_text(before[i].email) != auth_email_spec(auth)),
        after[k].id == before[k].id,
        after[k].raw_auth_json == auth,
        name matches Some(n) ==> (!is_blank(n@) ==> after[k].name@ == trimmed(n@)),
        name_given(name) || after[k].name == before[k].name,
        forall|i: int| 0 <= i < after.len() && i != k ==> #[trigger] after[i] == before[i],
{
    let fp = auth_fingerprint(auth)->Some_0;
    let email = auth_email_spec(auth);
    let k: int = first_match(before, fp, email);
    lemma_first_match_bounded(before, fp, email);
    lemma_first_match_prefix(before, fp, email);
    lemma_first_match_hit(before, fp, email);
    assert(k < before.len());
    assert forall|i: int| 0 <= i < k implies profile_fingerprint(#[trigger] before[i])
        != auth_fingerprint(auth) && (email is None || opt_text(before[i].email) != email) by {
        assert(!matches_auth(before[i], fp, email));
    }
    k
}

} // verus!

