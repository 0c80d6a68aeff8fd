//! The profile store: saved auth files, each under a name, and the operations
//! that import, list, rename, delete and switch between them.
use vstd::prelude::*;
use crate::auth::{auth_fingerprint, fingerprint, invalid_json_message, parsed_json, AuthJson};
use crate::order::text_eq;
use crate::search::{auth_email, auth_email_spec, opt_text};
use crate::text::{decimal, decimal_text, is_blank, is_blank_text, trim, trimmed};

verus! {

/// A point in time in UTC: whole seconds since 1970-01-01T00:00:00Z and the
/// nanoseconds past that second.
#[derive(Clone, Copy, Debug, PartialEq, Eq, Structural)]
pub struct Timestamp {
    pub seconds: i64,
    pub nanos: u32,
}

/// A saved auth file and what the store knows of it.
#[derive(Debug)]
pub struct Profile {
    pub id: String,
    pub name: String,
    pub email: Option<String>,
    pub raw_auth_json: AuthJson,
    pub created_at: Timestamp,
    pub last_used_at: Option<Timestamp>,
}

/// All saved profiles, in the order in which they were added.
#[derive(Debug)]
pub struct ProfileStore {
    pub profiles: Vec<Profile>,
}

/// A profile as the interface shows it.
#[derive(Debug)]
pub struct ProfileView {
    pub id: String,
    pub name: String,
    pub email: Option<String>,
    pub is_active: bool,
    pub created_at: Timestamp,
    pub last_used_at: Option<Timestamp>,
}

/// What the live auth file says.
#[derive(Debug)]
pub struct LoginStatus {
    pub exists: bool,
    pub fingerprint: Option<String>,
    pub email: Option<String>,
}

/// The result of a switch: whether a Grok CLI session is still running on the old account.
#[derive(Debug)]
pub struct SwitchOutcome {
    pub grok_running: bool,
}

/// The fingerprint of a profile's auth file, when its text is JSON.
pub open spec fn profile_fingerprint(p: Profile) -> Option<Seq<char>> {
    auth_fingerprint(p.raw_auth_json)
}

/// The fingerprint of an optional auth file.
pub open spec fn live_fingerprint(live: Option<AuthJson>) -> Option<Seq<char>> {
    match live {
        Some(a) => auth_fingerprint(a),
        None => None,
    }
}

/// `v` shows profile `p`; it is active when there is a live fingerprint and `p`'s
/// fingerprint is that one.
pub open spec fn is_view_of(v: ProfileView, p: Profile, live: Option<Seq<char>>) -> bool {
    &&& v.id == p.id
    &&& v.name == p.name
    &&& v.email == p.email
    &&& v.is_active == (live is Some && profile_fingerprint(p) == live)
    &&& v.created_at == p.created_at
    &&& v.last_used_at == p.last_used_at
}

/// `k` is the first index of a profile with the id `id`.
pub open spec fn is_first_with_id(profiles: Seq<Profile>, id: Seq<char>, k: int) -> bool {
    &&& 0 <= k < profiles.len()
    &&& profiles[k].id@ == id
    &&& forall|i: int| 0 <= i < k ==> (#[trigger] profiles[i]).id@ != id
}

/// No profile has the id `id`.
pub open spec fn has_no_id(profiles: Seq<Profile>, id: Seq<char>) -> bool {
    forall|i: int| 0 <= i < profiles.len() ==> (#[trigger] profiles[i]).id@ != id
}

fn clone_text(o: &Option<String>) -> (r: Option<String>)
    ensures
        r == *o,
{
    match o {
        Some(s) => Some(s.clone()),
        None => None,
    }
}

fn same_text(a: &Option<String>, b: &Option<String>) -> (r: bool)
    ensures
        r == (opt_text(*a) == opt_text(*b)),
{
    match (a, b) {
        (Some(x), Some(y)) => text_eq(x.as_str(), y.as_str()),
        (None, None) => true,
        _ => false,
    }
}

fn same_fingerprint(a: &Option<String>, b: Option<&str>) -> (r: bool)
    ensures
        r == (opt_text(*a) == match b {
            Some(t) => Some(t@),
            None => None,
        }),
{
    match (a, b) {
        (Some(x), Some(y)) => text_eq(x.as_str(), y),
        (None, None) => true,
        _ => false,
    }
}

fn fingerprint_or_none(auth: &AuthJson) -> (r: Option<String>)
    ensures
        opt_text(r) == auth_fingerprint(*auth),
{
    match fingerprint(auth) {
        Ok(f) => Some(f),
        Err(_) => None,
    }
}

/// Shows a profile; it is active when `live_fingerprint` is given and equals its fingerprint.
pub fn profile_view(profile: &Profile, live_fingerprint: Option<&str>) -> (r: ProfileView)
    ensures
        is_view_of(
            r,
            *profile,
            match live_fingerprint {
                Some(t) => Some(t@),
                None => None,
            },
        ),
{
    let own = fingerprint_or_none(&profile.raw_auth_json);
    ProfileView {
        id: profile.id.clone(),
        name: profile.name.clone(),
        email: clone_text(&profile.email),
        is_active: live_fingerprint.is_some() && same_fingerprint(&own, live_fingerprint),
        created_at: profile.created_at,
        last_used_at: profile.last_used_at,
    }
}

/// Every profile, shown against the fingerprint of the live auth file.
pub fn list_profiles(store: &ProfileStore, live: Option<&AuthJson>) -> (r: Vec<ProfileView>)
    ensures
        r@.len() == store.profiles@.len(),
        forall|i: int|
            0 <= i < r@.len() ==> is_view_of(
                #[trigger] r@[i],
                store.profiles@[i],
                match live {
                    Some(a) => auth_fingerprint(*a),
                    None => None,
                },
            ),
{
    let live_print = match live {
        Some(a) => fingerprint_or_none(a),
        None => None,
    };
    let mut views: Vec<ProfileView> = Vec::new();
    let mut i: usize = 0;
    while i < store.profiles.len()
        invariant
            i <= store.profiles@.len(),
            opt_text(live_print) == match live {
                Some(a) => auth_fingerprint(*a),
                None => None,
            },
            views@.len() == i,
            forall|k: int|
                0 <= k < i ==> is_view_of(
                    #[trigger] views@[k],
                    store.profiles@[k],
                    opt_text(live_print),
                ),
        decreases store.profiles@.len() - i,
    {
        let v = match &live_print {
            Some(f) => profile_view(&store.profiles[i], Some(f.as_str())),
            None => profile_view(&store.profiles[i], None),
        };
        views.push(v);
        i = i + 1;
    }
    views
}

/// What the live auth file says: whether there is one, its fingerprint and its account.
pub fn login_status(live: Option<&AuthJson>) -> (r: LoginStatus)
    ensures
        r.exists == live is Some,
        opt_text(r.fingerprint) == live_fingerprint(
            match live {
                Some(a) => Some(*a),
                None => None,
            },
        ),
        opt_text(r.email) == match live {
            Some(a) => auth_email_spec(*a),
            None => None,
        },
{
    match live {
        Some(a) => LoginStatus {
            exists: true,
            fingerprint: fingerprint_or_none(a),
            email: auth_email(a),
        },
        None => LoginStatus { exists: false, fingerprint: None, email: None },
    }
}

/// The live auth file, for importing it as a profile.
pub fn current_auth(live: Option<AuthJson>) -> (r: Result<AuthJson, String>)
    ensures
        match live {
            Some(a) => r == Ok::<AuthJson, String>(a),
            None => r matches Err(m) && m@ == "Run grok login first; no auth.json was found"@,
        },
{
    match live {
        Some(a) => Ok(a),
        None => Err(String::from_str("Run grok login first; no auth.json was found")),
    }
}

} // verus!

verus! {

/// A requested name counts when it is given and not blank.
pub open spec fn name_given(name: Option<String>) -> bool {
    name matches Some(n) && !is_blank(n@)
}

/// A saved profile matches an imported auth file when its fingerprint is the file's
/// fingerprint `fp`, or when the file names an account and the profile has that account.
pub open spec fn matches_auth(p: Profile, fp: Seq<char>, email: Option<Seq<char>>) -> bool {
    ||| profile_fingerprint(p) == Some(fp)
    ||| (email is Some && opt_text(p.email) == email)
}

/// The index of the first profile that matches, or the number of profiles when none does.
pub open spec fn first_match(ps: Seq<Profile>, fp: Seq<char>, email: Option<Seq<char>>) -> int
    decreases ps.len(),
{
    if ps.len() == 0 {
        0
    } else if matches_auth(ps[0], fp, email) {
        0
    } else {
        1 + first_match(ps.drop_first(), fp, email)
    }
}

/// The index of the first profile with the id `id`, or the number of profiles when none has it.
pub open spec fn first_with_id(ps: Seq<Profile>, id: Seq<char>) -> int
    decreases ps.len(),
{
    if ps.len() == 0 {
        0
    } else if ps[0].id@ == id {
        0
    } else {
        1 + first_with_id(ps.drop_first(), id)
    }
}

/// `p` is the saved profile `old` after importing `auth` over it at time `now`:
/// same id and creation time, the new auth file and account, used now, and renamed
/// to the trimmed requested name when one is given.
pub open spec fn is_refreshed(
    p: Profile,
    old: Profile,
    auth: AuthJson,
    name: Option<String>,
    now: Timestamp,
) -> bool {
    &&& p.id == old.id
    &&& p.raw_auth_json == auth
    &&& opt_text(p.email) == auth_email_spec(auth)
    &&& p.created_at == old.created_at
    &&& p.last_used_at == Some(now)
    &&& if name_given(name) {
        p.name@ == trimmed(name->Some_0@)
    } else {
        p.name == old.name
    }
}

/// The name of a newly imported profile: the requested name as given, else its account,
/// else `Profile <n>` where `n` is one more than the number of saved profiles.
pub open spec fn new_profile_name(
    name: Option<String>,
    email: Option<Seq<char>>,
    count: nat,
) -> Seq<char> {
    if name_given(name) {
        name->Some_0@
    } else if email is Some {
        email->Some_0
    } else {
        "Profile "@ + decimal_text(count + 1)
    }
}

/// `p` is a new profile for `auth` imported at time `now` under the id `id`, when the
/// store held `count` profiles.
pub open spec fn is_new_profile(
    p: Profile,
    auth: AuthJson,
    name: Option<String>,
    now: Timestamp,
    id: String,
    count: nat,
) -> bool {
    &&& p.id == id
    &&& p.name@ == new_profile_name(name, auth_email_spec(auth), count)
    &&& opt_text(p.email) == auth_email_spec(auth)
    &&& p.raw_auth_json == auth
    &&& p.created_at == now
    &&& p.last_used_at == Some(now)
}

/// `first_match` is `k` when `k` is the first index that matches, or the length when none does.
pub proof fn lemma_first_match_is(ps: Seq<Profile>, fp: Seq<char>, email: Option<Seq<char>>, k: int)
    requires
        0 <= k <= ps.len(),
        forall|i: int| 0 <= i < k ==> !matches_auth(#[trigger] ps[i], fp, email),
        k < ps.len() ==> matches_auth(ps[k], fp, email),
    ensures
        first_match(ps, fp, email) == k,
    decreases ps.len(),
{
    if ps.len() > 0 && k > 0 {
        assert(!matches_auth(ps[0], fp, email));
        assert forall|i: int| 0 <= i < k - 1 implies !matches_auth(
            #[trigger] ps.drop_first()[i],
            fp,
            email,
        ) by {
            assert(ps.drop_first()[i] == ps[i + 1]);
        }
        lemma_first_match_is(ps.drop_first(), fp, email, k - 1);
    }
}

/// `first_with_id` is `k` when `k` is the first index with the id, or the length when none has it.
pub proof fn lemma_first_with_id_is(ps: Seq<Profile>, id: Seq<char>, k: int)
    requires
        0 <= k <= ps.len(),
        forall|i: int| 0 <= i < k ==> (#[trigger] ps[i]).id@ != id,
        k < ps.len() ==> ps[k].id@ == id,
    ensures
        first_with_id(ps, id) == k,
    decreases ps.len(),
{
    if ps.len() > 0 && k > 0 {
        assert(ps[0].id@ != id);
        assert forall|i: int| 0 <= i < k - 1 implies (#[trigger] ps.drop_first()[i]).id@
            != id by {
            assert(ps.drop_first()[i] == ps[i + 1]);
        }
        lemma_first_with_id_is(ps.drop_first(), id, k - 1);
    }
}

fn profile_matches(p: &Profile, fp: &str, email: &Option<String>) -> (r: bool)
    ensures
        r == matches_auth(*p, fp@, opt_text(*email)),
{
    let own = fingerprint_or_none(&p.raw_auth_json);
    same_fingerprint(&own, Some(fp)) || (email.is_some() && same_text(&p.email, email))
}

/// The index of the first profile with the id `id`, if there is one.
pub fn find_profile(profiles: &Vec<Profile>, id: &str) -> (r: Option<usize>)
    ensures
        match r {
            Some(k) => is_first_with_id(profiles@, id@, k as int) && first_with_id(profiles@, id@)
                == k,
            None => has_no_id(profiles@, id@) && first_with_id(profiles@, id@)
                == profiles@.len(),
        },
{
    let mut k: usize = 0;
    while k < profiles.len()
        invariant
            k <= profiles@.len(),
            forall|i: int| 0 <= i < k ==> (#[trigger] profiles@[i]).id@ != id@,
        decreases profiles@.len() - k,
    {
        if text_eq(profiles[k].id.as_str(), id) {
            proof {
                lemma_first_with_id_is(profiles@, id@, k as int);
            }
            return Some(k);
        }
        k = k + 1;
    }
    proof {
        lemma_first_with_id_is(profiles@, id@, k as int);
    }
    None
}

/// What importing `auth` does to the profiles `before` when the auth file is JSON:
/// `after` is the new list and `r` the result, for the time `now` and the fresh id `new_id`.
pub open spec fn upserted(
    before: Seq<Profile>,
    after: Seq<Profile>,
    auth: AuthJson,
    requested_name: Option<String>,
    now: Timestamp,
    new_id: String,
    r: Result<ProfileView, String>,
) -> bool {
    let fp = auth_fingerprint(auth)->Some_0;
    let email = auth_email_spec(auth);
    let k: int = first_match(before, fp, email);
    let id = if k < before.len() {
        before[k].id@
    } else {
        new_id@
    };
    &&& k < before.len() ==> after == before.update(k, after[k]) && is_refreshed(
        after[k],
        before[k],
        auth,
        requested_name,
        now,
    )
    &&& k == before.len() ==> after == before.push(after.last()) && is_new_profile(
        after.last(),
        auth,
        requested_name,
        now,
        new_id,
        before.len(),
    )
    &&& first_with_id(after, id) < after.len()
    &&& r matches Ok(view) && is_view_of(
        view,
        after[first_with_id(after, id)],
        Some(fp),
    )
}

fn refreshed_name(requested: Option<String>, current: String) -> (r: String)
    ensures
        if name_given(requested) {
            r@ == trimmed(requested->Some_0@)
        } else {
            r == current
        },
{
    match requested {
        Some(n) => {
            if !is_blank_text(n.as_str()) {
                String::from_str(trim(n.as_str()))
            } else {
                current
            }
        },
        None => current,
    }
}

fn new_name(requested: Option<String>, email: &Option<String>, count: usize) -> (r: String)
    requires
        count < usize::MAX,
    ensures
        r@ == new_profile_name(requested, opt_text(*email), count as nat),
{
    match requested {
        Some(n) => {
            if !is_blank_text(n.as_str()) {
                return n;
            }
        },
        None => {},
    }
    match email {
        Some(e) => e.clone(),
        None => {
            let mut text = String::from_str("Profile ");
            let number = decimal(count + 1);
            text.append(number.as_str());
            text
        },
    }
}

/// Saves `auth` as a profile at time `now`: over the first profile that matches it
/// (same fingerprint, or same account), or else as a new profile with the id `new_id`.
/// Gives the view of the first profile that then has the resulting id.
pub fn upsert_auth(
    store: &mut ProfileStore,
    auth: AuthJson,
    requested_name: Option<String>,
    now: Timestamp,
    new_id: String,
) -> (r: Result<ProfileView, String>)
    requires
        old(store).profiles@.len() < usize::MAX,
    ensures
        match parsed_json(auth@) {
            Err(e) => {
                &&& r matches Err(m) && m@ == invalid_json_message(e)
                &&& final(store).profiles@ == old(store).profiles@
            },
            Ok(_) => upserted(
                old(store).profiles@,
                final(store).profiles@,
                auth,
                requested_name,
                now,
                new_id,
                r,
            ),
        },
{
    let raw_fingerprint = match fingerprint(&auth) {
        Ok(f) => f,
        Err(m) => {
            return Err(m);
        },
    };
    let email = auth_email(&auth);
    let ghost fp = raw_fingerprint@;
    let ghost before = store.profiles@;
    let mut k: usize = 0;
    let mut found = false;
    while !found && k < store.profiles.len()
        invariant
            k <= store.profiles@.len(),
            store.profiles@ == before,
            fp == raw_fingerprint@,
            forall|i: int| 0 <= i < k ==> !matches_auth(#[trigger] before[i], fp, opt_text(email)),
            found ==> k < before.len() && matches_auth(before[k as int], fp, opt_text(email)),
        decreases store.profiles@.len() - k + (if found {
            0int
        } else {
            1int
        }),
    {
        if profile_matches(&store.profiles[k], raw_fingerprint.as_str(), &email) {
            found = true;
        } else {
            k = k + 1;
        }
    }
    proof {
        lemma_first_match_is(before, fp, opt_text(email), k as int);
    }
    let id: String;
    if found {
        let current = store.profiles.remove(k);
        let Profile { id: current_id, name: current_name, email: _, raw_auth_json: _, created_at, last_used_at: _ } = current;
        id = current_id.clone();
        let name = refreshed_name(requested_name, current_name);
        let refreshed = Profile {
            id: current_id,
            name,
            email: clone_text(&email),
            raw_auth_json: auth,
            created_at,
            last_used_at: Some(now),
        };
        store.profiles.insert(k, refreshed);
        proof {
            assert(store.profiles@ =~= before.update(k as int, store.profiles@[k as int]));
        }
    } else {
        let count: usize = store.profiles.len();
        let name = new_name(requested_name, &email, count);
        id = new_id.clone();
        let created = Profile {
            id: new_id,
            name,
            email: clone_text(&email),
            raw_auth_json: auth,
            created_at: now,
            last_used_at: Some(now),
        };
        store.profiles.push(created);
    }
    match find_profile(&store.profiles, id.as_str()) {
        Some(m) => Ok(profile_view(&store.profiles[m], Some(raw_fingerprint.as_str()))),
        None => {
            proof {
                if found {
                    assert(store.profiles@[k as int].id@ == id@);
                } else {
                    assert(store.profiles@.last().id@ == id@);
                }
            }
            Err(String::from_str("Imported profile was not found"))
        },
    }
}

} // verus!

verus! {

/// The parser's message for an auth file that was read but is not JSON.
pub open spec fn parse_error(a: Option<AuthJson>) -> Option<Seq<char>> {
    match a {
        Some(w) => match parsed_json(w@) {
            Err(e) => Some(e),
            Ok(_) => None,
        },
        None => None,
    }
}

/// `r` is the error `msg`.
pub open spec fn fails_with<T>(r: Result<T, String>, msg: Seq<char>) -> bool {
    r matches Err(m) && m@ == msg
}

/// `p` is `old` with the name `name` and nothing else changed.
pub open spec fn is_renamed(p: Profile, old: Profile, name: Seq<char>) -> bool {
    &&& p.id == old.id
    &&& p.name@ == name
    &&& p.email == old.email
    &&& p.raw_auth_json == old.raw_auth_json
    &&& p.created_at == old.created_at
    &&& p.last_used_at == old.last_used_at
}

/// `p` is `old` marked as used at time `now`, and nothing else changed.
pub open spec fn is_touched(p: Profile, old: Profile, now: Timestamp) -> bool {
    &&& p.id == old.id
    &&& p.name == old.name
    &&& p.email == old.email
    &&& p.raw_auth_json == old.raw_auth_json
    &&& p.created_at == old.created_at
    &&& p.last_used_at == Some(now)
}

/// The name a profile can be renamed to: `name` trimmed, unless nothing is left of it.
pub fn profile_name(name: &str) -> (r: Result<String, String>)
    ensures
        match r {
            Ok(n) => !is_blank(name@) && n@ == trimmed(name@),
            Err(m) => is_blank(name@) && m@ == "Name cannot be empty"@,
        },
{
    if is_blank_text(name) {
        Err(String::from_str("Name cannot be empty"))
    } else {
        Ok(String::from_str(trim(name)))
    }
}

/// Renames the first profile with the id `profile_id` to `name`, trimmed.
pub fn rename_profile(store: &mut ProfileStore, profile_id: &str, name: &str) -> (r: Result<
    (),
    String,
>)
    ensures
        is_blank(name@) ==> fails_with(r, "Name cannot be empty"@),
        !is_blank(name@) && has_no_id(old(store).profiles@, profile_id@) ==> fails_with(
            r,
            "Profile not found"@,
        ),
        r is Err ==> final(store).profiles@ == old(store).profiles@,
        !is_blank(name@) && !has_no_id(old(store).profiles@, profile_id@) ==> ({
            let k: int = first_with_id(old(store).profiles@, profile_id@);
            &&& r is Ok
            &&& 0 <= k < old(store).profiles@.len()
            &&& final(store).profiles@ == old(store).profiles@.update(
                k,
                final(store).profiles@[k],
            )
            &&& is_renamed(final(store).profiles@[k], old(store).profiles@[k], trimmed(name@))
        }),
{
    let trimmed_name = profile_name(name)?;
    match find_profile(&store.profiles, profile_id) {
        Some(k) => {
            let ghost before = store.profiles@;
            let mut current = store.profiles.remove(k);
            current.name = trimmed_name;
            store.profiles.insert(k, current);
            proof {
                assert(store.profiles@ =~= before.update(k as int, store.profiles@[k as int]));
            }
            Ok(())
        },
        None => Err(String::from_str("Profile not found")),
    }
}

/// Keeps the profiles whose id is not `id`.
pub open spec fn keeps(id: Seq<char>) -> spec_fn(Profile) -> bool {
    |p: Profile| p.id@ != id
}

/// Deletes every profile with the id `profile_id`; fails when there is none.
pub fn delete_profile(store: &mut ProfileStore, profile_id: &str) -> (r: Result<(), String>)
    ensures
        final(store).profiles@ == old(store).profiles@.filter(keeps(profile_id@)),
        r is Err <==> has_no_id(old(store).profiles@, profile_id@),
        r matches Err(m) ==> m@ == "Profile not found"@,
{
    let total: usize = store.profiles.len();
    let ghost before = store.profiles@;
    let mut rest: Vec<Profile> = Vec::new();
    std::mem::swap(&mut rest, &mut store.profiles);
    let mut kept: Vec<Profile> = Vec::new();
    let mut removed = false;
    let mut i: usize = 0;
    proof {
        assert(before.take(0) =~= Seq::<Profile>::empty());
        assert(rest@ =~= before.skip(0));
    }
    while rest.len() > 0
        invariant
            i <= before.len(),
            before.len() == total,
            rest@ == before.skip(i as int),
            kept@ == before.take(i as int).filter(keeps(profile_id@)),
            removed <==> exists|k: int| 0 <= k < i && (#[trigger] before[k]).id@ == profile_id@,
        decreases rest@.len(),
    {
        let p = rest.remove(0);
        proof {
            assert(p == before[i as int]);
            assert(before.take(i + 1).drop_last() =~= before.take(i as int));
            assert(before.take(i + 1).last() == before[i as int]);
            assert(rest@ =~= before.skip(i + 1));
        }
        let ghost sub = before.take(i as int).filter(keeps(profile_id@));
        proof {
            reveal_with_fuel(Seq::filter, 1);
            assert(before.take(i + 1).filter(keeps(profile_id@)) == (if keeps(profile_id@)(
                before[i as int],
            ) {
                sub.push(before[i as int])
            } else {
                sub
            }));
        }
        if text_eq(p.id.as_str(), profile_id) {
            removed = true;
        } else {
            kept.push(p);
        }
        i = i + 1;
    }
    proof {
        assert(before.take(i as int) =~= before);
    }
    store.profiles = kept;
    if removed {
        Ok(())
    } else {
        Err(String::from_str("Profile not found"))
    }
}

/// Where a switch to `profile_id` starts: the index of the first profile with that id,
/// when its auth file is JSON.
pub fn switch_target(store: &ProfileStore, profile_id: &str) -> (r: Result<usize, String>)
    ensures
        has_no_id(store.profiles@, profile_id@) ==> fails_with(r, "Profile not found"@),
        !has_no_id(store.profiles@, profile_id@) ==> ({
            let k: int = first_with_id(store.profiles@, profile_id@);
            &&& 0 <= k < store.profiles@.len()
            &&& match parsed_json(store.profiles@[k].raw_auth_json@) {
                Ok(_) => r == Ok::<usize, String>(k as usize),
                Err(e) => r matches Err(m) && m@ == invalid_json_message(e),
            }
        }),
{
    match find_profile(&store.profiles, profile_id) {
        Some(k) => {
            let _expected = fingerprint(&store.profiles[k].raw_auth_json)?;
            Ok(k)
        },
        None => Err(String::from_str("Profile not found")),
    }
}

/// What confirming a switch to profile `index` does to the profiles `before`, for the
/// auth file `written` read back from the live path and the time `now`: `after` is the
/// new list and `r` the result.
pub open spec fn switch_confirmed(
    before: Seq<Profile>,
    after: Seq<Profile>,
    index: usize,
    written: Option<AuthJson>,
    now: Timestamp,
    r: Result<(), String>,
) -> bool {
    let expected = profile_fingerprint(before[index as int]);
    &&& (parsed_json(before[index as int].raw_auth_json@) matches Err(e) ==> fails_with(
        r,
        invalid_json_message(e),
    ))
    &&& expected is Some && written is None ==> fails_with(
        r,
        "The live auth file disappeared after switching"@,
    )
    &&& expected is Some && parse_error(written) is Some ==> fails_with(
        r,
        invalid_json_message(parse_error(written)->Some_0),
    )
    &&& expected is Some && live_fingerprint(written) is Some && live_fingerprint(written)
        != expected ==> fails_with(
        r,
        "Switch verification failed; the live auth file does not match"@,
    )
    &&& r is Ok <==> expected is Some && live_fingerprint(written) == expected
    &&& r is Err ==> after == before
    &&& r is Ok ==> after == before.update(
        index as int,
        after[index as int],
    ) && is_touched(after[index as int], before[index as int], now)
}

/// Finishes a switch to profile `index` once its auth file has been written to the live
/// path and `written` has been read back: the two must have the same fingerprint; then
/// the profile is marked as used at time `now`.
pub fn confirm_switch(
    store: &mut ProfileStore,
    index: usize,
    written: Option<AuthJson>,
    now: Timestamp,
) -> (r: Result<(), String>)
    requires
        index < old(store).profiles@.len(),
    ensures
        switch_confirmed(old(store).profiles@, final(store).profiles@, index, written, now, r),
{
    let expected = fingerprint(&store.profiles[index].raw_auth_json)?;
    let written = match written {
        Some(w) => w,
        None => {
            return Err(String::from_str("The live auth file disappeared after switching"));
        },
    };
    let actual = fingerprint(&written)?;
    if !text_eq(actual.as_str(), expected.as_str()) {
        return Err(
            String::from_str("Switch verification failed; the live auth file does not match"),
        );
    }
    let ghost before = store.profiles@;
    let mut current = store.profiles.remove(index);
    current.last_used_at = Some(now);
    store.profiles.insert(index, current);
    proof {
        assert(store.profiles@ =~= before.update(index as int, store.profiles@[index as int]));
    }
    Ok(())
}

} // verus!
