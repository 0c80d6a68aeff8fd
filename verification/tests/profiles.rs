use hydra::auth::{fingerprint, normalized_auth, parse_auth, AuthJson};
use hydra::canonicalize::canonicalize;
use hydra::json::Json;
use hydra::order::{key_less, text_eq};
use hydra::paths::{config_dir, live_auth_path, should_migrate_legacy, store_path};
use hydra::render::write_compact;
use hydra::search::{access_token, auth_email, find_number, find_string_by_keys};
use hydra::store::{
    confirm_switch, current_auth, delete_profile, list_profiles, login_status, profile_name,
    rename_profile, switch_target, upsert_auth, Profile, ProfileStore, Timestamp,
};
use hydra::text::{decimal, is_blank_text, tasklist_lists_grok};
use hydra::usage::{usage_body, usage_figures, usage_reply, usage_token, UsageReply};
use sha2::{Digest, Sha256};

fn auth(raw: &str) -> AuthJson {
    parse_auth(raw.to_string())
}

fn parse_error_of(raw: &str) -> String {
    serde_json::from_str::<serde_json::Value>(raw).unwrap_err().to_string()
}

fn num(text: &str) -> Json {
    Json::Number(text.to_string())
}

fn obj(members: Vec<(&str, Json)>) -> Json {
    Json::Object(members.into_iter().map(|(k, v)| (k.to_string(), v)).collect())
}

fn at(seconds: i64) -> Timestamp {
    Timestamp { seconds, nanos: 0 }
}

fn empty_store() -> ProfileStore {
    ProfileStore { profiles: Vec::new() }
}

fn long_token() -> String {
    "abcdefghijklmnopqrstuvwxyzABCDEFGHIJKLMNOPQRSTUVWXYZ".to_string()
}

#[test]
fn normalizes_auth_key_order() {
    let left = r#"{"b":2,"a":{"y":1,"x":0}}"#;
    let right = r#"{"a":{"x":0,"y":1},"b":2}"#;
    assert_eq!(fingerprint(&auth(left)).unwrap(), fingerprint(&auth(right)).unwrap());
}

#[test]
fn extracts_nested_identity_and_token() {
    let raw = r#"{"provider":{"email":"person@example.com","key":"abcdefghijklmnopqrstuvwxyzABCDEFGHIJKLMNOPQRSTUVWXYZ"}}"#;
    assert_eq!(auth_email(&auth(raw)).as_deref(), Some("person@example.com"));
    assert!(access_token(&auth(raw)).is_some());
}

#[test]
fn reads_wrapped_billing_numbers() {
    let billing = obj(vec![(
        "config",
        obj(vec![
            ("monthlyLimit", obj(vec![("val", num("100"))])),
            ("used", obj(vec![("val", num("25"))])),
        ]),
    )]);
    let used = find_number(&billing, &["used"]).map(|t| t.parse::<f64>().unwrap());
    assert_eq!(used, Some(25.0));
    let limit = find_number(&billing, &["monthlyLimit", "limit"]).map(|t| t.parse::<f64>().unwrap());
    assert_eq!(limit, Some(100.0));
}

#[test]
fn normalized_text_sorts_keys_at_every_depth() {
    let text = normalized_auth(&auth(r#"{"b":2,"a":{"y":[3,{"d":1,"c":null}],"x":true}}"#)).unwrap();
    assert_eq!(text, r#"{"a":{"x":true,"y":[3,{"c":null,"d":1}]},"b":2}"#);
}

#[test]
fn canonicalize_sorts_in_byte_order() {
    let value = obj(vec![("é", num("1")), ("z", num("2")), ("Z", num("3")), ("", num("4"))]);
    let mut text = String::new();
    write_compact(&canonicalize(&value), &mut text);
    assert_eq!(text, r#"{"":4,"Z":3,"z":2,"é":1}"#);
}

#[test]
fn compact_text_escapes_strings_like_serde_json() {
    let value = obj(vec![("k\"", Json::Str("a\"b\\c\n\u{1}é".to_string()))]);
    let mut text = String::new();
    write_compact(&value, &mut text);
    let expected = serde_json::to_string(&serde_json::Value::Object(
        [("k\"".to_string(), serde_json::Value::String("a\"b\\c\n\u{1}é".to_string()))]
            .into_iter()
            .collect(),
    ))
    .unwrap();
    assert_eq!(text, expected);
    assert_eq!(text, "{\"k\\\"\":\"a\\\"b\\\\c\\n\\u0001é\"}");
}

#[test]
fn fingerprint_is_sha256_hex_of_normalized_text() {
    let expected = hex::encode(Sha256::digest(br#"{"a":1,"b":[true,false]}"#));
    let print = fingerprint(&auth(r#"{ "b": [true, false], "a": 1 }"#)).unwrap();
    assert_eq!(print, expected);
    assert_eq!(print.len(), 64);
    assert!(print.chars().all(|c| c.is_ascii_digit() || ('a'..='f').contains(&c)));
}

#[test]
fn invalid_auth_json_is_reported() {
    let bad = auth("{");
    let message = format!("Invalid auth JSON: {}", parse_error_of("{"));
    assert_eq!(fingerprint(&bad), Err(message.clone()));
    assert_eq!(normalized_auth(&bad), Err(message));
    assert_eq!(auth_email(&bad), None);
    assert!(auth(r#"{"a":"#).document().is_err());
    assert_eq!(bad.text(), "{");
}

#[test]
fn string_search_skips_blank_values_and_prefers_listed_keys() {
    let value = obj(vec![
        ("email", Json::Str(" \t".to_string())),
        ("inner", obj(vec![("preferred_username", Json::Str("deep".to_string()))])),
        ("preferred_username", Json::Str("top".to_string())),
    ]);
    assert_eq!(find_string_by_keys(&value, &["email", "preferred_username"]).as_deref(), Some("top"));
    let nested = Json::Array(vec![
        obj(vec![("email", num("1"))]),
        obj(vec![("email", Json::Str("second@example.com".to_string()))]),
    ]);
    assert_eq!(find_string_by_keys(&nested, &["email"]).as_deref(), Some("second@example.com"));
    assert_eq!(find_string_by_keys(&Json::Null, &["email"]), None);
}

#[test]
fn access_token_needs_more_than_forty_bytes() {
    let forty = "a".repeat(40);
    let raw = format!(r#"{{"token":"{}"}}"#, forty);
    assert_eq!(access_token(&auth(&raw)), None);
    let raw = format!(r#"{{"token":"{}b"}}"#, forty);
    assert_eq!(access_token(&auth(&raw)), Some(format!("{}b", forty)));
    let raw = format!(r#"{{"access_token":"short","key":"{}"}}"#, long_token());
    assert_eq!(access_token(&auth(&raw)), None);
}

#[test]
fn number_search_reads_plain_and_wrapped_numbers() {
    let body = obj(vec![
        ("data", Json::Array(vec![obj(vec![("spent", num("12.5"))])])),
        ("limit", obj(vec![("other", num("1"))])),
        ("quota", num("50")),
    ]);
    let (used, limit) = usage_figures(&body);
    assert_eq!(used.as_deref(), Some("12.5"));
    assert_eq!(limit.as_deref(), Some("50"));
    assert_eq!(find_number(&Json::Str("5".to_string()), &["used"]), None);
}

#[test]
fn text_helpers() {
    assert_eq!(profile_name("  Work \n"), Ok("Work".to_string()));
    assert!(is_blank_text(" \u{3000}\t"));
    assert!(!is_blank_text(" x "));
    assert_eq!(decimal(0), "0");
    assert_eq!(decimal(1234567), "1234567");
    assert!(key_less("Z", "a"));
    assert!(key_less("ab", "abc"));
    assert!(!key_less("b", "a"));
    assert!(key_less("z", "é"));
    assert!(text_eq("héllo", "héllo"));
    assert!(!text_eq("hello", "hellö"));
}

#[test]
fn importing_creates_then_refreshes_a_profile() {
    let mut store = empty_store();
    let first = r#"{"user":{"email":"a@example.com"},"token":"t1"}"#;
    let view = upsert_auth(&mut store, auth(first), None, at(10), "id-1".to_string()).unwrap();
    assert_eq!(view.name, "a@example.com");
    assert_eq!(view.id, "id-1");
    assert!(view.is_active);
    assert_eq!(store.profiles.len(), 1);
    assert_eq!(store.profiles[0].created_at, at(10));

    let second = r#"{"token":"t2","user":{"email":"a@example.com"}}"#;
    let view = upsert_auth(&mut store, auth(second), Some("  Work  ".to_string()), at(20), "id-2".to_string()).unwrap();
    assert_eq!(store.profiles.len(), 1);
    assert_eq!(view.id, "id-1");
    assert_eq!(view.name, "Work");
    assert_eq!(store.profiles[0].created_at, at(10));
    assert_eq!(store.profiles[0].last_used_at, Some(at(20)));
    assert_eq!(store.profiles[0].raw_auth_json.text(), second);

    let third = r#"{"token":"t3"}"#;
    let view = upsert_auth(&mut store, auth(third), Some("  Spare ".to_string()), at(30), "id-3".to_string()).unwrap();
    assert_eq!(view.name, "  Spare ");
    let view = upsert_auth(&mut store, auth(r#"{"token":"t4"}"#), Some(" ".to_string()), at(40), "id-4".to_string()).unwrap();
    assert_eq!(view.name, "Profile 3");
    assert_eq!(store.profiles.len(), 3);
}

#[test]
fn reimporting_the_same_auth_adds_nothing() {
    let mut store = empty_store();
    let raw = r#"{"b":1,"a":2}"#;
    let first = upsert_auth(&mut store, auth(raw), None, at(1), "id-1".to_string()).unwrap();
    assert_eq!(store.profiles[0].id, "id-1");
    assert_eq!(store.profiles[0].name, "Profile 1");
    let view = upsert_auth(&mut store, auth(r#"{"a":2,"b":1}"#), None, at(2), "id-2".to_string()).unwrap();
    assert_eq!(store.profiles.len(), 1);
    assert_eq!(view.id, first.id);
    assert_eq!(store.profiles[0].id, "id-1");
    let err = upsert_auth(&mut store, auth("x"), None, at(3), "id-3".to_string());
    assert_eq!(err.unwrap_err(), format!("Invalid auth JSON: {}", parse_error_of("x")));
    assert_eq!(store.profiles.len(), 1);
}

#[test]
fn listing_marks_the_live_profile_active() {
    let mut store = empty_store();
    upsert_auth(&mut store, auth(r#"{"email":"a@x.io"}"#), None, at(1), "a".to_string()).unwrap();
    upsert_auth(&mut store, auth(r#"{"email":"b@x.io"}"#), None, at(2), "b".to_string()).unwrap();
    let live = auth(r#"{ "email" : "b@x.io" }"#);
    let views = list_profiles(&store, Some(&live));
    assert_eq!(views.len(), 2);
    assert!(!views[0].is_active);
    assert!(views[1].is_active);
    let views = list_profiles(&store, None);
    assert!(views.iter().all(|v| !v.is_active));
    store.profiles.push(Profile {
        id: "c".to_string(),
        name: "broken".to_string(),
        email: None,
        raw_auth_json: auth("{"),
        created_at: at(3),
        last_used_at: None,
    });
    let views = list_profiles(&store, None);
    assert!(!views[2].is_active);
    let broken_live = auth("[");
    let views = list_profiles(&store, Some(&broken_live));
    assert!(views.iter().all(|v| !v.is_active));
}

#[test]
fn login_status_reports_the_live_file() {
    let status = login_status(None);
    assert!(!status.exists);
    assert_eq!(status.fingerprint, None);
    let live = auth(r#"{"email":"me@x.io"}"#);
    let status = login_status(Some(&live));
    assert!(status.exists);
    assert_eq!(status.email.as_deref(), Some("me@x.io"));
    assert_eq!(status.fingerprint, fingerprint(&live).ok());
    assert_eq!(current_auth(None).err().as_deref(), Some("Run grok login first; no auth.json was found"));
    assert!(current_auth(Some(live)).is_ok());
}

#[test]
fn renaming_trims_and_checks() {
    let mut store = empty_store();
    upsert_auth(&mut store, auth(r#"{"email":"a@x.io"}"#), None, at(1), "a".to_string()).unwrap();
    assert_eq!(profile_name("   "), Err("Name cannot be empty".to_string()));
    assert_eq!(rename_profile(&mut store, "a", " \t"), Err("Name cannot be empty".to_string()));
    assert_eq!(rename_profile(&mut store, "zz", "New"), Err("Profile not found".to_string()));
    assert_eq!(rename_profile(&mut store, "a", "  New name "), Ok(()));
    assert_eq!(store.profiles[0].name, "New name");
}

#[test]
fn deleting_removes_every_profile_with_the_id() {
    let mut store = empty_store();
    upsert_auth(&mut store, auth(r#"{"email":"a@x.io"}"#), None, at(1), "a".to_string()).unwrap();
    upsert_auth(&mut store, auth(r#"{"email":"b@x.io"}"#), None, at(2), "b".to_string()).unwrap();
    upsert_auth(&mut store, auth(r#"{"email":"c@x.io"}"#), None, at(3), "a".to_string()).unwrap();
    assert_eq!(delete_profile(&mut store, "x"), Err("Profile not found".to_string()));
    assert_eq!(store.profiles.len(), 3);
    assert_eq!(delete_profile(&mut store, "a"), Ok(()));
    assert_eq!(store.profiles.len(), 1);
    assert_eq!(store.profiles[0].id, "b");
}

#[test]
fn switching_checks_the_written_file() {
    let mut store = empty_store();
    let raw = r#"{"email":"a@x.io","key":"k"}"#;
    upsert_auth(&mut store, auth(raw), None, at(1), "a".to_string()).unwrap();
    assert_eq!(switch_target(&store, "nope"), Err("Profile not found".to_string()));
    let index = switch_target(&store, "a").unwrap();
    assert_eq!(index, 0);
    assert_eq!(
        confirm_switch(&mut store, index, None, at(5)),
        Err("The live auth file disappeared after switching".to_string())
    );
    assert_eq!(
        confirm_switch(&mut store, index, Some(auth(r#"{"email":"other"}"#)), at(5)),
        Err("Switch verification failed; the live auth file does not match".to_string())
    );
    assert_eq!(store.profiles[0].last_used_at, Some(at(1)));
    assert_eq!(confirm_switch(&mut store, index, Some(auth(raw)), at(5)), Ok(()));
    assert_eq!(store.profiles[0].last_used_at, Some(at(5)));
    assert_eq!(
        confirm_switch(&mut store, index, Some(auth("{")), at(6)),
        Err(format!("Invalid auth JSON: {}", parse_error_of("{")))
    );
    store.profiles[0].raw_auth_json = auth("{");
    assert_eq!(switch_target(&store, "a"), Err(format!("Invalid auth JSON: {}", parse_error_of("{"))));
}

#[test]
fn usage_steps() {
    let mut store = empty_store();
    let raw = format!(r#"{{"key":"{}"}}"#, long_token());
    upsert_auth(&mut store, auth(&raw), None, at(1), "a".to_string()).unwrap();
    upsert_auth(&mut store, auth(r#"{"key":"short"}"#), None, at(1), "b".to_string()).unwrap();
    assert_eq!(usage_token(&store, "a"), Ok(long_token()));
    assert_eq!(usage_token(&store, "b"), Err("Re-login required".to_string()));
    assert_eq!(usage_token(&store, "c"), Err("Profile not found".to_string()));
    assert_eq!(usage_reply(401), UsageReply::Unauthorized);
    assert_eq!(usage_reply(500), UsageReply::Failed);
    assert_eq!(usage_reply(302), UsageReply::Failed);
    assert_eq!(usage_reply(200), UsageReply::Body);
    assert_eq!(usage_reply(204), UsageReply::Body);
    let body = usage_body(r#"{"config":{"used":{"val":7}},"quota":10}"#).unwrap();
    let (used, limit) = usage_figures(&body);
    assert_eq!(used.as_deref(), Some("7"));
    assert_eq!(limit.as_deref(), Some("10"));
    assert_eq!(
        usage_body("<html>").unwrap_err(),
        "Usage response was invalid: error decoding response body"
    );
}

#[test]
fn paths_are_joined_under_home() {
    assert_eq!(store_path("/home/me/.hydra"), "/home/me/.hydra/profiles.json");
    assert_eq!(config_dir("/home/me/"), "/home/me/.hydra");
    assert_eq!(live_auth_path("/home/me"), "/home/me/.grok/auth.json");
    assert_eq!(config_dir(""), ".hydra");
    assert_eq!(config_dir("/"), "/.hydra");
    assert!(should_migrate_legacy(false, true));
    assert!(!should_migrate_legacy(true, true));
    assert!(!should_migrate_legacy(false, false));
}

#[test]
fn tasklist_output_is_searched_for_grok() {
    assert!(tasklist_lists_grok("grok.exe                     1234 Console"));
    assert!(tasklist_lists_grok("Image Name\r\n=====\r\nGROK.EXE x\r\ngrok.exe  1"));
    assert!(!tasklist_lists_grok("INFO: No tasks are running which match the specified criteria."));
    assert!(!tasklist_lists_grok("grok.ex"));
    assert!(!tasklist_lists_grok(""));
}
