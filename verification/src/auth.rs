//! An auth file's JSON: its normalized text and its fingerprint.
use serde_json::Value;
use sha2::{Digest, Sha256};
use vstd::prelude::*;
use vstd::utf8::encode_utf8;
use crate::canonical::canonical_form;
use crate::canonicalize::canonicalize;
use crate::json::{Json, JsonV};
use crate::render::{compact_text, write_compact};

verus! {

/// What `serde_json` makes of the text `raw`: the document, or the parser's error message.
pub uninterp spec fn parsed_json(raw: Seq<char>) -> Result<JsonV, Seq<char>>;

#[verifier::external_type_specification]
#[verifier::external_body]
pub struct ExValue(Value);

/// Turns a `serde_json` value into a [`Json`], variant for variant; a number becomes
/// the text that `serde_json` prints for it.
#[verifier::external_body]
fn json_value(value: Value) -> Json {
    match value {
        Value::Null => Json::Null,
        Value::Bool(b) => Json::Bool(b),
        Value::Number(n) => Json::Number(n.to_string()),
        Value::String(s) => Json::Str(s),
        Value::Array(items) => Json::Array(items.into_iter().map(json_value).collect()),
        Value::Object(map) => Json::Object(map.into_iter().map(|(k, v)| (k, json_value(v))).collect()),
    }
}

/// Calls `serde_json::from_str::<Value>` and converts what it gives back.
///
/// Trusted: the result is what `serde_json` makes of `raw`, named by `parsed_json`; on
/// failure, the error's `Display` text. The parser's map keeps one entry per key, so every
/// object in the document holds each key once.
#[verifier::external_body]
pub(crate) fn parse_json(raw: &str) -> (r: Result<Json, String>)
    ensures
        match r {
            Ok(v) => parsed_json(raw@) == Ok::<JsonV, Seq<char>>(v@) && v@.wf(),
            Err(e) => parsed_json(raw@) == Err::<JsonV, Seq<char>>(e@),
        },
{
    serde_json::from_str::<Value>(raw).map(json_value).map_err(|error| error.to_string())
}

/// The text of an auth file together with what `serde_json` made of it. Its view is the text.
#[derive(Debug)]
pub struct AuthJson {
    raw: String,
    parsed: Result<Json, String>,
}

impl AuthJson {
    /// The parsed document is what `serde_json` makes of the text.
    #[verifier::type_invariant]
    spec fn parsed_from_raw(self) -> bool {
        match self.parsed {
            Ok(v) => parsed_json(self.raw@) == Ok::<JsonV, Seq<char>>(v@) && v@.wf(),
            Err(e) => parsed_json(self.raw@) == Err::<JsonV, Seq<char>>(e@),
        }
    }

    /// The auth file's text.
    pub fn text(&self) -> (r: &str)
        ensures
            r@ == self@,
    {
        self.raw.as_str()
    }

    /// What `serde_json` made of the text.
    pub fn document(&self) -> (r: &Result<Json, String>)
        ensures
            match *r {
                Ok(v) => parsed_json(self@) == Ok::<JsonV, Seq<char>>(v@) && v@.wf(),
                Err(e) => parsed_json(self@) == Err::<JsonV, Seq<char>>(e@),
            },
    {
        proof {
            use_type_invariant(self);
        }
        &self.parsed
    }
}

impl View for AuthJson {
    type V = Seq<char>;

    closed spec fn view(&self) -> Seq<char> {
        self.raw@
    }
}

/// Reads the text of an auth file as JSON.
pub fn parse_auth(raw: String) -> (r: AuthJson)
    ensures
        r@ == raw@,
{
    let parsed = parse_json(raw.as_str());
    AuthJson { raw, parsed }
}

/// The SHA-256 digest of `data`.
pub uninterp spec fn sha256(data: Seq<u8>) -> Seq<u8>;

/// Calls `sha2::Sha256::digest`.
///
/// Trusted: the result is the SHA-256 digest of `data`, named by `sha256`, and is
/// 32 bytes long (`Sha256`'s output size).
#[verifier::external_body]
fn sha256_digest(data: &[u8]) -> (r: Vec<u8>)
    ensures
        r@ == sha256(data@),
        r@.len() == 32,
{
    Sha256::digest(data).to_vec()
}

/// The lower-case hexadecimal digit for `n < 16`.
pub open spec fn hex_digit(n: u8) -> char {
    if n < 10 {
        (('0' as u32) + n) as char
    } else {
        (('a' as u32) + n - 10) as char
    }
}

/// Two lower-case hexadecimal digits per byte, high half first.
pub open spec fn hex_lower(bytes: Seq<u8>) -> Seq<char>
    decreases bytes.len(),
{
    if bytes.len() == 0 {
        Seq::empty()
    } else {
        seq![hex_digit(bytes[0] / 16), hex_digit(bytes[0] % 16)] + hex_lower(bytes.drop_first())
    }
}

/// Sixty-four lower-case hexadecimal digits: the text of a SHA-256 digest.
pub open spec fn is_hex_digest(f: Seq<char>) -> bool {
    &&& f.len() == 64
    &&& forall|i: int| 0 <= i < f.len() ==> ('0' <= #[trigger] f[i] <= '9') || ('a' <= f[i] <= 'f')
}

proof fn lemma_hex_lower(bytes: Seq<u8>)
    ensures
        hex_lower(bytes).len() == 2 * bytes.len(),
        forall|i: int|
            0 <= i < hex_lower(bytes).len() ==> ('0' <= #[trigger] hex_lower(bytes)[i] <= '9') || (
            'a' <= hex_lower(bytes)[i] <= 'f'),
    decreases bytes.len(),
{
    if bytes.len() > 0 {
        lemma_hex_lower(bytes.drop_first());
        let hi = bytes[0] / 16;
        let lo = bytes[0] % 16;
        assert(('0' <= hex_digit(hi) <= '9') || ('a' <= hex_digit(hi) <= 'f'));
        assert(('0' <= hex_digit(lo) <= '9') || ('a' <= hex_digit(lo) <= 'f'));
        let rest = hex_lower(bytes.drop_first());
        assert forall|i: int|
            0 <= i < hex_lower(bytes).len() implies ('0' <= #[trigger] hex_lower(bytes)[i] <= '9')
            || ('a' <= hex_lower(bytes)[i] <= 'f') by {
            if i >= 2 {
                assert(hex_lower(bytes)[i] == rest[i - 2]);
            }
        }
    }
}

/// Calls `hex::encode`.
///
/// Trusted: `hex::encode` writes each byte as two lower-case hexadecimal digits, high
/// half first (`HEX_CHARS_LOWER` in the crate's source); `hex_lower` states exactly that.
#[verifier::external_body]
fn hex_encode(bytes: &[u8]) -> (r: String)
    ensures
        r@ == hex_lower(bytes@),
{
    hex::encode(bytes)
}

/// The normalized text of a document: the compact text of its canonical form.
pub open spec fn normalized_text(v: JsonV) -> Seq<char> {
    compact_text(canonical_form(v))
}

/// The fingerprint of a document: the hexadecimal SHA-256 digest of its normalized text.
pub open spec fn fingerprint_of(v: JsonV) -> Seq<char> {
    hex_lower(sha256(encode_utf8(normalized_text(v))))
}

/// The fingerprint of an auth file, when its text is JSON.
pub open spec fn auth_fingerprint(auth: AuthJson) -> Option<Seq<char>> {
    match parsed_json(auth@) {
        Ok(v) => Some(fingerprint_of(v)),
        Err(_) => None,
    }
}

/// The message for an auth file whose text is not JSON.
pub open spec fn invalid_json_message(error: Seq<char>) -> Seq<char> {
    "Invalid auth JSON: "@ + error
}

fn invalid_json(error: &String) -> (r: String)
    ensures
        r@ == invalid_json_message(error@),
{
    let mut m = String::from_str("Invalid auth JSON: ");
    m.append(error.as_str());
    m
}

/// The auth file's JSON in canonical form, written compactly.
pub fn normalized_auth(auth: &AuthJson) -> (r: Result<String, String>)
    ensures
        match parsed_json(auth@) {
            Ok(v) => r matches Ok(text) && text@ == normalized_text(v),
            Err(e) => r matches Err(m) && m@ == invalid_json_message(e),
        },
{
    match auth.document() {
        Ok(value) => {
            let canonical = canonicalize(value);
            let mut text = String::new();
            write_compact(&canonical, &mut text);
            Ok(text)
        },
        Err(error) => Err(invalid_json(error)),
    }
}

/// The fingerprint of the auth file: the hexadecimal SHA-256 digest of its normalized JSON.
pub fn fingerprint(auth: &AuthJson) -> (r: Result<String, String>)
    ensures
        match parsed_json(auth@) {
            Ok(v) => r matches Ok(f) && f@ == fingerprint_of(v),
            Err(e) => r matches Err(m) && m@ == invalid_json_message(e),
        },
        r matches Ok(f) ==> is_hex_digest(f@),
        r is Ok <==> auth_fingerprint(*auth) is Some,
        r matches Ok(f) ==> auth_fingerprint(*auth) == Some(f@),
{
    let normalized = normalized_auth(auth)?;
    let digest = sha256_digest(normalized.as_str().as_bytes());
    let text = hex_encode(digest.as_slice());
    proof {
        lemma_hex_lower(digest@);
    }
    Ok(text)
}

} // verus!
