//! Where Hydra keeps its files and where the Grok CLI keeps its auth file.
use std::path::Path;
use vstd::prelude::*;

verus! {

/// A single relative path component: not empty, with no separator and no drive colon.
pub open spec fn is_path_part(s: Seq<char>) -> bool {
    &&& s.len() > 0
    &&& forall|i: int| 0 <= i < s.len() ==> (#[trigger] s[i]) != '/' && s[i] != '\\' && s[i] != ':'
}

/// A Windows verbatim path, one that starts with `\\?\`.
pub open spec fn is_verbatim(s: Seq<char>) -> bool {
    &&& s.len() >= 4
    &&& s[0] == '\\'
    &&& s[1] == '\\'
    &&& s[2] == '?'
    &&& s[3] == '\\'
}

/// A bare drive, such as `C:`.
pub open spec fn is_bare_drive(s: Seq<char>) -> bool {
    &&& s.len() == 2
    &&& s[1] == ':'
    &&& (('a' <= s[0] <= 'z') || ('A' <= s[0] <= 'Z'))
}

/// `r` is `base` with the component `part` appended: directly when `base` is empty or
/// ends in `/`; with the platform's separator (`/` or `\`) when `base` ends in anything
/// else; and either way when `base` ends in `\` or is a bare drive, where Unix adds a
/// separator and Windows does not.
pub open spec fn is_joined(r: Seq<char>, base: Seq<char>, part: Seq<char>) -> bool {
    if base.len() == 0 {
        r == part
    } else if base.last() == '/' {
        r == base + part
    } else if base.last() == '\\' || is_bare_drive(base) {
        r == base + part || r == base + seq!['/'] + part
    } else {
        r == base + seq!['/'] + part || r == base + seq!['\\'] + part
    }
}

/// `r` is `base` joined with `part`, for a `base` that is not a verbatim path; nothing is
/// said of a verbatim one, which `Path::join` rebuilds.
pub open spec fn joins(r: Seq<char>, base: Seq<char>, part: Seq<char>) -> bool {
    !is_verbatim(base) ==> is_joined(r, base, part)
}

/// Calls `std::path::Path::join` on a path and one relative component.
///
/// Trusted: `PathBuf::push` appends a relative component, adding the platform's
/// separator when `base` is not empty, does not already end in one and (on Windows) is not
/// a bare drive; for a Windows verbatim base it rebuilds the path instead, and nothing is
/// stated then. Both arguments are UTF-8, so the joined path converts back to text unchanged.
#[verifier::external_body]
fn join(base: &str, part: &str) -> (r: String)
    requires
        is_path_part(part@),
    ensures
        joins(r@, base@, part@),
{
    Path::new(base).join(part).to_string_lossy().into_owned()
}

/// Hydra's directory, `.hydra` in the home directory.
pub fn config_dir(home: &str) -> (r: String)
    ensures
        joins(r@, home@, ".hydra"@),
{
    proof {
        reveal_strlit(".hydra");
    }
    join(home, ".hydra")
}

/// The directory that earlier builds used, `.grok-hydra` in the home directory.
pub fn legacy_config_dir(home: &str) -> (r: String)
    ensures
        joins(r@, home@, ".grok-hydra"@),
{
    proof {
        reveal_strlit(".grok-hydra");
    }
    join(home, ".grok-hydra")
}

/// The legacy directory is moved into place only when Hydra's directory does not exist
/// yet and the legacy one does.
pub fn should_migrate_legacy(dir_exists: bool, legacy_exists: bool) -> (r: bool)
    ensures
        r == (!dir_exists && legacy_exists),
{
    !dir_exists && legacy_exists
}

/// The profile store, `profiles.json` in Hydra's directory.
pub fn store_path(config_dir: &str) -> (r: String)
    ensures
        joins(r@, config_dir@, "profiles.json"@),
{
    proof {
        reveal_strlit("profiles.json");
    }
    join(config_dir, "profiles.json")
}

/// The Grok CLI's live auth file, `.grok/auth.json` in the home directory.
pub fn live_auth_path(home: &str) -> (r: String)
    ensures
        exists|grok: Seq<char>|
            #[trigger] joins(grok, home@, ".grok"@) && joins(r@, grok, "auth.json"@),
{
    proof {
        reveal_strlit(".grok");
        reveal_strlit("auth.json");
    }
    let grok = join(home, ".grok");
    join(grok.as_str(), "auth.json")
}

} // verus!
