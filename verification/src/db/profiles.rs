//! What a stored app profile may hold.
use vstd::prelude::*;
use crate::db;
use crate::db::AppProfileRow;
use crate::text;
use crate::text::Class;

verus! {

/// The output modes that a profile can name.
pub const POSTPROCESS_MODES: [&'static str; 4] = ["default", "markdown", "plain", "code"];

/// The identifier conventions that a profile can name.
pub const CODE_CASES: [&'static str; 3] = ["snake", "camel", "kebab"];

pub fn default_true() -> (r: bool)
    ensures
        r,
{
    true
}

pub fn default_code_case() -> (r: String)
    ensures
        r@ == "snake"@,
{
    "snake".to_owned()
}

/// The message of a profile with an output mode that is none.
pub open spec fn invalid_mode(mode: Seq<char>) -> Seq<char> {
    "invalid postprocess_mode '"@ + mode
        + "'; expected one of [\"default\", \"markdown\", \"plain\", \"code\"]"@
}

/// The message of a profile with an identifier convention that is none.
pub open spec fn invalid_case(case: Seq<char>) -> Seq<char> {
    "invalid code_case '"@ + case + "'; expected one of [\"snake\", \"camel\", \"kebab\"]"@
}

/// Whether a profile can be stored; if not, the first thing that is wrong.
pub open spec fn profile_error(p: AppProfileRow) -> Option<Seq<char>> {
    if !db::listed(POSTPROCESS_MODES@, p.postprocess_mode@) {
        Some(invalid_mode(p.postprocess_mode@))
    } else if !db::listed(CODE_CASES@, p.code_case@) {
        Some(invalid_case(p.code_case@))
    } else if text::trimmed(Class::WhiteSpace, p.bundle_id@).len() == 0 {
        Some("bundle_id is required"@)
    } else {
        None
    }
}

/// Whether a profile can be stored: its modes are known, and its app is named.
pub fn check_profile(p: &AppProfileRow) -> (r: Result<(), String>)
    ensures
        match r {
            Ok(()) => profile_error(*p) is None,
            Err(e) => profile_error(*p) == Some(e@),
        },
{
    let modes = POSTPROCESS_MODES;
    if !db::is_listed(modes.as_slice(), p.postprocess_mode.as_str()) {
        let head = text::concat("invalid postprocess_mode '", p.postprocess_mode.as_str());
        return Err(
            text::concat(
                head.as_str(),
                "'; expected one of [\"default\", \"markdown\", \"plain\", \"code\"]",
            ),
        );
    }
    let cases = CODE_CASES;
    if !db::is_listed(cases.as_slice(), p.code_case.as_str()) {
        let head = text::concat("invalid code_case '", p.code_case.as_str());
        return Err(
            text::concat(head.as_str(), "'; expected one of [\"snake\", \"camel\", \"kebab\"]"),
        );
    }
    let id = text::to_chars(p.bundle_id.as_str());
    let bare = text::trim(Class::WhiteSpace, id.as_slice());
    if bare.len() == 0 {
        return Err("bundle_id is required".to_owned());
    }
    Ok(())
}

} // verus!
