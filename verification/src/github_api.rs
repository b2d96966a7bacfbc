//! Releases of a GitHub repository: the address that lists them, what a
//! listing or an error status gives, and the file and dates read from a
//! release.

use crate::asset_select::{asset_choice, choice_of, pick_asset, AssetChoice, AssetSelectionError};
use crate::jobs::opt_str;
use crate::json::{get_model, lemma_models_of, models_of, parse_json, spec_json_parse, text_field, text_of, JsonModel, JsonValue};
use crate::numbers::{decimal, decimal_text};
use crate::platform_resolve::linux_key;
use crate::text::{chars_of, extend_chars, lit, string_of};
use vstd::prelude::*;

verus! {

/// The release files of a GitHub release: its `assets` array (none when it
/// has no such array).
pub open spec fn github_assets(release: JsonModel) -> Seq<JsonModel> {
    match get_model(release, "assets"@) {
        Some(JsonModel::Array(a)) => a,
        _ => Seq::empty(),
    }
}

/// The file to download from a GitHub release, here.
pub fn pick_release_asset(release: &JsonValue, preferred: Option<&str>) -> (r: Result<JsonValue, AssetSelectionError>)
    ensures
        choice_of(r) == asset_choice(github_assets(release.model()), opt_str(preferred), linux_key()),
{
    match release.get("assets") {
        Some(JsonValue::Array(a)) => pick_asset(a.as_slice(), preferred),
        _ => {
            let empty: Vec<JsonValue> = Vec::new();
            proof {
                lemma_models_of(empty@);
                assert(models_of(empty@) =~= Seq::<JsonModel>::empty());
            }
            pick_asset(empty.as_slice(), preferred)
        },
    }
}

/// The date of a GitHub release to compare with the installation date: the
/// chosen file's `updated_at` when it has that member (a string, else none),
/// else the release's `published_at`.
pub open spec fn github_release_date(release: JsonModel, asset: JsonModel) -> Option<Seq<char>> {
    match get_model(asset, "updated_at"@) {
        Some(v) => text_of(v),
        None => text_field(release, "published_at"@),
    }
}

/// The tag (empty when absent) and date of the latest installable release,
/// from the release and the file chosen in it.
pub fn tag_and_date(release: &JsonValue, asset: &JsonValue) -> (r: (String, Option<String>))
    ensures
        r.0@ == match text_field(release.model(), "tag_name"@) {
            Some(t) => t,
            None => Seq::empty(),
        },
        crate::models::opt_text(r.1) == github_release_date(release.model(), asset.model()),
{
    let tag = match release.text_field("tag_name") {
        Some(t) => t.to_owned(),
        None => String::new(),
    };
    let date = match asset.get("updated_at") {
        Some(v) => match v.as_str() {
            Some(s) => Some(s.to_owned()),
            None => None,
        },
        None => match release.text_field("published_at") {
            Some(s) => Some(s.to_owned()),
            None => None,
        },
    };
    (tag, date)
}

/// The address that lists the latest `limit` releases of `repo`.
pub fn releases_url(repo: &str, limit: u64) -> (r: String)
    ensures
        r@ == "https://api.github.com/repos/"@ + repo@ + "/releases?per_page="@ + decimal(limit as nat),
{
    let mut m = lit("https://api.github.com/repos/");
    let rc = chars_of(repo);
    let mid = lit("/releases?per_page=");
    let n = decimal_text(limit);
    extend_chars(&mut m, rc.as_slice());
    extend_chars(&mut m, mid.as_slice());
    extend_chars(&mut m, n.as_slice());
    string_of(m.as_slice())
}

pub open spec fn rate_limit_message() -> Seq<char> {
    "GitHub API rate limit reached. Add a token in state.json."@
}

/// The message for an error status of the GitHub API: its rate limit (403,
/// 429), or the status itself.
pub fn status_message(code: u16) -> (r: String)
    ensures
        r@ == if code == 403 || code == 429 {
            rate_limit_message()
        } else {
            "GitHub error (HTTP "@ + decimal(code as nat) + seq![')']
        },
{
    if code == 403 || code == 429 {
        return "GitHub API rate limit reached. Add a token in state.json.".to_owned();
    }
    let mut m = lit("GitHub error (HTTP ");
    let n = decimal_text(code as u64);
    extend_chars(&mut m, n.as_slice());
    m.push(')');
    string_of(m.as_slice())
}

pub open spec fn no_release_message(repo: Seq<char>) -> Seq<char> {
    "No release found for "@ + repo + seq!['.']
}

/// The releases of a listing: the items of its body when it is an array
/// (none otherwise); an error when there are none.
pub fn releases_from_body(body: Option<JsonValue>, repo: &str) -> (r: Result<Vec<JsonValue>, AssetSelectionError>)
    ensures
        ({
            let items = match body {
                Some(JsonValue::Array(v)) => v@,
                _ => Seq::empty(),
            };
            match r {
                Ok(v) => items.len() > 0 && v@ == items,
                Err(AssetSelectionError::Message(m)) => items.len() == 0 && m@ == no_release_message(repo@),
                Err(AssetSelectionError::Ambiguous(..)) => false,
            }
        }),
{
    let items = match body {
        Some(JsonValue::Array(v)) => v,
        _ => Vec::new(),
    };
    if items.len() == 0 {
        let mut m = lit("No release found for ");
        let rc = chars_of(repo);
        extend_chars(&mut m, rc.as_slice());
        m.push('.');
        return Err(AssetSelectionError::Message(string_of(m.as_slice())));
    }
    Ok(items)
}

/// The releases of a listing's body text: the items when it is a JSON array
/// (none otherwise); an error when there are none.
pub fn releases_from_text(text: &str, repo: &str) -> (r: Result<Vec<JsonValue>, AssetSelectionError>)
    ensures
        ({
            let items = match spec_json_parse(text@) {
                Some(JsonModel::Array(v)) => v,
                _ => Seq::empty(),
            };
            match r {
                Ok(v) => items.len() > 0 && models_of(v@) == items,
                Err(AssetSelectionError::Message(m)) => items.len() == 0 && m@ == no_release_message(repo@),
                Err(AssetSelectionError::Ambiguous(..)) => false,
            }
        }),
{
    let body = match parse_json(text) {
        Ok(v) => Some(v),
        Err(_) => None,
    };
    releases_from_body(body, repo)
}

} // verus!
