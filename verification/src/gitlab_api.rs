//! Releases of a GitLab project: the address that lists them, and the files
//! and dates read from a release.

use crate::asset_select::{asset_choice, choice_of, pick_asset, AssetSelectionError};
use crate::jobs::opt_str;
use crate::json::{get_model, lemma_models_of, models_of, text_field, text_of, JsonModel, JsonValue};
use crate::numbers::{decimal, decimal_text};
use crate::platform_resolve::linux_key;
use crate::text::{chars_of, extend_chars, lit, string_of};
use vstd::prelude::*;
use vstd::string::StringSliceAdditionalSpecFns;

verus! {

/// A byte that stays as it is in a URL component: an ASCII letter or digit,
/// `-`, `_`, `.` or `~`.
pub open spec fn is_unreserved(b: u8) -> bool {
    (65 <= b <= 90) || (97 <= b <= 122) || (48 <= b <= 57) || b == 45 || b == 95 || b == 46 || b == 126
}

/// An upper-case hexadecimal digit.
pub open spec fn hex_digit(n: nat) -> char {
    if n < 10 {
        ((n + 48) as u32) as char
    } else {
        ((n + 55) as u32) as char
    }
}

/// A byte as it appears in a URL component: itself when unreserved, else
/// `%` and its two upper-case hexadecimal digits.
pub open spec fn encode_byte(b: u8) -> Seq<char> {
    if is_unreserved(b) {
        seq![(b as u32) as char]
    } else {
        seq!['%', hex_digit((b / 16) as nat), hex_digit((b % 16) as nat)]
    }
}

/// The bytes of a text, percent-encoded one by one.
pub open spec fn url_encoded(bytes: Seq<u8>) -> Seq<char>
    decreases bytes.len(),
{
    if bytes.len() == 0 {
        Seq::empty()
    } else {
        url_encoded(bytes.drop_last()) + encode_byte(bytes.last())
    }
}

/// The character of a hexadecimal digit.
fn hex_char(n: u8) -> (r: char)
    requires
        n < 16,
    ensures
        r == hex_digit(n as nat),
{
    if n < 10 {
        ((n + 48) as u32 as u8) as char
    } else {
        ((n + 55) as u32 as u8) as char
    }
}

/// `s` percent-encoded, as a project path in GitLab's API (`group/project`
/// becomes `group%2Fproject`).
pub fn urlencode(s: &str) -> (r: String)
    ensures
        r@ == url_encoded(s.spec_bytes()),
{
    let b = s.as_bytes();
    let mut out: Vec<char> = Vec::new();
    let mut i: usize = 0;
    proof {
        assert(b@.take(0) =~= Seq::<u8>::empty());
    }
    while i < b.len()
        invariant
            i <= b@.len(),
            b@ == s.spec_bytes(),
            out@ == url_encoded(b@.take(i as int)),
        decreases b@.len() - i,
    {
        let x = b[i];
        let ghost before = out@;
        if (65 <= x && x <= 90) || (97 <= x && x <= 122) || (48 <= x && x <= 57) || x == 45 || x == 95 || x == 46
            || x == 126 {
            out.push(x as char);
        } else {
            out.push('%');
            out.push(hex_char(x / 16));
            out.push(hex_char(x % 16));
        }
        proof {
            assert(b@.take(i + 1).drop_last() =~= b@.take(i as int));
            assert(b@.take(i + 1).last() == x);
            assert(out@ =~= before + encode_byte(x));
        }
        i = i + 1;
    }
    proof {
        assert(b@.take(b@.len() as int) =~= b@);
    }
    string_of(out.as_slice())
}

/// The release file a link of a GitLab release stands for: its `name` and
/// `url`, when both are strings.
pub open spec fn link_asset(link: JsonModel) -> Option<JsonModel> {
    match (text_field(link, "name"@), text_field(link, "url"@)) {
        (Some(n), Some(u)) => Some(JsonModel::Object(seq![("name"@, JsonModel::Text(n)), ("url"@, JsonModel::Text(u))])),
        _ => None,
    }
}

/// The release files of some links, in order.
pub open spec fn link_assets(links: Seq<JsonModel>) -> Seq<JsonModel>
    decreases links.len(),
{
    if links.len() == 0 {
        Seq::empty()
    } else {
        let prev = link_assets(links.drop_last());
        match link_asset(links.last()) {
            Some(a) => prev.push(a),
            None => prev,
        }
    }
}

/// The release files of a GitLab release: its `assets.links` array, each
/// link reduced to its name and url (none when there is no such array).
pub open spec fn gitlab_assets(release: JsonModel) -> Seq<JsonModel> {
    match get_model(release, "assets"@) {
        Some(a) => match get_model(a, "links"@) {
            Some(JsonModel::Array(l)) => link_assets(l),
            _ => Seq::empty(),
        },
        None => Seq::empty(),
    }
}

/// The release files of a link of a release.
fn link_to_asset(link: &JsonValue) -> (r: Option<JsonValue>)
    ensures
        match r {
            Some(a) => link_asset(link.model()) == Some(a.model()),
            None => link_asset(link.model()) is None,
        },
{
    let name = link.text_field("name")?;
    let url = link.text_field("url")?;
    let members: Vec<(String, JsonValue)> = vec![
        ("name".to_owned(), JsonValue::String(name.to_owned())),
        ("url".to_owned(), JsonValue::String(url.to_owned())),
    ];
    proof {
        crate::json::lemma_members_of(members@);
        assert(crate::json::members_of(members@) =~= seq![
            ("name"@, JsonModel::Text(name@)),
            ("url"@, JsonModel::Text(url@)),
        ]);
    }
    Some(JsonValue::Object(members))
}

/// The release files of a GitLab release (see `gitlab_assets`).
pub fn release_assets(release: &JsonValue) -> (r: Vec<JsonValue>)
    ensures
        models_of(r@) == gitlab_assets(release.model()),
{
    let mut out: Vec<JsonValue> = Vec::new();
    proof {
        lemma_models_of(out@);
        assert(models_of(out@) =~= Seq::<JsonModel>::empty());
    }
    let assets = match release.get("assets") {
        Some(a) => a,
        None => return out,
    };
    let links = match assets.get("links") {
        Some(JsonValue::Array(l)) => l,
        _ => return out,
    };
    let ghost lm = models_of(links@);
    proof {
        lemma_models_of(links@);
        assert(lm.take(0) =~= Seq::<JsonModel>::empty());
    }
    let mut i: usize = 0;
    while i < links.len()
        invariant
            i <= links@.len(),
            lm == models_of(links@),
            lm.len() == links@.len(),
            forall|k: int| 0 <= k < links@.len() ==> #[trigger] lm[k] == links@[k].model(),
            models_of(out@) == link_assets(lm.take(i as int)),
        decreases links@.len() - i,
    {
        proof {
            assert(lm.take(i + 1).drop_last() =~= lm.take(i as int));
            assert(lm.take(i + 1).last() == links@[i as int].model());
        }
        let ghost before = out@;
        match link_to_asset(&links[i]) {
            Some(a) => {
                out.push(a);
                proof {
                    lemma_models_of(before);
                    lemma_models_of(out@);
                    assert(models_of(out@) =~= models_of(before).push(out@[before.len() as int].model()));
                }
            },
            None => {},
        }
        i = i + 1;
    }
    proof {
        assert(lm.take(links@.len() as int) =~= lm);
    }
    out
}

/// The file to download from a GitLab release, here.
pub fn pick_release_asset(release: &JsonValue, preferred: Option<&str>) -> (r: Result<JsonValue, AssetSelectionError>)
    ensures
        choice_of(r) == asset_choice(gitlab_assets(release.model()), opt_str(preferred), linux_key()),
{
    let assets = release_assets(release);
    pick_asset(assets.as_slice(), preferred)
}

/// The date of a GitLab release: its `released_at` when it has that member
/// (a string, else none), else its `created_at`.
pub open spec fn gitlab_release_date(release: JsonModel) -> Option<Seq<char>> {
    match get_model(release, "released_at"@) {
        Some(v) => text_of(v),
        None => text_field(release, "created_at"@),
    }
}

/// The tag (empty when absent) and date of a GitLab release.
pub fn tag_and_date(release: &JsonValue) -> (r: (String, Option<String>))
    ensures
        r.0@ == match text_field(release.model(), "tag_name"@) {
            Some(t) => t,
            None => Seq::empty(),
        },
        crate::models::opt_text(r.1) == gitlab_release_date(release.model()),
{
    let tag = match release.text_field("tag_name") {
        Some(t) => t.to_owned(),
        None => String::new(),
    };
    let date = match release.get("released_at") {
        Some(v) => match v.as_str() {
            Some(s) => Some(s.to_owned()),
            None => None,
        },
        None => match release.text_field("created_at") {
            Some(s) => Some(s.to_owned()),
            None => None,
        },
    };
    (tag, date)
}

/// The address that lists the latest `limit` releases of a project.
pub fn releases_url(project_path: &str, limit: u64) -> (r: String)
    ensures
        r@ == "https://gitlab.com/api/v4/projects/"@ + url_encoded(project_path.spec_bytes()) + "/releases?per_page="@
            + decimal(limit as nat),
{
    let mut m = lit("https://gitlab.com/api/v4/projects/");
    let enc = urlencode(project_path);
    let ec = chars_of(enc.as_str());
    let mid = lit("/releases?per_page=");
    let n = decimal_text(limit);
    extend_chars(&mut m, ec.as_slice());
    extend_chars(&mut m, mid.as_slice());
    extend_chars(&mut m, n.as_slice());
    string_of(m.as_slice())
}

pub open spec fn not_found_message(project_path: Seq<char>) -> Seq<char> {
    "No project or release found for "@ + project_path + seq!['.']
}

/// The message for a project that GitLab does not know (status 404).
pub fn not_found(project_path: &str) -> (r: String)
    ensures
        r@ == not_found_message(project_path@),
{
    let mut m = lit("No project or release found for ");
    let p = chars_of(project_path);
    extend_chars(&mut m, p.as_slice());
    m.push('.');
    string_of(m.as_slice())
}

} // verus!
