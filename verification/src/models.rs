//! The catalogue (`ports.json`) data model: tolerant field-by-field reading of
//! an entry (a mistyped optional field falls back to its default, a missing
//! or mistyped required field rejects the entry), and where a port comes from.

use crate::json::{get_model, lemma_models_of, models_of, text_field, text_of, JsonModel, JsonValue};
use crate::text::{
    find, find_space, find_stop, lit, slice_vec, space_index, stop_index, string_of, strip_suffix_keep,
    strip_suffix_or_keep, to_lowercase, trim_end_matching, trim_end_set, chars_of, find_seq,
    spec_to_lowercase,
};
use vstd::prelude::*;

verus! {

/// `github.com/`
pub open spec fn github_marker() -> Seq<char> {
    seq!['g', 'i', 't', 'h', 'u', 'b', '.', 'c', 'o', 'm', '/']
}

/// `gitlab.com/`
pub open spec fn gitlab_marker() -> Seq<char> {
    seq!['g', 'i', 't', 'l', 'a', 'b', '.', 'c', 'o', 'm', '/']
}

/// `.git`
pub open spec fn git_suffix() -> Seq<char> {
    seq!['.', 'g', 'i', 't']
}

/// `/-/`, which starts the non-project part of a GitLab web route.
pub open spec fn gitlab_route_marker() -> Seq<char> {
    seq!['/', '-', '/']
}

/// The text after the first occurrence of `marker` in the lowercase form of
/// `s`, cut from `s` itself at the same character position.
pub open spec fn after_marker(s: Seq<char>, marker: Seq<char>) -> Option<Seq<char>> {
    match find_seq(spec_to_lowercase(s), marker) {
        Some(i) => if i + marker.len() <= s.len() {
            Some(s.skip(i + marker.len()))
        } else {
            None
        },
        None => None,
    }
}

/// `(owner, repo)`: the first two path segments after `github.com/`
/// (anywhere in the link, in any case), when both are non-empty.
pub open spec fn github_source(s: Seq<char>) -> Option<(Seq<char>, Seq<char>)> {
    match after_marker(s, github_marker()) {
        Some(rest) => {
            let a = stop_index(rest, seq!['/']);
            if a == rest.len() {
                None
            } else {
                let owner = rest.take(a);
                let tail = rest.skip(a + 1);
                let repo = tail.take(stop_index(tail, seq!['/']));
                if owner.len() == 0 || repo.len() == 0 {
                    None
                } else {
                    Some((owner, repo))
                }
            }
        },
        None => None,
    }
}

/// Everything after `gitlab.com/` (anywhere in the link, in any case), less
/// one final `/`, when that is not empty.
pub open spec fn gitlab_source(s: Seq<char>) -> Option<Seq<char>> {
    match after_marker(s, gitlab_marker()) {
        Some(rest) => {
            let path = strip_suffix_or_keep(rest, seq!['/']);
            if path.len() == 0 {
                None
            } else {
                Some(path)
            }
        },
        None => None,
    }
}

/// `s` up to the first occurrence of `marker` (all of `s` when it has none).
pub open spec fn before_marker(s: Seq<char>, marker: Seq<char>) -> Seq<char> {
    match find_seq(s, marker) {
        Some(i) => s.take(i),
        None => s,
    }
}

/// `stop_index` is the first position holding a stop (the length when none
/// does).
proof fn lemma_stop_index_is_first(s: Seq<char>, stops: Seq<char>, k: int)
    requires
        0 <= k <= s.len(),
        forall|j: int| 0 <= j < k ==> !stops.contains(#[trigger] s[j]),
        k == s.len() || stops.contains(s[k]),
    ensures
        stop_index(s, stops) == k,
    decreases s.len(),
{
    if s.len() > 0 && k > 0 {
        let d = s.drop_first();
        assert(!stops.contains(s[0]));
        assert forall|j: int| 0 <= j < k - 1 implies !stops.contains(#[trigger] d[j]) by {
            assert(d[j] == s[j + 1]);
        }
        if k < s.len() {
            assert(d[k - 1] == s[k]);
        }
        lemma_stop_index_is_first(d, stops, k - 1);
    }
}

/// No `/` in `t`.
pub open spec fn no_slash(t: Seq<char>) -> bool {
    forall|j: int| 0 <= j < t.len() ==> t[j] != '/'
}

/// A GitHub link names its repository by the first two path segments after
/// `github.com/`: `(owner, repo)` is read from a link exactly when the text
/// after the marker is `owner`, `/`, `repo`, then its end or another `/`,
/// with `owner` and `repo` non-empty and free of `/`.
pub proof fn lemma_github_repo_is_two_segments(s: Seq<char>, owner: Seq<char>, repo: Seq<char>)
    ensures
        github_source(s) == Some((owner, repo)) <==> (after_marker(s, github_marker()) matches Some(rest) && {
            let n: int = (owner.len() + 1 + repo.len()) as int;
            &&& owner.len() > 0
            &&& repo.len() > 0
            &&& no_slash(owner)
            &&& no_slash(repo)
            &&& n <= rest.len()
            &&& rest.take(n) == owner + seq!['/'] + repo
            &&& (n == rest.len() || rest[n] == '/')
        }),
{
    let sl = seq!['/'];
    assert forall|c: char| sl.contains(c) <==> c == '/' by {
        if c == '/' {
            assert(sl[0] == c);
        }
    }
    match after_marker(s, github_marker()) {
        Some(rest) => {
            let a = stop_index(rest, sl);
            crate::text::lemma_stop_index_bounds(rest, sl);
            if a < rest.len() {
                let o = rest.take(a);
                let tail = rest.skip(a + 1);
                let b = stop_index(tail, sl);
                crate::text::lemma_stop_index_bounds(tail, sl);
                let r = tail.take(b);
                if github_source(s) == Some((owner, repo)) {
                    assert(o == owner && r == repo);
                    assert(rest.take((owner.len() + 1 + repo.len()) as int) =~= owner + seq!['/'] + repo);
                    if b < tail.len() {
                        assert(rest[a + 1 + b] == tail[b]);
                    }
                }
            }
            let n: int = (owner.len() + 1 + repo.len()) as int;
            if owner.len() > 0 && repo.len() > 0 && no_slash(owner) && no_slash(repo) && n <= rest.len() && rest.take(
                n,
            ) == owner + seq!['/'] + repo && (n == rest.len() || rest[n] == '/') {
                let k = owner.len() as int;
                assert forall|j: int| 0 <= j < k implies !sl.contains(#[trigger] rest[j]) by {
                    assert(rest[j] == rest.take(n)[j]);
                    assert(rest.take(n)[j] == owner[j]);
                }
                assert(rest[k] == rest.take(n)[k]);
                lemma_stop_index_is_first(rest, sl, k);
                let tail = rest.skip(k + 1);
                let m = repo.len() as int;
                assert forall|j: int| 0 <= j < m implies !sl.contains(#[trigger] tail[j]) by {
                    assert(tail[j] == rest.take(n)[k + 1 + j]);
                    assert(rest.take(n)[k + 1 + j] == repo[j]);
                }
                if m < tail.len() {
                    assert(tail[m] == rest[n]);
                }
                lemma_stop_index_is_first(tail, sl, m);
                assert(rest.take(k) =~= owner) by {
                    assert forall|j: int| 0 <= j < k implies rest.take(k)[j] == owner[j] by {
                        assert(rest.take(n)[j] == owner[j]);
                    }
                }
                assert(tail.take(m) =~= repo) by {
                    assert forall|j: int| 0 <= j < m implies tail.take(m)[j] == repo[j] by {
                        assert(rest.take(n)[k + 1 + j] == repo[j]);
                    }
                }
            }
        },
        None => {},
    }
}

/// Where a port is downloaded from.
#[derive(Debug, Clone, Copy, PartialEq, Eq, Structural)]
pub enum SourceType {
    Github,
    Gitlab,
    DirectUrl,
    /// No source at all: an entry of the user's own catalogue, whose files the
    /// user placed by hand.
    Local,
}

/// Kind and repository of a `source` field: a GitHub link gives
/// `owner/repo` (without `.git`), a GitLab link gives the project path (cut
/// before `/-/`, without `.git`); any other link, or a per-platform object, is
/// a direct download.
pub open spec fn source_kind(source: JsonModel) -> (SourceType, Option<Seq<char>>) {
    match text_of(source) {
        None => (SourceType::DirectUrl, None),
        Some(s) => match github_source(s) {
            Some((owner, repo)) => (
                SourceType::Github,
                Some(owner + seq!['/'] + strip_suffix_or_keep(repo, git_suffix())),
            ),
            None => match gitlab_source(s) {
                Some(path) => (
                    SourceType::Gitlab,
                    Some(strip_suffix_or_keep(before_marker(path, gitlab_route_marker()), git_suffix())),
                ),
                None => (SourceType::DirectUrl, None),
            },
        },
    }
}

/// The text after the first occurrence of `marker` in the lowercase `lower`
/// of `s`.
fn text_after_marker(s: &[char], lower: &[char], marker: &[char]) -> (r: Option<Vec<char>>)
    requires
        lower@ == spec_to_lowercase(s@),
    ensures
        match r {
            Some(v) => after_marker(s@, marker@) == Some(v@),
            None => after_marker(s@, marker@) is None,
        },
{
    match find(lower, marker) {
        Some(i) => {
            if i <= s.len() && marker.len() <= s.len() - i {
                Some(slice_vec(s, i + marker.len(), s.len()))
            } else {
                None
            }
        },
        None => None,
    }
}

/// `(owner, repo)` of a GitHub link.
pub fn parse_github_source(s: &str) -> (r: Option<(String, String)>)
    ensures
        match r {
            Some((owner, repo)) => github_source(s@) == Some((owner@, repo@)),
            None => github_source(s@) is None,
        },
{
    let chars = chars_of(s);
    let lower = chars_of(to_lowercase(s).as_str());
    let marker = lit("github.com/");
    proof {
        reveal_strlit("github.com/");
        assert(marker@ =~= github_marker());
    }
    let rest = match text_after_marker(chars.as_slice(), lower.as_slice(), marker.as_slice()) {
        Some(rest) => rest,
        None => return None,
    };
    let slash = vec!['/'];
    proof {
        assert(slash@ =~= seq!['/']);
    }
    let a = find_stop(rest.as_slice(), slash.as_slice());
    proof {
        crate::text::lemma_stop_index_bounds(rest@, slash@);
    }
    if a == rest.len() {
        return None;
    }
    let owner = slice_vec(rest.as_slice(), 0, a);
    let tail = slice_vec(rest.as_slice(), a + 1, rest.len());
    let b = find_stop(tail.as_slice(), slash.as_slice());
    proof {
        crate::text::lemma_stop_index_bounds(tail@, slash@);
    }
    let repo = slice_vec(tail.as_slice(), 0, b);
    if owner.len() == 0 || repo.len() == 0 {
        return None;
    }
    Some((string_of(owner.as_slice()), string_of(repo.as_slice())))
}

/// Project path of a GitLab link.
pub fn parse_gitlab_source(s: &str) -> (r: Option<String>)
    ensures
        match r {
            Some(path) => gitlab_source(s@) == Some(path@),
            None => gitlab_source(s@) is None,
        },
{
    let chars = chars_of(s);
    let lower = chars_of(to_lowercase(s).as_str());
    let marker = lit("gitlab.com/");
    proof {
        reveal_strlit("gitlab.com/");
        assert(marker@ =~= gitlab_marker());
    }
    let rest = match text_after_marker(chars.as_slice(), lower.as_slice(), marker.as_slice()) {
        Some(rest) => rest,
        None => return None,
    };
    let slash = vec!['/'];
    proof {
        assert(slash@ =~= seq!['/']);
    }
    let path = strip_suffix_keep(rest.as_slice(), slash.as_slice());
    if path.len() == 0 {
        None
    } else {
        Some(string_of(path.as_slice()))
    }
}

/// Kind and repository of a `source` field.
pub fn parse_source(source: &JsonValue) -> (r: (SourceType, Option<String>))
    ensures
        r.0 == source_kind(source.model()).0,
        match r.1 {
            Some(repo) => source_kind(source.model()).1 == Some(repo@),
            None => source_kind(source.model()).1 is None,
        },
{
    let s = match source.as_str() {
        Some(s) => s,
        None => return (SourceType::DirectUrl, None),
    };
    let git = lit(".git");
    proof {
        reveal_strlit(".git");
        assert(git@ =~= git_suffix());
    }
    if let Some((owner, repo)) = parse_github_source(s) {
        let repo_chars = chars_of(repo.as_str());
        let stripped = strip_suffix_keep(repo_chars.as_slice(), git.as_slice());
        let mut full = chars_of(owner.as_str());
        full.push('/');
        let mut k: usize = 0;
        let ghost base = full@;
        while k < stripped.len()
            invariant
                k <= stripped@.len(),
                full@ == base + stripped@.take(k as int),
            decreases stripped@.len() - k,
        {
            full.push(stripped[k]);
            k = k + 1;
            proof {
                assert(stripped@.take(k as int) =~= stripped@.take(k - 1).push(stripped@[k - 1]));
            }
        }
        proof {
            assert(stripped@.take(stripped@.len() as int) =~= stripped@);
            assert(base =~= owner@ + seq!['/']);
            assert(full@ =~= owner@ + seq!['/'] + strip_suffix_or_keep(repo@, git_suffix()));
        }
        return (SourceType::Github, Some(string_of(full.as_slice())));
    }
    if let Some(path) = parse_gitlab_source(s) {
        let p = chars_of(path.as_str());
        let route = lit("/-/");
        proof {
            reveal_strlit("/-/");
            assert(route@ =~= gitlab_route_marker());
        }
        let head = match find(p.as_slice(), route.as_slice()) {
            Some(i) => slice_vec(p.as_slice(), 0, i),
            None => slice_vec(p.as_slice(), 0, p.len()),
        };
        proof {
            assert(p@.subrange(0, p@.len() as int) =~= p@);
        }
        let repo = strip_suffix_keep(head.as_slice(), git.as_slice());
        return (SourceType::Gitlab, Some(string_of(repo.as_slice())));
    }
    (SourceType::DirectUrl, None)
}

/// The punctuation that ends a sentence right after a link.
pub open spec fn closing_punctuation() -> Seq<char> {
    seq!['.', ',', ';', ':', '!', '?', ')', ']', '}', '\'', '"']
}

/// `http://`
pub open spec fn http_marker() -> Seq<char> {
    seq!['h', 't', 't', 'p', ':', '/', '/']
}

/// `https://`
pub open spec fn https_marker() -> Seq<char> {
    seq!['h', 't', 't', 'p', 's', ':', '/', '/']
}

/// The first `http://` or `https://` link of a free text: up to the next
/// white space, less the sentence punctuation stuck at its end.
pub open spec fn first_url(text: Seq<char>) -> Option<Seq<char>> {
    let a = find_seq(text, http_marker());
    let b = find_seq(text, https_marker());
    let start = match (a, b) {
        (Some(x), Some(y)) => Some(if x <= y { x } else { y }),
        (Some(x), None) => Some(x),
        (None, Some(y)) => Some(y),
        (None, None) => None,
    };
    match start {
        Some(st) => {
            let rest = text.skip(st);
            Some(trim_end_set(rest.take(space_index(rest)), closing_punctuation()))
        },
        None => None,
    }
}

/// The first link found in a free text (see `first_url`).
pub fn find_first_url(text: &str) -> (r: Option<String>)
    ensures
        match r {
            Some(u) => first_url(text@) == Some(u@),
            None => first_url(text@) is None,
        },
{
    let t = chars_of(text);
    let http = lit("http://");
    let https = lit("https://");
    let punct = lit(".,;:!?)]}'\"");
    proof {
        reveal_strlit("http://");
        reveal_strlit("https://");
        reveal_strlit(".,;:!?)]}'\"");
        assert(http@ =~= http_marker());
        assert(https@ =~= https_marker());
        assert(punct@ =~= closing_punctuation());
    }
    let a = find(t.as_slice(), http.as_slice());
    let b = find(t.as_slice(), https.as_slice());
    let start = match (a, b) {
        (Some(x), Some(y)) => if x <= y { x } else { y },
        (Some(x), None) => x,
        (None, Some(y)) => y,
        (None, None) => return None,
    };
    let rest = slice_vec(t.as_slice(), start, t.len());
    let end = find_space(rest.as_slice());
    proof {
        crate::text::lemma_space_index_bounds(rest@);
    }
    let head = slice_vec(rest.as_slice(), 0, end);
    proof {
        assert(rest@ =~= t@.skip(start as int));
    }
    let url = trim_end_matching(head.as_slice(), punct.as_slice());
    Some(string_of(url.as_slice()))
}


/// One catalogue entry.
#[derive(Debug)]
pub struct Port {
    pub name: String,
    /// `name` in lowercase, for the search.
    pub name_lower: String,
    pub tags: Vec<String>,
    /// `tags` in lowercase, one entry per tag.
    pub tags_lower: Vec<String>,
    /// A link (GitHub, GitLab or direct) or a per-platform object; `Null` for a
    /// local port.
    pub source: JsonValue,
    pub folder: String,
    /// `None`: the only executable found in the installed folder is used.
    pub executable: Option<JsonValue>,
    pub website: Option<String>,
    pub instructions: String,
    pub mods: Option<String>,
    pub image: Option<String>,
    pub save: Option<JsonValue>,
    /// A second, independent save location.
    pub save2: Option<JsonValue>,
    pub source_type: SourceType,
    pub repo: Option<String>,
    /// Name of an anchor file inside an archive disguised as an `.exe`: only
    /// the folder holding it is kept.
    pub exe_is_archive: Option<String>,
    /// Part of the name of the release file to download, per platform.
    pub preferred_asset: Option<JsonValue>,
    /// Link of extra files merged into the port after its installation.
    pub extra: Option<String>,
}

/// Why an entry was rejected.
#[derive(Debug)]
pub struct PortParseError(pub String);

/// The views of some strings.
pub open spec fn texts(v: Seq<String>) -> Seq<Seq<char>> {
    v.map_values(|s: String| s@)
}

/// The view of an optional string.
pub open spec fn opt_text(o: Option<String>) -> Option<Seq<char>> {
    match o {
        Some(s) => Some(s@),
        None => None,
    }
}

/// The model of an optional JSON value.
pub open spec fn opt_model(o: Option<JsonValue>) -> Option<JsonModel> {
    match o {
        Some(v) => Some(v.model()),
        None => None,
    }
}

/// The strings among some JSON values, in order.
pub open spec fn string_items(items: Seq<JsonModel>) -> Seq<Seq<char>>
    decreases items.len(),
{
    if items.len() == 0 {
        Seq::empty()
    } else {
        let rest = string_items(items.drop_first());
        match text_of(items[0]) {
            Some(t) => seq![t] + rest,
            None => rest,
        }
    }
}

/// The `tags` of an entry: the strings of its `tags` array (none when it is
/// absent or not an array).
pub open spec fn entry_tags(d: JsonModel) -> Seq<Seq<char>> {
    match get_model(d, seq!['t', 'a', 'g', 's']) {
        Some(JsonModel::Array(a)) => string_items(a),
        _ => Seq::empty(),
    }
}

/// Why an entry is rejected, if it is: not an object, no string `name`, no
/// string `folder`, or a `source` that is neither a string nor an object.
pub open spec fn entry_error(d: JsonModel) -> Option<Seq<char>> {
    if !(d is Object) {
        Some("entry is not an object"@)
    } else if text_field(d, "name"@) is None {
        Some("\"name\" missing or invalid"@)
    } else if text_field(d, "folder"@) is None {
        Some("\"folder\" missing or invalid"@)
    } else if get_model(d, "source"@) matches Some(v) && !(v is Text || v is Object) {
        Some("\"source\" must be a string or an object"@)
    } else {
        None
    }
}

/// The port read from an accepted entry `d`: required `name` and `folder`,
/// string fields read when they are strings, raw fields copied as they are,
/// and the kind of source deduced from `source` (a local port without one).
pub open spec fn entry_port(p: Port, d: JsonModel) -> bool {
    &&& Some(p.name@) == text_field(d, "name"@)
    &&& Some(p.folder@) == text_field(d, "folder"@)
    &&& p.name_lower@ == spec_to_lowercase(p.name@)
    &&& texts(p.tags@) == entry_tags(d)
    &&& p.tags_lower@.len() == p.tags@.len()
    &&& forall|i: int| 0 <= i < p.tags@.len() ==> #[trigger] p.tags_lower@[i]@ == spec_to_lowercase(p.tags@[i]@)
    &&& opt_text(p.website) == text_field(d, "website"@)
    &&& p.instructions@ == (match text_field(d, "instructions"@) {
        Some(t) => t,
        None => Seq::empty(),
    })
    &&& opt_text(p.mods) == text_field(d, "mods"@)
    &&& opt_text(p.image) == text_field(d, "image"@)
    &&& opt_text(p.exe_is_archive) == text_field(d, "exe_is_archive"@)
    &&& opt_text(p.extra) == text_field(d, "extra"@)
    &&& opt_model(p.executable) == get_model(d, "executable"@)
    &&& opt_model(p.save) == get_model(d, "save"@)
    &&& opt_model(p.save2) == get_model(d, "save2"@)
    &&& opt_model(p.preferred_asset) == get_model(d, "preferred_asset"@)
    &&& match get_model(d, "source"@) {
        Some(src) => {
            &&& p.source.model() == src
            &&& p.source_type == source_kind(src).0
            &&& opt_text(p.repo) == source_kind(src).1
        },
        None => {
            &&& p.source.model() == JsonModel::Null
            &&& p.source_type == SourceType::Local
            &&& p.repo is None
        },
    }
}

/// An optional string field, copied.
fn text_field_owned(d: &JsonValue, key: &str) -> (r: Option<String>)
    ensures
        opt_text(r) == text_field(d.model(), key@),
{
    match d.text_field(key) {
        Some(t) => Some(t.to_owned()),
        None => None,
    }
}

/// An optional raw field, copied.
fn raw_field(d: &JsonValue, key: &str) -> (r: Option<JsonValue>)
    ensures
        opt_model(r) == get_model(d.model(), key@),
{
    match d.get(key) {
        Some(v) => Some(v.duplicate()),
        None => None,
    }
}

/// The strings of the `tags` array of an entry.
fn entry_tag_list(d: &JsonValue) -> (r: Vec<String>)
    ensures
        texts(r@) == entry_tags(d.model()),
{
    let key = "tags";
    proof {
        reveal_strlit("tags");
    }
    let mut out: Vec<String> = Vec::new();
    proof {
        assert(key@ =~= seq!['t', 'a', 'g', 's']);
    }
    match d.get(key) {
        Some(JsonValue::Array(items)) => {
            proof {
                lemma_models_of(items@);
            }
            let ghost ms = models_of(items@);
            let mut i: usize = 0;
            proof {
                assert(ms.take(0) =~= Seq::<JsonModel>::empty());
                assert(texts(out@) =~= Seq::<Seq<char>>::empty());
            }
            while i < items.len()
                invariant
                    i <= items@.len(),
                    ms == models_of(items@),
                    ms.len() == items@.len(),
                    forall|j: int| 0 <= j < items@.len() ==> #[trigger] ms[j] == items@[j].model(),
                    texts(out@) == string_items(ms.take(i as int)),
                decreases items@.len() - i,
            {
                proof {
                    assert(ms.take(i + 1) =~= ms.take(i as int).push(ms[i as int]));
                    lemma_string_items_push(ms.take(i as int), ms[i as int]);
                }
                if let Some(t) = items[i].as_str() {
                    let ghost before = out@;
                    out.push(t.to_owned());
                    proof {
                        assert(texts(out@) =~= texts(before).push(t@));
                    }
                }
                i = i + 1;
            }
            proof {
                assert(ms.take(items@.len() as int) =~= ms);
            }
            out
        },
        _ => out,
    }
}

/// `string_items` of a sequence grown by one value.
pub proof fn lemma_string_items_push(s: Seq<JsonModel>, x: JsonModel)
    ensures
        string_items(s.push(x)) == match text_of(x) {
            Some(t) => string_items(s).push(t),
            None => string_items(s),
        },
    decreases s.len(),
{
    let sx = s.push(x);
    assert(sx[0] == if s.len() == 0 { x } else { s[0] });
    if s.len() == 0 {
        assert(sx.drop_first() =~= Seq::<JsonModel>::empty());
        assert(string_items(s) =~= Seq::<Seq<char>>::empty());
        assert(string_items(sx) == match text_of(x) {
            Some(h) => seq![h] + string_items(Seq::<JsonModel>::empty()),
            None => string_items(Seq::<JsonModel>::empty()),
        });
        match text_of(x) {
            Some(t) => {
                assert(seq![t] + Seq::<Seq<char>>::empty() =~= Seq::<Seq<char>>::empty().push(t));
            },
            None => {},
        }
    } else {
        let t = s.drop_first();
        assert(sx.drop_first() =~= t.push(x));
        lemma_string_items_push(t, x);
        assert(string_items(sx) == match text_of(s[0]) {
            Some(h) => seq![h] + string_items(t.push(x)),
            None => string_items(t.push(x)),
        });
        assert(string_items(s) == match text_of(s[0]) {
            Some(h) => seq![h] + string_items(t),
            None => string_items(t),
        });
        match text_of(s[0]) {
            Some(h) => match text_of(x) {
                Some(tx) => {
                    assert(seq![h] + string_items(t).push(tx) =~= (seq![h] + string_items(t)).push(tx));
                },
                None => {},
            },
            None => {},
        }
    }
}

/// Reads a port from an entry of `ports.json` or `ports.local.json`.
pub fn port_from_value(d: &JsonValue) -> (r: Result<Port, PortParseError>)
    ensures
        match r {
            Ok(p) => entry_error(d.model()) is None && entry_port(p, d.model()),
            Err(e) => entry_error(d.model()) == Some(e.0@),
        },
{
    if !d.is_object() {
        return Err(PortParseError("entry is not an object".to_owned()));
    }
    let tags = entry_tag_list(d);
    let name = match d.text_field("name") {
        Some(n) => n.to_owned(),
        None => return Err(PortParseError("\"name\" missing or invalid".to_owned())),
    };
    let folder = match d.text_field("folder") {
        Some(f) => f.to_owned(),
        None => return Err(PortParseError("\"folder\" missing or invalid".to_owned())),
    };
    let source = match d.get("source") {
        None => None,
        Some(v) => {
            if v.is_string() || v.is_object() {
                Some(v.duplicate())
            } else {
                return Err(PortParseError("\"source\" must be a string or an object".to_owned()));
            }
        },
    };
    let website = text_field_owned(d, "website");
    let instructions = match d.text_field("instructions") {
        Some(t) => t.to_owned(),
        None => String::new(),
    };
    let mods = text_field_owned(d, "mods");
    let image = text_field_owned(d, "image");
    let executable = raw_field(d, "executable");
    let save = raw_field(d, "save");
    let save2 = raw_field(d, "save2");
    let exe_is_archive = text_field_owned(d, "exe_is_archive");
    let preferred_asset = raw_field(d, "preferred_asset");
    let extra = text_field_owned(d, "extra");
    let (source_type, repo, source) = match source {
        Some(source) => {
            let (t, r) = parse_source(&source);
            (t, r, source)
        },
        None => (SourceType::Local, None, JsonValue::Null),
    };
    let name_lower = to_lowercase(name.as_str());
    let mut tags_lower: Vec<String> = Vec::new();
    let mut i: usize = 0;
    while i < tags.len()
        invariant
            i <= tags@.len(),
            tags_lower@.len() == i,
            forall|j: int| 0 <= j < i ==> #[trigger] tags_lower@[j]@ == spec_to_lowercase(tags@[j]@),
        decreases tags@.len() - i,
    {
        tags_lower.push(to_lowercase(tags[i].as_str()));
        i = i + 1;
    }
    let p = Port {
        name,
        name_lower,
        tags,
        tags_lower,
        source,
        folder,
        executable,
        website,
        instructions,
        mods,
        image,
        save,
        save2,
        source_type,
        repo,
        exe_is_archive,
        preferred_asset,
        extra,
    };
    Ok(p)
}

impl Port {
    /// Home page to show: `website`, else the source link itself when it is a
    /// GitHub or GitLab page, else none.
    pub fn website_url(&self) -> (r: Option<&str>)
        ensures
            match r {
                Some(u) => Some(u@) == (match self.website {
                    Some(w) => Some(w@),
                    None => if self.source_type == SourceType::Github || self.source_type == SourceType::Gitlab {
                        text_of(self.source.model())
                    } else {
                        None
                    },
                }),
                None => self.website is None && (self.source_type == SourceType::Github
                    || self.source_type == SourceType::Gitlab ==> text_of(self.source.model()) is None),
            },
    {
        if let Some(w) = &self.website {
            return Some(w.as_str());
        }
        match self.source_type {
            SourceType::Github | SourceType::Gitlab => self.source.as_str(),
            SourceType::DirectUrl | SourceType::Local => None,
        }
    }

    /// Key of this port in the saved state: its repository when known, else
    /// its folder.
    pub fn key(&self) -> (r: &str)
        ensures
            r@ == match self.repo {
                Some(repo) => repo@,
                None => self.folder@,
            },
    {
        match &self.repo {
            Some(repo) => repo.as_str(),
            None => self.folder.as_str(),
        }
    }

    /// The first link in `instructions`, if any.
    pub fn instructions_link(&self) -> (r: Option<String>)
        ensures
            match r {
                Some(u) => first_url(self.instructions@) == Some(u@),
                None => first_url(self.instructions@) is None,
            },
    {
        find_first_url(self.instructions.as_str())
    }
}

} // verus!
