//! Choosing which file of a release to download for this platform, from the
//! names of its files (GitHub and GitLab alike). When the rules cannot decide,
//! the caller lets the user choose.
//!
//! Every test is a substring test on the lowercase name.

use crate::jobs::opt_str;
use crate::json::{lemma_models_of, models_of, text_field, JsonModel, JsonValue};
use crate::platform_resolve::{get_platform_key, linux_key};
use crate::text::{
    chars_of, contains, contains_seq, ends_with, ends_with_seq, is_alphanumeric, lit, same_text, spec_is_alphanumeric,
    spec_to_lowercase, string_of, extend_chars, to_lowercase,
};
use vstd::prelude::*;

verus! {

/// The `name` of a release file, empty when it has none.
pub open spec fn asset_name_of(a: JsonModel) -> Seq<char> {
    match text_field(a, "name"@) {
        Some(t) => t,
        None => Seq::empty(),
    }
}

/// The lowercase name of a release file.
pub open spec fn lower_name(a: JsonModel) -> Seq<char> {
    spec_to_lowercase(asset_name_of(a))
}

/// The name seems meant for `platform` (`windows`, `linux` or `linux_arm64`).
/// Not anchored on whole words: `win` matches `win32`, `win64` and `windows`.
pub open spec fn os_hint(platform: Seq<char>, name: Seq<char>) -> bool {
    if platform == "windows"@ {
        contains_seq(name, "win"@)
    } else if platform == "linux"@ {
        contains_seq(name, "linux"@)
    } else if platform == "linux_arm64"@ {
        contains_seq(name, "linux"@) && (contains_seq(name, "arm64"@) || contains_seq(name, "aarch64"@))
    } else {
        false
    }
}

/// The letters and digits of `s`.
pub open spec fn alnum_only(s: Seq<char>) -> Seq<char> {
    s.filter(|c: char| spec_is_alphanumeric(c))
}

/// A file to leave out whatever the platform: an archive of the sources made
/// by the forge (however `source code` is punctuated), or a build for macOS.
pub open spec fn bad_hint(name: Seq<char>) -> bool {
    ||| contains_seq(alnum_only(name), "sourcecode"@)
    ||| contains_seq(name, "mac"@)
    ||| contains_seq(name, "osx"@)
    ||| ends_with_seq(name, ".dmg"@)
    ||| ends_with_seq(name, ".deb"@)
    ||| ends_with_seq(name, ".rpm"@)
}

/// The name ends like an archive or a program.
pub open spec fn archive_ext(name: Seq<char>) -> bool {
    ||| ends_with_seq(name, ".zip"@)
    ||| ends_with_seq(name, ".7z"@)
    ||| ends_with_seq(name, ".rar"@)
    ||| ends_with_seq(name, ".exe"@)
    ||| ends_with_seq(name, ".tar.gz"@)
    ||| ends_with_seq(name, ".appimage"@)
}

/// The name mentions a 64-bit x86 build.
pub open spec fn arch64_hint(name: Seq<char>) -> bool {
    ||| contains_seq(name, "x86_64"@)
    ||| contains_seq(name, "x86-64"@)
    ||| contains_seq(name, "x8664"@)
    ||| contains_seq(name, "amd64"@)
    ||| contains_seq(name, "x64"@)
}

/// The tests by which release files are kept.
pub enum Criterion {
    /// The lowercase name contains the lowercase preferred text.
    Preferred,
    /// Meant for the platform, not a bad hint, an archive.
    ForPlatform,
    /// Meant for Linux, not a bad hint.
    AnyLinux,
    /// A 64-bit x86 build.
    Arch64,
}

/// Whether a lowercase `name` passes `c`.
pub open spec fn meets(c: Criterion, name: Seq<char>, platform: Seq<char>, pref: Seq<char>) -> bool {
    match c {
        Criterion::Preferred => contains_seq(name, pref),
        Criterion::ForPlatform => os_hint(platform, name) && !bad_hint(name) && archive_ext(name),
        Criterion::AnyLinux => os_hint("linux"@, name) && !bad_hint(name),
        Criterion::Arch64 => arch64_hint(name),
    }
}

/// The release files of `assets` that pass `c`, in order.
pub open spec fn kept(assets: Seq<JsonModel>, c: Criterion, platform: Seq<char>, pref: Seq<char>) -> Seq<JsonModel> {
    assets.filter(|a: JsonModel| meets(c, lower_name(a), platform, pref))
}

/// The outcome of choosing a release file, over models.
pub enum AssetChoice {
    Picked(JsonModel),
    /// No file can be chosen: the message says why.
    Refused(Seq<char>),
    /// The user must choose among these files.
    Choose(Seq<char>, Seq<JsonModel>),
}

pub open spec fn empty_release_message() -> Seq<char> {
    "This release doesn't contain any downloadable file."@
}

pub open spec fn no_match_message(preferred: Seq<char>) -> Seq<char> {
    "No release file matches \""@ + preferred + "\" (see \"preferred_asset\" for this port)."@
}

pub open spec fn several_match_message(preferred: Seq<char>) -> Seq<char> {
    "Multiple release files match \""@ + preferred + "\" -- please choose one manually."@
}

pub open spec fn undecided_message() -> Seq<char> {
    "Couldn't automatically determine which file to download. Please choose one manually."@
}

/// The file to download among `assets` on `platform`.
///
/// With a `preferred` text, the rules below are skipped: the one file whose
/// name contains it (ignoring case), or an error. Otherwise: a lone file; the
/// one file meant for the platform; among several, the one 64-bit build; on
/// `linux_arm64` with no archive for it, the one Linux file; else the user
/// chooses among all the files.
pub open spec fn asset_choice(assets: Seq<JsonModel>, preferred: Option<Seq<char>>, platform: Seq<char>) -> AssetChoice {
    if assets.len() == 0 {
        AssetChoice::Refused(empty_release_message())
    } else {
        match preferred {
            Some(p) => preferred_choice(assets, p, platform),
            None => rules_choice(assets, platform),
        }
    }
}

/// The one file whose lowercase name contains the lowercase `preferred`.
pub open spec fn preferred_choice(assets: Seq<JsonModel>, preferred: Seq<char>, platform: Seq<char>) -> AssetChoice {
    let m = kept(assets, Criterion::Preferred, platform, spec_to_lowercase(preferred));
    if m.len() == 0 {
        AssetChoice::Refused(no_match_message(preferred))
    } else if m.len() == 1 {
        AssetChoice::Picked(m[0])
    } else {
        AssetChoice::Choose(several_match_message(preferred), m)
    }
}

/// The file chosen by the platform rules among several or one.
pub open spec fn rules_choice(assets: Seq<JsonModel>, platform: Seq<char>) -> AssetChoice {
    let c = kept(assets, Criterion::ForPlatform, platform, Seq::empty());
    let c64 = kept(c, Criterion::Arch64, platform, Seq::empty());
    let l = kept(assets, Criterion::AnyLinux, platform, Seq::empty());
    if assets.len() == 1 {
        AssetChoice::Picked(assets[0])
    } else if c.len() == 1 {
        AssetChoice::Picked(c[0])
    } else if c.len() > 1 && c64.len() == 1 {
        AssetChoice::Picked(c64[0])
    } else if platform == "linux_arm64"@ && c.len() == 0 && l.len() == 1 {
        AssetChoice::Picked(l[0])
    } else {
        AssetChoice::Choose(undecided_message(), assets)
    }
}

/// The kept files are files of `assets`.
proof fn lemma_kept_within(assets: Seq<JsonModel>, c: Criterion, platform: Seq<char>, pref: Seq<char>, i: int)
    requires
        0 <= i < kept(assets, c, platform, pref).len(),
    ensures
        assets.contains(kept(assets, c, platform, pref)[i]),
{
    let k = kept(assets, c, platform, pref);
    assert(k.contains(k[i]));
    assets.lemma_filter_contains_rev(|a: JsonModel| meets(c, lower_name(a), platform, pref), k[i]);
}

/// A chosen release file is always one of the release's files, and the
/// files offered to choose from are the release's own.
pub proof fn lemma_choice_from_assets(assets: Seq<JsonModel>, preferred: Option<Seq<char>>, platform: Seq<char>)
    ensures
        asset_choice(assets, preferred, platform) matches AssetChoice::Picked(a) ==> assets.contains(a),
        asset_choice(assets, preferred, platform) matches AssetChoice::Choose(_, l) ==> forall|i: int|
            0 <= i < l.len() ==> assets.contains(#[trigger] l[i]),
{
    if assets.len() > 0 {
        match preferred {
            Some(p) => {
                let pl = spec_to_lowercase(p);
                let m = kept(assets, Criterion::Preferred, platform, pl);
                if m.len() > 0 {
                    lemma_kept_within(assets, Criterion::Preferred, platform, pl, 0);
                }
                assert forall|i: int| 0 <= i < m.len() implies assets.contains(#[trigger] m[i]) by {
                    lemma_kept_within(assets, Criterion::Preferred, platform, pl, i);
                }
            },
            None => {
                let e = Seq::<char>::empty();
                let c = kept(assets, Criterion::ForPlatform, platform, e);
                let c64 = kept(c, Criterion::Arch64, platform, e);
                let l = kept(assets, Criterion::AnyLinux, platform, e);
                assert(assets.contains(assets[0]));
                if c.len() > 0 {
                    lemma_kept_within(assets, Criterion::ForPlatform, platform, e, 0);
                }
                if c64.len() > 0 {
                    lemma_kept_within(c, Criterion::Arch64, platform, e, 0);
                    let w = choose|w: int| 0 <= w < c.len() && c[w] == c64[0];
                    lemma_kept_within(assets, Criterion::ForPlatform, platform, e, w);
                }
                if l.len() > 0 {
                    lemma_kept_within(assets, Criterion::AnyLinux, platform, e, 0);
                }
                assert forall|i: int| 0 <= i < assets.len() implies assets.contains(#[trigger] assets[i]) by {}
            },
        }
    }
}

/// Filtering keeps nothing when nothing passes.
proof fn lemma_filter_none<A>(s: Seq<A>, p: spec_fn(A) -> bool)
    requires
        forall|j: int| 0 <= j < s.len() ==> !p(#[trigger] s[j]),
    ensures
        s.filter(p).len() == 0,
    decreases s.len(),
{
    reveal(Seq::filter);
    if s.len() > 0 {
        let d = s.drop_last();
        assert forall|j: int| 0 <= j < d.len() implies !p(#[trigger] d[j]) by {
            assert(d[j] == s[j]);
        }
        lemma_filter_none(d, p);
        assert(!p(s[s.len() - 1]));
    }
}

/// Filtering keeps exactly the one element that passes, when only one does.
proof fn lemma_filter_single<A>(s: Seq<A>, p: spec_fn(A) -> bool, k: int)
    requires
        0 <= k < s.len(),
        p(s[k]),
        forall|j: int| 0 <= j < s.len() && j != k ==> !p(#[trigger] s[j]),
    ensures
        s.filter(p) == seq![s[k]],
    decreases s.len(),
{
    reveal(Seq::filter);
    let d = s.drop_last();
    if k == s.len() - 1 {
        assert forall|j: int| 0 <= j < d.len() implies !p(#[trigger] d[j]) by {
            assert(d[j] == s[j]);
        }
        lemma_filter_none(d, p);
        assert(d.filter(p) =~= Seq::<A>::empty());
        assert(s.filter(p) =~= seq![s[k]]);
    } else {
        assert forall|j: int| 0 <= j < d.len() && j != k implies !p(#[trigger] d[j]) by {
            assert(d[j] == s[j]);
        }
        assert(d[k] == s[k]);
        lemma_filter_single(d, p, k);
        assert(!p(s[s.len() - 1]));
    }
}

/// With no preferred text, among several release files meant for the
/// platform, the only one whose lowercase name names a 64-bit x86 build
/// (`x86_64`, `x86-64`, `x8664`, `amd64` or `x64`) is the file picked.
pub proof fn lemma_lone_64bit_build_is_picked(assets: Seq<JsonModel>, platform: Seq<char>, k: int)
    requires
        kept(assets, Criterion::ForPlatform, platform, Seq::empty()).len() > 1,
        0 <= k < kept(assets, Criterion::ForPlatform, platform, Seq::empty()).len(),
        ({
            let n = lower_name(kept(assets, Criterion::ForPlatform, platform, Seq::empty())[k]);
            contains_seq(n, "x86_64"@) || contains_seq(n, "x86-64"@) || contains_seq(n, "x8664"@) || contains_seq(
                n,
                "amd64"@,
            ) || contains_seq(n, "x64"@)
        }),
        forall|j: int|
            0 <= j < kept(assets, Criterion::ForPlatform, platform, Seq::empty()).len() && j != k ==> {
                let n = lower_name(#[trigger] kept(assets, Criterion::ForPlatform, platform, Seq::empty())[j]);
                !contains_seq(n, "x86_64"@) && !contains_seq(n, "x86-64"@) && !contains_seq(n, "x8664"@)
                    && !contains_seq(n, "amd64"@) && !contains_seq(n, "x64"@)
            },
    ensures
        asset_choice(assets, None, platform) == AssetChoice::Picked(
            kept(assets, Criterion::ForPlatform, platform, Seq::empty())[k],
        ),
{
    let e = Seq::<char>::empty();
    let c = kept(assets, Criterion::ForPlatform, platform, e);
    let p = |a: JsonModel| meets(Criterion::Arch64, lower_name(a), platform, e);
    assert forall|j: int| 0 <= j < c.len() && j != k implies !p(#[trigger] c[j]) by {
        let n = lower_name(c[j]);
        assert(!contains_seq(n, "x86_64"@) && !contains_seq(n, "x86-64"@) && !contains_seq(n, "x8664"@)
            && !contains_seq(n, "amd64"@) && !contains_seq(n, "x64"@));
    }
    assert(p(c[k]));
    lemma_filter_single(c, p, k);
    assets.lemma_filter_len(|a: JsonModel| meets(Criterion::ForPlatform, lower_name(a), platform, e));
    assert(kept(c, Criterion::Arch64, platform, e) == seq![c[k]]);
}

/// Why no release file was chosen.
#[derive(Debug)]
pub enum AssetSelectionError {
    Message(String),
    /// The user must choose among these files.
    Ambiguous(String, Vec<JsonValue>),
}

/// The model of an outcome.
pub open spec fn choice_of(r: Result<JsonValue, AssetSelectionError>) -> AssetChoice {
    match r {
        Ok(v) => AssetChoice::Picked(v.model()),
        Err(AssetSelectionError::Message(m)) => AssetChoice::Refused(m@),
        Err(AssetSelectionError::Ambiguous(m, l)) => AssetChoice::Choose(m@, models_of(l@)),
    }
}

/// Whether `pat` occurs in `name`.
fn has(name: &[char], pat: &str) -> (r: bool)
    ensures
        r == contains_seq(name@, pat@),
{
    let p = lit(pat);
    contains(name, p.as_slice())
}

/// Whether `name` ends with `pat`.
fn ends(name: &[char], pat: &str) -> (r: bool)
    ensures
        r == ends_with_seq(name@, pat@),
{
    let p = lit(pat);
    ends_with(name, p.as_slice())
}

/// Whether a lowercase name seems meant for `platform`.
pub fn os_hint_matches(platform: &str, name: &[char]) -> (r: bool)
    ensures
        r == os_hint(platform@, name@),
{
    if same_text(platform, "windows") {
        has(name, "win")
    } else if same_text(platform, "linux") {
        has(name, "linux")
    } else if same_text(platform, "linux_arm64") {
        has(name, "linux") && (has(name, "arm64") || has(name, "aarch64"))
    } else {
        false
    }
}

/// The letters and digits of `s`.
fn alnum_chars(s: &[char]) -> (r: Vec<char>)
    ensures
        r@ == alnum_only(s@),
{
    let mut out: Vec<char> = Vec::new();
    let mut i: usize = 0;
    proof {
        reveal(Seq::filter);
        assert(s@.take(0) =~= Seq::<char>::empty());
    }
    while i < s.len()
        invariant
            i <= s@.len(),
            out@ == alnum_only(s@.take(i as int)),
        decreases s@.len() - i,
    {
        proof {
            reveal(Seq::filter);
            assert(s@.take(i + 1).drop_last() =~= s@.take(i as int));
            assert(s@.take(i + 1).last() == s@[i as int]);
        }
        if is_alphanumeric(s[i]) {
            out.push(s[i]);
        }
        i = i + 1;
    }
    proof {
        assert(s@.take(s@.len() as int) =~= s@);
    }
    out
}

/// Whether a lowercase name is to be left out whatever the platform.
pub fn is_bad_hint(name: &[char]) -> (r: bool)
    ensures
        r == bad_hint(name@),
{
    let alnum = alnum_chars(name);
    has(alnum.as_slice(), "sourcecode") || has(name, "mac") || has(name, "osx") || ends(name, ".dmg") || ends(
        name,
        ".deb",
    ) || ends(name, ".rpm")
}

/// Whether a lowercase name ends like an archive or a program.
pub fn has_archive_extension(name: &[char]) -> (r: bool)
    ensures
        r == archive_ext(name@),
{
    ends(name, ".zip") || ends(name, ".7z") || ends(name, ".rar") || ends(name, ".exe") || ends(name, ".tar.gz")
        || ends(name, ".appimage")
}

/// Whether a lowercase name mentions a 64-bit x86 build.
pub fn is_arch64_hint(name: &[char]) -> (r: bool)
    ensures
        r == arch64_hint(name@),
{
    has(name, "x86_64") || has(name, "x86-64") || has(name, "x8664") || has(name, "amd64") || has(name, "x64")
}

/// Whether a lowercase name passes `c`.
fn passes(c: &Criterion, name: &[char], platform: &str, pref: &[char]) -> (r: bool)
    ensures
        r == meets(*c, name@, platform@, pref@),
{
    match c {
        Criterion::Preferred => contains(name, pref),
        Criterion::ForPlatform => os_hint_matches(platform, name) && !is_bad_hint(name) && has_archive_extension(name),
        Criterion::AnyLinux => os_hint_matches("linux", name) && !is_bad_hint(name),
        Criterion::Arch64 => is_arch64_hint(name),
    }
}

/// The `name` of a release file, empty when it has none.
pub fn asset_name(asset: &JsonValue) -> (r: &str)
    ensures
        r@ == asset_name_of(asset.model()),
{
    match asset.text_field("name") {
        Some(s) => s,
        None => {
            let e = "";
            proof {
                reveal_strlit("");
                assert(e@ =~= Seq::<char>::empty());
            }
            e
        },
    }
}

/// The lowercase names of release files.
fn lower_names(assets: &[JsonValue]) -> (r: Vec<Vec<char>>)
    ensures
        r@.len() == assets@.len(),
        forall|i: int| 0 <= i < r@.len() ==> #[trigger] r@[i]@ == lower_name(assets@[i].model()),
{
    let mut out: Vec<Vec<char>> = Vec::new();
    let mut i: usize = 0;
    while i < assets.len()
        invariant
            i <= assets@.len(),
            out@.len() == i,
            forall|k: int| 0 <= k < i ==> #[trigger] out@[k]@ == lower_name(assets@[k].model()),
        decreases assets@.len() - i,
    {
        let lowered = to_lowercase(asset_name(&assets[i]));
        out.push(chars_of(lowered.as_str()));
        i = i + 1;
    }
    out
}

/// The release files that pass `c`, in order, with their lowercase names.
fn keep_matching(assets: &[JsonValue], names: &[Vec<char>], c: &Criterion, platform: &str, pref: &[char]) -> (r: (
    Vec<JsonValue>,
    Vec<Vec<char>>,
))
    requires
        names@.len() == assets@.len(),
        forall|i: int| 0 <= i < names@.len() ==> #[trigger] names@[i]@ == lower_name(assets@[i].model()),
    ensures
        models_of(r.0@) == kept(models_of(assets@), *c, platform@, pref@),
        r.1@.len() == r.0@.len(),
        forall|i: int| 0 <= i < r.1@.len() ==> #[trigger] r.1@[i]@ == lower_name(r.0@[i].model()),
{
    let ghost ms = models_of(assets@);
    proof {
        lemma_models_of(assets@);
    }
    let mut out: Vec<JsonValue> = Vec::new();
    let mut out_names: Vec<Vec<char>> = Vec::new();
    let mut i: usize = 0;
    proof {
        reveal(Seq::filter);
        assert(ms.take(0) =~= Seq::<JsonModel>::empty());
        lemma_models_of(out@);
    }
    while i < assets.len()
        invariant
            i <= assets@.len(),
            names@.len() == assets@.len(),
            forall|k: int| 0 <= k < names@.len() ==> #[trigger] names@[k]@ == lower_name(assets@[k].model()),
            ms == models_of(assets@),
            ms.len() == assets@.len(),
            forall|k: int| 0 <= k < assets@.len() ==> #[trigger] ms[k] == assets@[k].model(),
            models_of(out@) == kept(ms.take(i as int), *c, platform@, pref@),
            out_names@.len() == out@.len(),
            forall|k: int| 0 <= k < out_names@.len() ==> #[trigger] out_names@[k]@ == lower_name(out@[k].model()),
        decreases assets@.len() - i,
    {
        proof {
            reveal(Seq::filter);
            assert(ms.take(i + 1).drop_last() =~= ms.take(i as int));
            assert(ms.take(i + 1).last() == assets@[i as int].model());
        }
        if passes(c, names[i].as_slice(), platform, pref) {
            let ghost before = out@;
            let v = assets[i].duplicate();
            out.push(v);
            let n = crate::text::slice_vec(names[i].as_slice(), 0, names[i].len());
            proof {
                assert(n@ =~= names@[i as int]@);
            }
            out_names.push(n);
            proof {
                lemma_models_of(before);
                lemma_models_of(out@);
                assert(models_of(out@) =~= models_of(before).push(assets@[i as int].model()));
            }
        }
        i = i + 1;
    }
    proof {
        assert(ms.take(assets@.len() as int) =~= ms);
    }
    (out, out_names)
}

/// `lead`, `middle` and `tail` one after the other.
fn concat3(lead: &str, middle: &str, tail: &str) -> (r: String)
    ensures
        r@ == lead@ + middle@ + tail@,
{
    let mut out = chars_of(lead);
    let m = chars_of(middle);
    let t = chars_of(tail);
    extend_chars(&mut out, m.as_slice());
    extend_chars(&mut out, t.as_slice());
    string_of(out.as_slice())
}

/// The file named by `preferred` (see `preferred_choice`).
fn pick_preferred(assets: &[JsonValue], names: &[Vec<char>], preferred: &str, platform: &str) -> (r: Result<
    JsonValue,
    AssetSelectionError,
>)
    requires
        names@.len() == assets@.len(),
        forall|i: int| 0 <= i < names@.len() ==> #[trigger] names@[i]@ == lower_name(assets@[i].model()),
    ensures
        choice_of(r) == preferred_choice(models_of(assets@), preferred@, platform@),
{
    let lowered = to_lowercase(preferred);
    let pl = chars_of(lowered.as_str());
    let (m, _) = keep_matching(assets, names, &Criterion::Preferred, platform, pl.as_slice());
    proof {
        lemma_models_of(m@);
    }
    if m.len() == 0 {
        return Err(
            AssetSelectionError::Message(
                concat3("No release file matches \"", preferred, "\" (see \"preferred_asset\" for this port)."),
            ),
        );
    }
    if m.len() == 1 {
        return Ok(m[0].duplicate());
    }
    let msg = concat3("Multiple release files match \"", preferred, "\" -- please choose one manually.");
    Err(AssetSelectionError::Ambiguous(msg, m))
}

/// Copies of all the release files.
fn copy_all(assets: &[JsonValue]) -> (r: Vec<JsonValue>)
    ensures
        models_of(r@) == models_of(assets@),
{
    let mut all: Vec<JsonValue> = Vec::new();
    let mut i: usize = 0;
    while i < assets.len()
        invariant
            i <= assets@.len(),
            all@.len() == i,
            forall|k: int| 0 <= k < i ==> #[trigger] all@[k].model() == assets@[k].model(),
        decreases assets@.len() - i,
    {
        all.push(assets[i].duplicate());
        i = i + 1;
    }
    proof {
        lemma_models_of(all@);
        lemma_models_of(assets@);
        assert(models_of(all@) =~= models_of(assets@));
    }
    all
}

/// The file chosen by the platform rules (see `rules_choice`).
fn pick_by_rules(assets: &[JsonValue], names: &[Vec<char>], platform: &str) -> (r: Result<
    JsonValue,
    AssetSelectionError,
>)
    requires
        names@.len() == assets@.len(),
        forall|i: int| 0 <= i < names@.len() ==> #[trigger] names@[i]@ == lower_name(assets@[i].model()),
    ensures
        choice_of(r) == rules_choice(models_of(assets@), platform@),
{
    proof {
        lemma_models_of(assets@);
    }
    if assets.len() == 1 {
        return Ok(assets[0].duplicate());
    }
    let empty: Vec<char> = Vec::new();
    let (c, c_names) = keep_matching(assets, names, &Criterion::ForPlatform, platform, empty.as_slice());
    proof {
        lemma_models_of(c@);
    }
    if c.len() == 1 {
        return Ok(c[0].duplicate());
    }
    if c.len() > 1 {
        let (c64, _) = keep_matching(c.as_slice(), c_names.as_slice(), &Criterion::Arch64, platform, empty.as_slice());
        proof {
            lemma_models_of(c64@);
        }
        if c64.len() == 1 {
            return Ok(c64[0].duplicate());
        }
    }
    if same_text(platform, "linux_arm64") && c.len() == 0 {
        let (l, _) = keep_matching(assets, names, &Criterion::AnyLinux, platform, empty.as_slice());
        proof {
            lemma_models_of(l@);
        }
        if l.len() == 1 {
            return Ok(l[0].duplicate());
        }
    }
    let all = copy_all(assets);
    Err(
        AssetSelectionError::Ambiguous(
            "Couldn't automatically determine which file to download. Please choose one manually.".to_owned(),
            all,
        ),
    )
}

/// The release file to download on `platform` (see `asset_choice`).
pub fn pick_asset_for(assets: &[JsonValue], preferred: Option<&str>, platform: &str) -> (r: Result<
    JsonValue,
    AssetSelectionError,
>)
    ensures
        choice_of(r) == asset_choice(models_of(assets@), opt_str(preferred), platform@),
{
    proof {
        lemma_models_of(assets@);
    }
    if assets.len() == 0 {
        return Err(AssetSelectionError::Message("This release doesn't contain any downloadable file.".to_owned()));
    }
    let names = lower_names(assets);
    match preferred {
        Some(p) => pick_preferred(assets, names.as_slice(), p, platform),
        None => pick_by_rules(assets, names.as_slice(), platform),
    }
}

/// The release file to download here (see `asset_choice`, on this platform).
pub fn pick_asset(assets: &[JsonValue], preferred: Option<&str>) -> (r: Result<JsonValue, AssetSelectionError>)
    ensures
        choice_of(r) == asset_choice(models_of(assets@), opt_str(preferred), linux_key()),
{
    pick_asset_for(assets, preferred, get_platform_key())
}

} // verus!
