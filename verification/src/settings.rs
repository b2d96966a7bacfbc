//! The launcher's saved state (`state.json`) as read and written: interface
//! preferences, tokens, network checks and installed ports. Missing or
//! mistyped values fall back to their defaults; a file that is not a JSON
//! object gives the defaults. The window size and border, which the file
//! stores as numbers of any kind, are read and written by the caller.

use crate::json::{
    pretty_json, spec_json_pretty,
    bool_of, get_model, lemma_member_first, lemma_members_of, member, members_of, text_field, text_of, JsonModel, JsonNumber,
    JsonValue, parse_json, spec_json_parse,
};
use crate::models::opt_text;
use crate::numbers::decimal_text;
use crate::state::text_or_null;
use crate::theme::{i64_text, signed_decimal};
use crate::state::{lemma_installed_round_trip, loaded_info, InstalledPorts};
use crate::text::string_of;
use crate::throttles::SyncState;
use vstd::prelude::*;

verus! {

/// The saved state, but for the window size and border.
pub struct StoredSettings {
    pub github_token: Option<String>,
    pub gitlab_token: Option<String>,
    pub installed: InstalledPorts,
    pub fullscreen: bool,
    pub active_theme: String,
    pub font_family: Option<String>,
    pub placeholder_text: String,
    pub show_clock: bool,
    pub language: String,
    pub discord_rpc_enabled: bool,
    pub sync: SyncState,
}

/// A boolean member, or `default`.
pub open spec fn flag_or(v: JsonModel, key: Seq<char>, default: bool) -> bool {
    match get_model(v, key) {
        Some(x) => match bool_of(x) {
            Some(b) => b,
            None => default,
        },
        None => default,
    }
}

/// A text member, or `default`.
pub open spec fn text_or(v: JsonModel, key: Seq<char>, default: Seq<char>) -> Seq<char> {
    match text_field(v, key) {
        Some(t) => t,
        None => default,
    }
}

/// The `ui` object of the saved state (none when absent or not an object).
pub open spec fn ui_of(root: JsonModel) -> Option<JsonModel> {
    match get_model(root, "ui"@) {
        Some(u) => if u is Object {
            Some(u)
        } else {
            None
        },
        None => None,
    }
}

/// A boolean member of `ui`, or `default`.
pub open spec fn ui_flag(root: JsonModel, key: Seq<char>, default: bool) -> bool {
    match ui_of(root) {
        Some(u) => flag_or(u, key, default),
        None => default,
    }
}

/// A text member of `ui`, or `default`.
pub open spec fn ui_text(root: JsonModel, key: Seq<char>, default: Seq<char>) -> Seq<char> {
    match ui_of(root) {
        Some(u) => text_or(u, key, default),
        None => default,
    }
}

/// The font family of `ui`, when it is a non-empty string.
pub open spec fn ui_font(root: JsonModel) -> Option<Seq<char>> {
    match ui_of(root) {
        Some(u) => match text_field(u, "font_family"@) {
            Some(f) => if f.len() > 0 {
                Some(f)
            } else {
                None
            },
            None => None,
        },
        None => None,
    }
}

/// The saved state read from `root` (see the field-by-field defaults).
pub open spec fn settings_read(s: StoredSettings, root: JsonModel) -> bool {
    let r = if root is Object {
        root
    } else {
        JsonModel::Object(Seq::empty())
    };
    &&& s.fullscreen == ui_flag(r, "fullscreen"@, false)
    &&& s.active_theme@ == ui_text(r, "theme"@, "arc-dark"@)
    &&& opt_text(s.font_family) == ui_font(r)
    &&& s.placeholder_text@ == ui_text(r, "placeholder_text"@, "Type to search..."@)
    &&& s.show_clock == ui_flag(r, "show_clock"@, true)
    &&& s.language@ == text_or(r, "language"@, Seq::empty())
    &&& s.discord_rpc_enabled == flag_or(r, "discord_rpc_enabled"@, false)
    &&& opt_text(s.github_token) == text_field(r, "github_token"@)
    &&& opt_text(s.gitlab_token) == text_field(r, "gitlab_token"@)
    &&& s.sync.release_sync == flag_or(r, "release_sync"@, true)
    &&& s.sync.last_launcher_update_check@ == text_or(r, "last_launcher_update_check"@, Seq::empty())
    &&& s.sync.launcher_update_available == flag_or(r, "launcher_update_available"@, false)
    &&& s.sync.catalog_sync == flag_or(r, "catalog_sync"@, true)
    &&& s.sync.last_catalog_check@ == text_or(r, "last_catalog_check"@, Seq::empty())
    &&& s.sync.last_catalog_etag@ == text_or(r, "last_catalog_etag"@, Seq::empty())
    &&& s.sync.last_themes_check@ == text_or(r, "last_themes_check"@, Seq::empty())
    &&& s.sync.last_themes_etag@ == text_or(r, "last_themes_etag"@, Seq::empty())
    &&& forall|k: Seq<char>|
        #[trigger] s.installed.info(k) == match get_model(r, "installed"@) {
            Some(i) => loaded_info(i, k),
            None => None,
        }
}

/// A boolean member, or `default`.
fn flag(v: &JsonValue, key: &str, default: bool) -> (r: bool)
    ensures
        r == flag_or(v.model(), key@, default),
{
    match v.get(key) {
        Some(x) => match x.as_bool() {
            Some(b) => b,
            None => default,
        },
        None => default,
    }
}

/// A text member, or `default`.
fn text(v: &JsonValue, key: &str, default: &str) -> (r: String)
    ensures
        r@ == text_or(v.model(), key@, default@),
{
    match v.text_field(key) {
        Some(t) => t.to_owned(),
        None => default.to_owned(),
    }
}

/// An optional text member.
fn opt(v: &JsonValue, key: &str) -> (r: Option<String>)
    ensures
        opt_text(r) == text_field(v.model(), key@),
{
    match v.text_field(key) {
        Some(t) => Some(t.to_owned()),
        None => None,
    }
}

/// `s` without a leading byte-order mark.
pub open spec fn without_bom(s: Seq<char>) -> Seq<char> {
    if s.len() > 0 && s[0] == '\u{feff}' {
        s.drop_first()
    } else {
        s
    }
}

/// The value the saved state is read from: the parsed text (a leading
/// byte-order mark ignored), or null when it is not JSON.
pub open spec fn state_value(text: Seq<char>) -> JsonModel {
    match spec_json_parse(without_bom(text)) {
        Some(m) => m,
        None => JsonModel::Null,
    }
}

/// The literal of a number of the `ui` object of the saved state.
pub open spec fn ui_number_of(text: Seq<char>, key: Seq<char>) -> Option<Seq<char>> {
    match ui_of(state_value(text)) {
        Some(u) => match get_model(u, key) {
            Some(JsonModel::Number(l)) => Some(l),
            _ => None,
        },
        None => None,
    }
}

/// The literal of the number `key` of the `ui` object in the text of the saved
/// state (the window size and border, which the caller reads as it can).
pub fn ui_number(text: &str, key: &str) -> (r: Option<String>)
    ensures
        opt_text(r) == ui_number_of(text@, key@),
{
    let c = crate::text::chars_of(text);
    let body = if c.len() > 0 && c[0] == '\u{feff}' {
        crate::text::slice_vec(c.as_slice(), 1, c.len())
    } else {
        c
    };
    proof {
        assert(body@ =~= without_bom(text@));
    }
    let t = string_of(body.as_slice());
    let root = match parse_json(t.as_str()) {
        Ok(v) => v,
        Err(_) => return None,
    };
    let ui = match root.get("ui") {
        Some(u) => u,
        None => return None,
    };
    if !ui.is_object() {
        return None;
    }
    match ui.get(key) {
        Some(JsonValue::Number(n)) => Some(n.literal.clone()),
        _ => None,
    }
}

impl StoredSettings {
    /// Reads the saved state from the text of `state.json` (see
    /// `settings_read`; a text that is not a JSON object gives the defaults).
    pub fn from_text(text: &str) -> (r: StoredSettings)
        ensures
            settings_read(r, state_value(text@)),
    {
        let c = crate::text::chars_of(text);
        let body = if c.len() > 0 && c[0] == '\u{feff}' {
            crate::text::slice_vec(c.as_slice(), 1, c.len())
        } else {
            c
        };
        proof {
            assert(body@ =~= without_bom(text@));
        }
        let t = string_of(body.as_slice());
        match parse_json(t.as_str()) {
            Ok(v) => StoredSettings::from_json(&v),
            Err(_) => StoredSettings::from_json(&JsonValue::Null),
        }
    }

    /// Reads the saved state from its JSON value (see `settings_read`).
    pub fn from_json(root: &JsonValue) -> (r: StoredSettings)
        ensures
            settings_read(r, root.model()),
    {
        let no_members: Vec<(String, JsonValue)> = Vec::new();
        proof {
            lemma_members_of(no_members@);
            assert(members_of(no_members@) =~= Seq::<(Seq<char>, JsonModel)>::empty());
        }
        let empty = JsonValue::Object(no_members);
        let r: &JsonValue = if root.is_object() {
            root
        } else {
            &empty
        };
        let ui: Option<&JsonValue> = match r.get("ui") {
            Some(u) => if u.is_object() {
                Some(u)
            } else {
                None
            },
            None => None,
        };
        let (fullscreen, active_theme, font_family, placeholder_text, show_clock) = match ui {
            Some(u) => {
                let font = match u.text_field("font_family") {
                    Some(f) => if f.is_empty() {
                        None
                    } else {
                        Some(f.to_owned())
                    },
                    None => None,
                };
                (
                    flag(u, "fullscreen", false),
                    text(u, "theme", "arc-dark"),
                    font,
                    text(u, "placeholder_text", "Type to search..."),
                    flag(u, "show_clock", true),
                )
            },
            None => (false, "arc-dark".to_owned(), None, "Type to search...".to_owned(), true),
        };
        let installed = match r.get("installed") {
            Some(i) => InstalledPorts::from_json(i),
            None => InstalledPorts::new(),
        };
        let sync = SyncState {
            release_sync: flag(r, "release_sync", true),
            last_launcher_update_check: text(r, "last_launcher_update_check", ""),
            launcher_update_available: flag(r, "launcher_update_available", false),
            catalog_sync: flag(r, "catalog_sync", true),
            last_catalog_check: text(r, "last_catalog_check", ""),
            last_catalog_etag: text(r, "last_catalog_etag", ""),
            last_themes_check: text(r, "last_themes_check", ""),
            last_themes_etag: text(r, "last_themes_etag", ""),
        };
        proof {
            reveal_strlit("");
        }
        let st = StoredSettings {
            github_token: opt(r, "github_token"),
            gitlab_token: opt(r, "gitlab_token"),
            installed,
            fullscreen,
            active_theme,
            font_family,
            placeholder_text,
            show_clock,
            language: text(r, "language", ""),
            discord_rpc_enabled: flag(r, "discord_rpc_enabled", false),
            sync,
        };
        proof {
            let rm = r.model();
            assert(st.fullscreen == ui_flag(rm, "fullscreen"@, false));
            assert(st.active_theme@ == ui_text(rm, "theme"@, "arc-dark"@));
            assert(opt_text(st.font_family) == ui_font(rm));
            assert(st.placeholder_text@ == ui_text(rm, "placeholder_text"@, "Type to search..."@));
            assert(st.show_clock == ui_flag(rm, "show_clock"@, true));
            assert(st.language@ == text_or(rm, "language"@, Seq::empty()));
            assert(st.sync.last_launcher_update_check@ == text_or(rm, "last_launcher_update_check"@, Seq::empty()));
            assert(st.discord_rpc_enabled == flag_or(rm, "discord_rpc_enabled"@, false));
            assert(opt_text(st.github_token) == text_field(rm, "github_token"@));
            assert(opt_text(st.gitlab_token) == text_field(rm, "gitlab_token"@));
            assert(st.sync.release_sync == flag_or(rm, "release_sync"@, true));
            assert(st.sync.launcher_update_available == flag_or(rm, "launcher_update_available"@, false));
            assert(st.sync.catalog_sync == flag_or(rm, "catalog_sync"@, true));
            assert(st.sync.last_catalog_check@ == text_or(rm, "last_catalog_check"@, Seq::empty()));
            assert(st.sync.last_catalog_etag@ == text_or(rm, "last_catalog_etag"@, Seq::empty()));
            assert(st.sync.last_themes_check@ == text_or(rm, "last_themes_check"@, Seq::empty()));
            assert(st.sync.last_themes_etag@ == text_or(rm, "last_themes_etag"@, Seq::empty()));
            assert(settings_read(st, root.model()));
            assert(rm == if root.model() is Object {
                root.model()
            } else {
                JsonModel::Object(Seq::empty())
            });
            assert(forall|k: Seq<char>|
                #[trigger] st.installed.info(k) == match get_model(rm, "installed"@) {
                    Some(i) => loaded_info(i, k),
                    None => None,
                });
        }
        st
    }
}

/// A JSON integer.
pub open spec fn int_json(n: int) -> JsonModel {
    JsonModel::Number(signed_decimal(n))
}

/// The saved form of the state, with the window size (a percentage) and the
/// border width in pixels.
pub open spec fn settings_json(s: StoredSettings, window_size: int, border: int) -> JsonModel {
    JsonModel::Object(
        seq![
            (
                "ui"@,
                JsonModel::Object(
                    seq![
                        ("fullscreen"@, JsonModel::Bool(s.fullscreen)),
                        ("theme"@, JsonModel::Text(s.active_theme@)),
                        ("font_family"@, text_or_null(opt_text(s.font_family))),
                        ("placeholder_text"@, JsonModel::Text(s.placeholder_text@)),
                        ("show_clock"@, JsonModel::Bool(s.show_clock)),
                        ("window_size"@, int_json(window_size)),
                        ("border"@, int_json(border)),
                    ],
                ),
            ),
            ("language"@, JsonModel::Text(s.language@)),
            ("discord_rpc_enabled"@, JsonModel::Bool(s.discord_rpc_enabled)),
            ("github_token"@, text_or_null(opt_text(s.github_token))),
            ("gitlab_token"@, text_or_null(opt_text(s.gitlab_token))),
            ("release_sync"@, JsonModel::Bool(s.sync.release_sync)),
            ("catalog_sync"@, JsonModel::Bool(s.sync.catalog_sync)),
            ("last_launcher_update_check"@, JsonModel::Text(s.sync.last_launcher_update_check@)),
            ("launcher_update_available"@, JsonModel::Bool(s.sync.launcher_update_available)),
            ("last_catalog_check"@, JsonModel::Text(s.sync.last_catalog_check@)),
            ("last_catalog_etag"@, JsonModel::Text(s.sync.last_catalog_etag@)),
            ("last_themes_check"@, JsonModel::Text(s.sync.last_themes_check@)),
            ("last_themes_etag"@, JsonModel::Text(s.sync.last_themes_etag@)),
            ("installed"@, JsonModel::Object(s.installed.json_members())),
        ],
    )
}

/// A JSON integer.
fn int_value(n: i64) -> (r: JsonValue)
    ensures
        r.model() == int_json(n as int),
{
    let digits = i64_text(n);
    JsonValue::Number(JsonNumber { literal: string_of(digits.as_slice()) })
}

/// An optional text as JSON.
fn text_value(t: &Option<String>) -> (r: JsonValue)
    ensures
        r.model() == text_or_null(opt_text(*t)),
{
    match t {
        Some(s) => JsonValue::String(s.clone()),
        None => JsonValue::Null,
    }
}

impl StoredSettings {
    /// The text of the settings file for these settings (see `to_json`), as
    /// `serde_json` pretty-prints it.
    pub fn to_text(&self, window_size: i64, border: i64) -> (r: String)
        ensures
            r@ == spec_json_pretty(settings_json(*self, window_size as int, border as int)),
    {
        let v = self.to_json(window_size, border);
        pretty_json(&v)
    }

    /// The saved form of the state (see `settings_json`).
    pub fn to_json(&self, window_size: i64, border: i64) -> (r: JsonValue)
        ensures
            r.model() == settings_json(*self, window_size as int, border as int),
    {
        let ui: Vec<(String, JsonValue)> = vec![
            ("fullscreen".to_owned(), JsonValue::Bool(self.fullscreen)),
            ("theme".to_owned(), JsonValue::String(self.active_theme.clone())),
            ("font_family".to_owned(), text_value(&self.font_family)),
            ("placeholder_text".to_owned(), JsonValue::String(self.placeholder_text.clone())),
            ("show_clock".to_owned(), JsonValue::Bool(self.show_clock)),
            ("window_size".to_owned(), int_value(window_size)),
            ("border".to_owned(), int_value(border)),
        ];
        proof {
            lemma_members_of(ui@);
        }
        let ui_value = JsonValue::Object(ui);
        let root: Vec<(String, JsonValue)> = vec![
            ("ui".to_owned(), ui_value),
            ("language".to_owned(), JsonValue::String(self.language.clone())),
            ("discord_rpc_enabled".to_owned(), JsonValue::Bool(self.discord_rpc_enabled)),
            ("github_token".to_owned(), text_value(&self.github_token)),
            ("gitlab_token".to_owned(), text_value(&self.gitlab_token)),
            ("release_sync".to_owned(), JsonValue::Bool(self.sync.release_sync)),
            ("catalog_sync".to_owned(), JsonValue::Bool(self.sync.catalog_sync)),
            ("last_launcher_update_check".to_owned(), JsonValue::String(self.sync.last_launcher_update_check.clone())),
            ("launcher_update_available".to_owned(), JsonValue::Bool(self.sync.launcher_update_available)),
            ("last_catalog_check".to_owned(), JsonValue::String(self.sync.last_catalog_check.clone())),
            ("last_catalog_etag".to_owned(), JsonValue::String(self.sync.last_catalog_etag.clone())),
            ("last_themes_check".to_owned(), JsonValue::String(self.sync.last_themes_check.clone())),
            ("last_themes_etag".to_owned(), JsonValue::String(self.sync.last_themes_etag.clone())),
            ("installed".to_owned(), self.installed.to_json()),
        ];
        proof {
            lemma_members_of(root@);
        }
        let r = JsonValue::Object(root);
        proof {
            assert(members_of(ui@) =~= seq![
                ("fullscreen"@, JsonModel::Bool(self.fullscreen)),
                ("theme"@, JsonModel::Text(self.active_theme@)),
                ("font_family"@, text_or_null(opt_text(self.font_family))),
                ("placeholder_text"@, JsonModel::Text(self.placeholder_text@)),
                ("show_clock"@, JsonModel::Bool(self.show_clock)),
                ("window_size"@, int_json(window_size as int)),
                ("border"@, int_json(border as int)),
            ]);
            assert(members_of(root@) =~= match settings_json(*self, window_size as int, border as int) {
                JsonModel::Object(m) => m,
                _ => Seq::empty(),
            });
        }
        r
    }
}

/// The saved state reads back as the state that was saved (a font family,
/// when set, is not empty: an empty one reads back as none).
pub proof fn lemma_settings_round_trip(s: StoredSettings, window_size: int, border: int)
    requires
        s.font_family matches Some(f) ==> f@.len() > 0,
    ensures
        settings_read(s, settings_json(s, window_size, border)),
{
    reveal_strlit("ui");
    reveal_strlit("language");
    reveal_strlit("discord_rpc_enabled");
    reveal_strlit("github_token");
    reveal_strlit("gitlab_token");
    reveal_strlit("release_sync");
    reveal_strlit("catalog_sync");
    reveal_strlit("last_launcher_update_check");
    reveal_strlit("launcher_update_available");
    reveal_strlit("last_catalog_check");
    reveal_strlit("last_catalog_etag");
    reveal_strlit("last_themes_check");
    reveal_strlit("last_themes_etag");
    reveal_strlit("installed");
    reveal_strlit("fullscreen");
    reveal_strlit("theme");
    reveal_strlit("font_family");
    reveal_strlit("placeholder_text");
    reveal_strlit("show_clock");
    reveal_strlit("window_size");
    reveal_strlit("border");
    let root = settings_json(s, window_size, border);
    let m = match root {
        JsonModel::Object(m) => m,
        _ => Seq::empty(),
    };
    let u = m[0].1;
    let um = match u {
        JsonModel::Object(x) => x,
        _ => Seq::empty(),
    };
    assert("ui"@.len() == 2);
    assert("language"@.len() == 8);
    assert("discord_rpc_enabled"@.len() == 19);
    assert("github_token"@.len() == 12);
    assert("gitlab_token"@.len() == 12);
    assert("release_sync"@.len() == 12);
    assert("catalog_sync"@.len() == 12);
    assert("last_launcher_update_check"@.len() == 26);
    assert("launcher_update_available"@.len() == 25);
    assert("last_catalog_check"@.len() == 18);
    assert("last_catalog_etag"@.len() == 17);
    assert("last_themes_check"@.len() == 17);
    assert("last_themes_etag"@.len() == 16);
    assert("installed"@.len() == 9);
    assert("fullscreen"@.len() == 10);
    assert("theme"@.len() == 5);
    assert("font_family"@.len() == 11);
    assert("placeholder_text"@.len() == 16);
    assert("show_clock"@.len() == 10);
    assert("window_size"@.len() == 11);
    assert("border"@.len() == 6);
    assert("github_token"@[3] != "gitlab_token"@[3]);
    assert("github_token"@[0] != "release_sync"@[0]);
    assert("github_token"@[0] != "catalog_sync"@[0]);
    assert("gitlab_token"@[0] != "release_sync"@[0]);
    assert("gitlab_token"@[0] != "catalog_sync"@[0]);
    assert("release_sync"@[0] != "catalog_sync"@[0]);
    assert("last_catalog_etag"@[5] != "last_themes_check"@[5]);
    assert("fullscreen"@[0] != "show_clock"@[0]);
    assert("font_family"@[0] != "window_size"@[0]);
    lemma_member_first(m, "ui"@, 0);
    lemma_member_first(m, "language"@, 1);
    lemma_member_first(m, "discord_rpc_enabled"@, 2);
    lemma_member_first(m, "github_token"@, 3);
    lemma_member_first(m, "gitlab_token"@, 4);
    lemma_member_first(m, "release_sync"@, 5);
    lemma_member_first(m, "catalog_sync"@, 6);
    lemma_member_first(m, "last_launcher_update_check"@, 7);
    lemma_member_first(m, "launcher_update_available"@, 8);
    lemma_member_first(m, "last_catalog_check"@, 9);
    lemma_member_first(m, "last_catalog_etag"@, 10);
    lemma_member_first(m, "last_themes_check"@, 11);
    lemma_member_first(m, "last_themes_etag"@, 12);
    lemma_member_first(m, "installed"@, 13);
    lemma_member_first(um, "fullscreen"@, 0);
    lemma_member_first(um, "theme"@, 1);
    lemma_member_first(um, "font_family"@, 2);
    lemma_member_first(um, "placeholder_text"@, 3);
    lemma_member_first(um, "show_clock"@, 4);
    assert forall|k: Seq<char>|
        #[trigger] s.installed.info(k) == match get_model(root, "installed"@) {
            Some(i) => loaded_info(i, k),
            None => None,
        } by {
        lemma_installed_round_trip(s.installed, k);
    }
}

} // verus!
