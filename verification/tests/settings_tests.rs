use ports_launcher::info_dialog::{first_enabled, info_buttons_enabled, version_status, InfoFacts, VersionStatus};
use ports_launcher::json::{JsonNumber, JsonValue};
use ports_launcher::models::{port_from_value, SourceType};
use ports_launcher::settings::StoredSettings;
use ports_launcher::state::InstalledInfo;

fn s(x: &str) -> JsonValue {
    JsonValue::String(x.to_string())
}

fn obj(members: Vec<(&str, JsonValue)>) -> JsonValue {
    JsonValue::Object(members.into_iter().map(|(k, v)| (k.to_string(), v)).collect())
}

#[test]
fn fichier_corrompu_repart_sur_un_etat_par_defaut() {
    let st = StoredSettings::from_json(&JsonValue::Null);
    assert!(!st.fullscreen);
    assert_eq!(st.active_theme, "arc-dark");
    assert_eq!(st.placeholder_text, "Type to search...");
    assert!(st.show_clock);
    assert!(st.sync.release_sync);
    assert!(st.sync.catalog_sync);
    assert!(st.installed.get("x").is_none());
}

#[test]
fn reglages_ui_aller_retour() {
    let root = obj(vec![
        ("ui", obj(vec![("theme", s("night")), ("show_clock", JsonValue::Bool(false)), ("font_family", s(""))])),
        ("github_token", s("tok")),
        ("release_sync", JsonValue::Bool(false)),
        ("installed", obj(vec![("o/r", obj(vec![("installed_tag", s("v1"))]))])),
    ]);
    let st = StoredSettings::from_json(&root);
    assert_eq!(st.active_theme, "night");
    assert!(!st.show_clock);
    assert_eq!(st.font_family, None);
    assert_eq!(st.github_token.as_deref(), Some("tok"));
    assert!(!st.sync.release_sync);
    assert_eq!(st.installed.get("o/r").unwrap().installed_tag.as_deref(), Some("v1"));
    let saved = st.to_json(45, 3);
    let back = StoredSettings::from_json(&saved);
    assert_eq!(back.active_theme, "night");
    assert!(!back.show_clock);
    assert_eq!(back.github_token.as_deref(), Some("tok"));
    assert!(!back.sync.release_sync);
    assert_eq!(back.installed.get("o/r").unwrap().installed_tag.as_deref(), Some("v1"));
    let ui = saved.get("ui").unwrap();
    assert_eq!(ui.get("window_size"), Some(&JsonValue::Number(JsonNumber { literal: "45".to_string() })));
    assert_eq!(ui.get("border"), Some(&JsonValue::Number(JsonNumber { literal: "3".to_string() })));
}

#[test]
fn ligne_de_version_du_dialogue_d_info() {
    let mut info = InstalledInfo::default();
    assert_eq!(version_status(SourceType::Github, None), VersionStatus::NotInstalled);
    assert_eq!(version_status(SourceType::Github, Some(&info)), VersionStatus::UnknownGithub);
    assert_eq!(version_status(SourceType::Gitlab, Some(&info)), VersionStatus::UnknownGitlab);
    assert_eq!(version_status(SourceType::DirectUrl, Some(&info)), VersionStatus::NoTracking);
    info.installed_tag = Some("v3".to_string());
    assert_eq!(version_status(SourceType::Gitlab, Some(&info)), VersionStatus::Tag("v3".to_string()));
}

#[test]
fn boutons_du_dialogue_d_info() {
    let port = port_from_value(&obj(vec![
        ("name", s("n")),
        ("folder", s("f")),
        ("source", s("https://github.com/o/p")),
        ("mods", s("ftp://mods")),
    ]))
    .unwrap();
    let facts = InfoFacts { installed: true, has_files: true, save_exists: false, save2_exists: true };
    let enabled = info_buttons_enabled(&port, 0, facts);
    assert_eq!(enabled, [true, true, true, false, false, true, false, true, false, true]);
    assert_eq!(first_enabled(&enabled), 0);
    let none = InfoFacts { installed: false, has_files: false, save_exists: false, save2_exists: false };
    let local = port_from_value(&obj(vec![("name", s("n")), ("folder", s("f"))])).unwrap();
    let enabled = info_buttons_enabled(&local, 10, none);
    assert_eq!(enabled, [false; 10]);
    assert_eq!(first_enabled(&enabled), 0);
    let mut some = [false; 10];
    some[6] = true;
    assert_eq!(first_enabled(&some), 6);
}

#[test]
fn etat_lu_depuis_son_texte() {
    let st = StoredSettings::from_text("\u{feff}{\"ui\": {\"theme\": \"night\"}, \"language\": \"fr\"}");
    assert_eq!(st.active_theme, "night");
    assert_eq!(st.language, "fr");
    let broken = StoredSettings::from_text("{ceci n'est pas du json valide");
    assert_eq!(broken.active_theme, "arc-dark");
    assert!(broken.installed.get("x").is_none());
    let saved = "{\"installed\": {\"o/r\": {\"playtime_seconds\": 150, \"update\": false}}}";
    let st = StoredSettings::from_text(saved);
    let info = st.installed.get("o/r").unwrap();
    assert_eq!(info.playtime_seconds, 150);
    assert!(!info.update);
}

#[test]
fn etat_ecrit_puis_relu_depuis_son_texte() {
    let st = StoredSettings::from_text(
        "{\"ui\": {\"theme\": \"night\", \"show_clock\": false}, \"github_token\": \"tok\", \
         \"installed\": {\"o/r\": {\"installed_tag\": \"v1\", \"playtime_seconds\": 42}}}",
    );
    let text = st.to_text(45, 3);
    assert!(text.starts_with("{\n  \"ui\": {\n"));
    assert!(text.contains("\"window_size\": 45"));
    assert!(text.contains("\"border\": 3"));
    let back = StoredSettings::from_text(&text);
    assert_eq!(back.active_theme, "night");
    assert!(!back.show_clock);
    assert_eq!(back.github_token.as_deref(), Some("tok"));
    let info = back.installed.get("o/r").unwrap();
    assert_eq!(info.installed_tag.as_deref(), Some("v1"));
    assert_eq!(info.playtime_seconds, 42);
}
