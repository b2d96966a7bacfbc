use ports_launcher::json::{JsonNumber, JsonValue};
use ports_launcher::settings::StoredSettings;
use ports_launcher::state::{InstalledInfo, InstalledPorts};
use ports_launcher::throttles::{is_older_than_at, is_stale_for_update_check, is_stale_for_update_check_at, SyncState};

const NOW: &str = "2026-01-01T00:00:00Z";

fn reload(p: &InstalledPorts) -> InstalledPorts {
    InstalledPorts::from_json(&p.to_json())
}

#[test]
fn mark_installed_puis_removed_persiste() {
    let mut state = InstalledPorts::new();
    state.mark_installed("owner/repo", Some("v1.0".to_string()), NOW);
    let reloaded = reload(&state);
    assert_eq!(reloaded.get("owner/repo").unwrap().installed_tag.as_deref(), Some("v1.0"));
    state.mark_removed("owner/repo");
    assert!(reload(&state).get("owner/repo").is_none());
}

#[test]
fn set_favorite_exe_persiste() {
    let mut state = InstalledPorts::new();
    state.mark_installed("owner/repo", Some("v1.0".to_string()), NOW);
    state.set_favorite_exe("owner/repo", Some("bin/game.exe".to_string()), NOW);
    assert_eq!(reload(&state).get("owner/repo").unwrap().favorite_exe.as_deref(), Some("bin/game.exe"));
    state.set_favorite_exe("owner/repo", None, NOW);
    assert!(reload(&state).get("owner/repo").unwrap().favorite_exe.is_none());
}

#[test]
fn mark_installed_preserve_favori_update_et_temps_de_jeu() {
    let mut state = InstalledPorts::new();
    state.mark_installed("owner/repo", Some("v1.0".to_string()), NOW);
    state.set_favorite_exe("owner/repo", Some("bin/game.exe".to_string()), NOW);
    state.set_port_update("owner/repo", false, NOW);
    state.add_playtime("owner/repo", 150);
    state.mark_installed("owner/repo", Some("v2.0".to_string()), "2026-02-01T00:00:00Z");
    let info = state.get("owner/repo").unwrap();
    assert_eq!(info.installed_tag.as_deref(), Some("v2.0"));
    assert_eq!(info.installed_at, "2026-02-01T00:00:00Z");
    assert_eq!(info.favorite_exe.as_deref(), Some("bin/game.exe"));
    assert!(!info.update);
    assert_eq!(info.playtime_seconds, 150);
}

#[test]
fn update_vrai_par_defaut_apres_install() {
    let mut state = InstalledPorts::new();
    state.mark_installed("owner/repo", Some("v1.0".to_string()), NOW);
    assert!(state.get("owner/repo").unwrap().update);
}

#[test]
fn set_port_update_persiste() {
    let mut state = InstalledPorts::new();
    state.mark_installed("owner/repo", Some("v1.0".to_string()), NOW);
    state.set_port_update("owner/repo", false, NOW);
    assert!(!reload(&state).get("owner/repo").unwrap().update);
}

#[test]
fn add_playtime_cumule() {
    let mut state = InstalledPorts::new();
    state.mark_installed("owner/repo", Some("v1.0".to_string()), NOW);
    state.add_playtime("owner/repo", 120);
    state.add_playtime("owner/repo", 30);
    assert_eq!(state.get("owner/repo").unwrap().playtime_seconds, 150);
}

#[test]
fn add_playtime_sans_effet_si_port_non_suivi() {
    let mut state = InstalledPorts::new();
    state.add_playtime("owner/repo", 120);
    assert!(state.get("owner/repo").is_none());
}

#[test]
fn reset_playtime_persiste() {
    let mut state = InstalledPorts::new();
    state.mark_installed("owner/repo", Some("v1.0".to_string()), NOW);
    state.add_playtime("owner/repo", 3600);
    state.reset_playtime("owner/repo");
    assert_eq!(reload(&state).get("owner/repo").unwrap().playtime_seconds, 0);
}

#[test]
fn mark_played_cree_l_entree_et_date_le_jeu() {
    let mut state = InstalledPorts::new();
    state.mark_played("local-game", "2026-03-01T10:00:00Z");
    let info = state.get("local-game").unwrap();
    assert_eq!(info.last_played_at, "2026-03-01T10:00:00Z");
    assert_eq!(info.installed_at, "2026-03-01T10:00:00Z");
    assert!(info.update);
}

#[test]
fn un_enregistrement_relu_est_identique() {
    let info = InstalledInfo {
        installed_tag: None,
        installed_at: "a".to_string(),
        favorite_exe: Some("f".to_string()),
        update: false,
        playtime_seconds: 18446744073709551615,
        last_played_at: "l".to_string(),
    };
    let back = InstalledInfo::from_json(&info.to_json());
    assert_eq!(back.installed_tag, None);
    assert_eq!(back.installed_at, "a");
    assert_eq!(back.favorite_exe.as_deref(), Some("f"));
    assert!(!back.update);
    assert_eq!(back.playtime_seconds, 18446744073709551615);
    assert_eq!(back.last_played_at, "l");
}

#[test]
fn champs_absents_ou_mal_types_prennent_leur_defaut() {
    let v = JsonValue::Object(vec![
        ("update".to_string(), JsonValue::String("yes".to_string())),
        ("playtime_seconds".to_string(), JsonValue::Number(JsonNumber { literal: "-5".to_string() })),
    ]);
    let info = InstalledInfo::from_json(&v);
    assert!(info.update);
    assert_eq!(info.playtime_seconds, 0);
    assert_eq!(info.installed_at, "");
    let d = InstalledInfo::default();
    assert!(d.update);
    assert_eq!(d.playtime_seconds, 0);
}

#[test]
fn installed_ignore_les_entrees_non_objet() {
    let v = JsonValue::Object(vec![
        ("a".to_string(), JsonValue::Object(vec![])),
        ("b".to_string(), JsonValue::Bool(true)),
    ]);
    let p = InstalledPorts::from_json(&v);
    assert!(p.get("a").is_some());
    assert!(p.get("b").is_none());
    assert!(InstalledPorts::from_json(&JsonValue::Null).get("a").is_none());
}

#[test]
fn date_illisible_est_toujours_perimee() {
    assert!(is_stale_for_update_check(""));
    assert!(is_stale_for_update_check("not a date"));
    assert!(is_stale_for_update_check("2000-01-01T00:00:00Z"));
}

#[test]
fn anciennete_mesuree_a_la_nanoseconde() {
    let now = (1767225600, 0);
    assert!(is_older_than_at("2025-12-31T00:00:00Z", 24, now));
    assert!(!is_older_than_at("2025-12-31T00:00:01Z", 24, now));
    assert!(is_older_than_at("2025-12-31T12:00:00+00:00", 12, now));
    assert!(is_older_than_at("2026-01-01T00:00:00+01:00", 1, now));
    assert!(!is_older_than_at("2026-01-01T00:00:00+01:00", 2, now));
    assert!(is_older_than_at("garbage", 24, now));
}

fn sync() -> SyncState {
    SyncState {
        release_sync: true,
        last_launcher_update_check: String::new(),
        launcher_update_available: false,
        catalog_sync: true,
        last_catalog_check: String::new(),
        last_catalog_etag: String::new(),
        last_themes_check: String::new(),
        last_themes_etag: String::new(),
    }
}

#[test]
fn launcher_jamais_verifie_ne_declenche_pas() {
    assert!(!sync().should_check_launcher_update());
}

#[test]
fn launcher_verifie_il_y_a_longtemps_declenche() {
    let now = (1767225600, 0);
    let mut state = sync();
    state.mark_launcher_update_check("2025-12-30T00:00:00Z".to_string());
    assert!(state.should_check_launcher_update_at(now));
    state.release_sync = false;
    assert!(!state.should_check_launcher_update_at(now));
    state.release_sync = true;
    state.launcher_update_available = true;
    assert!(!state.should_check_launcher_update_at(now));
}

#[test]
fn catalogue_et_themes_selon_leur_intervalle() {
    let now = (1767225600, 0);
    let mut state = sync();
    assert!(state.should_check_catalog());
    state.mark_catalog_check("2025-12-31T20:00:00Z".to_string(), "e1".to_string());
    assert!(!state.should_check_catalog_at(now));
    assert_eq!(state.last_catalog_etag, "e1");
    state.mark_themes_check("2025-12-31T00:00:00Z".to_string(), "t1".to_string());
    assert!(state.should_check_themes_at(now));
    state.catalog_sync = false;
    assert!(!state.should_check_catalog());
    assert!(!state.should_check_themes_at(now));
}

#[test]
fn is_stale_for_update_check_vide_ou_ancien() {
    let hours_ago = |h: i64| (chrono::Utc::now() - chrono::Duration::hours(h)).to_rfc3339();
    assert!(is_stale_for_update_check(""));
    assert!(is_stale_for_update_check(&hours_ago(25)));
    assert!(!is_stale_for_update_check(&hours_ago(1)));
}

fn reload_settings(s: &StoredSettings) -> StoredSettings {
    StoredSettings::from_json(&s.to_json(30, 1))
}

#[test]
fn throttles_release_sync_vrai_par_defaut_et_persiste() {
    let mut state = StoredSettings::from_json(&JsonValue::Null);
    assert!(state.sync.release_sync);
    state.sync.release_sync = false;
    assert!(!reload_settings(&state).sync.release_sync);
}

#[test]
fn state_release_sync_vrai_par_defaut_et_persiste() {
    let mut state = StoredSettings::from_json(&JsonValue::Null);
    assert!(state.sync.release_sync);
    state.sync.release_sync = false;
    let reloaded = reload_settings(&state);
    assert!(!reloaded.sync.release_sync);
}

#[test]
fn mark_catalog_check_persiste_l_etag() {
    let mut state = StoredSettings::from_json(&JsonValue::Null);
    state.sync.mark_catalog_check(NOW.to_string(), "\"abc\"".to_string());
    let reloaded = reload_settings(&state);
    assert_eq!(reloaded.sync.last_catalog_etag, "\"abc\"");
    assert!(!reloaded.sync.last_catalog_check.is_empty());
}

fn now_text() -> String {
    chrono::Utc::now().format("%Y-%m-%dT%H:%M:%SZ").to_string()
}

fn hours_ago(h: i64) -> String {
    (chrono::Utc::now() - chrono::Duration::hours(h)).to_rfc3339()
}

#[test]
fn launcher_verifie_recemment_ne_declenche_pas() {
    let mut state = sync();
    state.mark_launcher_update_check(now_text());
    assert!(!state.should_check_launcher_update());
}

#[test]
fn launcher_update_available_persiste() {
    let mut state = StoredSettings::from_json(&JsonValue::Null);
    state.sync.launcher_update_available = true;
    assert!(reload_settings(&state).sync.launcher_update_available);
}

#[test]
fn catalogue_jamais_verifie_declenche() {
    assert!(StoredSettings::from_json(&JsonValue::Null).sync.should_check_catalog());
}

#[test]
fn catalogue_verifie_recemment_ne_declenche_pas() {
    let mut state = sync();
    state.mark_catalog_check(now_text(), "\"abc123\"".to_string());
    assert!(!state.should_check_catalog());
}

#[test]
fn catalogue_ancien_declenche_sauf_si_desactive() {
    let mut state = sync();
    state.last_catalog_check = hours_ago(25);
    assert!(state.should_check_catalog());
    state.catalog_sync = false;
    assert!(!state.should_check_catalog());
}

#[test]
fn catalog_sync_vrai_par_defaut() {
    assert!(StoredSettings::from_json(&JsonValue::Null).sync.catalog_sync);
}

#[test]
fn mark_catalog_check_puis_sauvegarde_recharge_l_etag() {
    let mut state = StoredSettings::from_json(&JsonValue::Null);
    state.sync.mark_catalog_check(now_text(), "\"abc123\"".to_string());
    let reloaded = reload_settings(&state);
    assert_eq!(reloaded.sync.last_catalog_etag, "\"abc123\"");
    assert!(!reloaded.sync.last_catalog_check.is_empty());
}

#[test]
fn mark_installed_preserve_favorite_exe_existant() {
    let mut state = InstalledPorts::new();
    state.mark_installed("owner/repo", Some("v1.0".to_string()), NOW);
    state.set_favorite_exe("owner/repo", Some("bin/game.exe".to_string()), NOW);
    state.mark_installed("owner/repo", Some("v2.0".to_string()), NOW);
    assert_eq!(state.get("owner/repo").unwrap().favorite_exe.as_deref(), Some("bin/game.exe"));
}

/// 2026-01-01T00:00:00Z, in seconds since the epoch.
const NOW_SECS: i64 = 1_767_225_600;

#[test]
fn controle_de_mise_a_jour_apres_un_jour() {
    let now = (NOW_SECS, 0);
    assert!(is_stale_for_update_check_at("", now));
    assert!(is_stale_for_update_check_at("n'importe quoi", now));
    assert!(is_stale_for_update_check_at("2025-12-31T00:00:00Z", now));
    assert!(is_stale_for_update_check_at("2025-12-31T02:00:00+02:00", now));
    assert!(!is_stale_for_update_check_at("2025-12-31T00:00:01Z", now));
    assert!(!is_stale_for_update_check_at("2025-12-31T23:00:00Z", now));
    assert!(!is_stale_for_update_check_at("2025-12-31T00:00:00Z", (NOW_SECS - 1, 999_999_999)));
}

#[test]
fn ports_trouves_sur_le_disque_adoptes() {
    let mut state = InstalledPorts::new();
    state.mark_installed("a/known", Some("v2".to_string()), "2025-06-01T00:00:00Z");
    let keys = vec!["a/known".to_string(), "b/found".to_string(), "c/absent".to_string()];
    state.adopt_found(&keys, &[true, true, false], NOW);
    let known = state.get("a/known").unwrap();
    assert_eq!(known.installed_tag.as_deref(), Some("v2"));
    assert_eq!(known.installed_at, "2025-06-01T00:00:00Z");
    let found = state.get("b/found").unwrap();
    assert_eq!(found.installed_tag, None);
    assert_eq!(found.installed_at, NOW);
    assert!(state.get("c/absent").is_none());
}

#[test]
fn installation_d_une_version_choisie_coupe_les_mises_a_jour() {
    let mut state = InstalledPorts::new();
    state.set_favorite_exe("o/r", Some("game.exe".to_string()), "2025-01-01T00:00:00Z");
    state.record_install("o/r", Some("v3".to_string()), true, NOW);
    let info = state.get("o/r").unwrap();
    assert_eq!(info.installed_tag.as_deref(), Some("v3"));
    assert_eq!(info.installed_at, NOW);
    assert!(!info.update);
    assert_eq!(info.favorite_exe.as_deref(), Some("game.exe"));
    state.record_install("x/y", None, false, NOW);
    let other = state.get("x/y").unwrap();
    assert!(other.update);
    assert_eq!(other.installed_tag, None);
    assert!(!state.get("o/r").unwrap().update);
}
