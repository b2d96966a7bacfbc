use ports_launcher::jobs::{play_update_check, play_update_check_at, update_decision};
use ports_launcher::models::SourceType;
use ports_launcher::state::InstalledInfo;

#[test]
fn tag_identique_sans_date_plus_recente_pas_de_maj() {
    assert!(!update_decision(Some("v1.0"), "2026-02-01T00:00:00Z", "v1.0", Some("2026-01-01T00:00:00Z")));
}

#[test]
fn tag_identique_avec_date_plus_recente_signale_une_maj() {
    assert!(update_decision(Some("latest"), "2026-01-01T00:00:00Z", "latest", Some("2026-02-01T00:00:00Z")));
}

#[test]
fn tag_different_signale_une_maj_meme_sans_date() {
    assert!(update_decision(Some("v1.0"), "2026-01-01T00:00:00Z", "v2.0", None));
}

#[test]
fn tag_inconnu_sans_date_plus_recente_pas_de_maj() {
    assert!(!update_decision(None, "2026-01-01T00:00:00Z", "v1.0", Some("2025-12-01T00:00:00Z")));
    assert!(!update_decision(None, "2026-01-01T00:00:00Z", "v1.0", None));
}

#[test]
fn tag_inconnu_avec_date_plus_recente_signale_une_maj() {
    assert!(update_decision(None, "2026-01-01T00:00:00Z", "v1.0", Some("2026-02-01T00:00:00Z")));
}

#[test]
fn meme_date_n_est_pas_plus_recente() {
    assert!(!update_decision(Some("v1"), "2026-01-01T00:00:00Z", "v1", Some("2026-01-01T00:00:00Z")));
}

#[test]
fn verification_avant_de_jouer_seulement_si_voulue() {
    use_play_update_check();
}

fn use_play_update_check() {
    let mut info = InstalledInfo::default();
    info.installed_tag = Some("v1".to_string());
    assert_eq!(play_update_check(true, SourceType::Github, Some(&info)), Some((Some("v1".to_string()), String::new())));
    assert_eq!(play_update_check(true, SourceType::Gitlab, None), Some((None, String::new())));
    assert_eq!(play_update_check(false, SourceType::Github, Some(&info)), None);
    assert_eq!(play_update_check(true, SourceType::DirectUrl, Some(&info)), None);
    info.update = false;
    assert_eq!(play_update_check(true, SourceType::Github, Some(&info)), None);
    let mut fresh = InstalledInfo::default();
    fresh.installed_at = "2999-01-01T00:00:00Z".to_string();
    assert_eq!(play_update_check(true, SourceType::Github, Some(&fresh)), None);
}

#[test]
fn installation_recente_pas_de_verification_avant_de_jouer() {
    // 2026-01-01T00:00:00Z
    let now = (1_767_225_600, 0);
    let mut info = InstalledInfo::default();
    info.installed_tag = Some("v1".to_string());
    info.installed_at = "2025-12-31T12:00:00Z".to_string();
    assert_eq!(play_update_check_at(true, SourceType::Github, Some(&info), now), None);
    info.installed_at = "2025-12-31T00:00:00Z".to_string();
    assert_eq!(
        play_update_check_at(true, SourceType::Github, Some(&info), now),
        Some((Some("v1".to_string()), "2025-12-31T00:00:00Z".to_string()))
    );
    assert_eq!(play_update_check_at(false, SourceType::Github, Some(&info), now), None);
    info.installed_at = "jamais".to_string();
    assert_eq!(
        play_update_check_at(true, SourceType::Gitlab, Some(&info), now),
        Some((Some("v1".to_string()), "jamais".to_string()))
    );
    assert_eq!(play_update_check_at(true, SourceType::Gitlab, None, now), Some((None, String::new())));
}
