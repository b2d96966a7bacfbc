use ports_launcher::asset_select::{
    asset_name, has_archive_extension, is_arch64_hint, is_bad_hint, os_hint_matches, pick_asset, pick_asset_for,
    AssetSelectionError,
};
use ports_launcher::json::JsonValue;

fn asset(name: &str) -> JsonValue {
    JsonValue::Object(vec![("name".to_string(), JsonValue::String(name.to_string()))])
}

fn chars(s: &str) -> Vec<char> {
    s.chars().collect()
}

#[test]
fn un_seul_asset_est_retourne_direct() {
    let assets = vec![asset("anything-mac.dmg")];
    assert!(pick_asset_for(&assets, None, "windows").is_ok());
    assert!(pick_asset(&assets, None).is_ok());
}

#[test]
fn filtre_os_rejet_et_extension() {
    let assets = vec![
        asset("port-windows.zip"),
        asset("port-source-code.zip"),
        asset("port-macos.dmg"),
        asset("port-linux.zip"),
    ];
    let picked = pick_asset_for(&assets, None, "windows").unwrap();
    assert_eq!(asset_name(&picked), "port-windows.zip");
    let picked = pick_asset(&assets, None).unwrap();
    assert_eq!(asset_name(&picked), "port-linux.zip");
}

#[test]
fn tie_break_64_bit_avec_exactement_un_match() {
    let assets = vec![asset("pd-i686-windows.zip"), asset("pd-x86_64-windows.zip")];
    let picked = pick_asset_for(&assets, None, "windows").unwrap();
    assert_eq!(asset_name(&picked), "pd-x86_64-windows.zip");
}

#[test]
fn win32_win64_restent_ambigus_car_aucun_ne_matche_arch64_hint() {
    let assets = vec![asset("port-win32.zip"), asset("port-win64.zip")];
    assert!(matches!(pick_asset_for(&assets, None, "windows"), Err(AssetSelectionError::Ambiguous(_, _))));
}

#[test]
fn erreur_ambigue_si_toujours_plusieurs_candidats() {
    let assets = vec![asset("port-windows-a.zip"), asset("port-windows-b.zip")];
    match pick_asset_for(&assets, None, "windows") {
        Err(AssetSelectionError::Ambiguous(m, a)) => {
            assert_eq!(a.len(), 2);
            assert_eq!(m, "Couldn't automatically determine which file to download. Please choose one manually.");
        }
        other => panic!("attendu Ambiguous, obtenu {other:?}"),
    }
}

#[test]
fn liste_vide_est_une_erreur() {
    match pick_asset(&[], None) {
        Err(AssetSelectionError::Message(m)) => assert_eq!(m, "This release doesn't contain any downloadable file."),
        other => panic!("attendu Message, obtenu {other:?}"),
    }
}

#[test]
fn asset_sans_nom_est_ignore_pas_fatal() {
    let assets = vec![JsonValue::Object(vec![("no_name_field".to_string(), JsonValue::Bool(true))]), asset("port-windows.zip")];
    let picked = pick_asset_for(&assets, None, "windows").unwrap();
    assert_eq!(asset_name(&picked), "port-windows.zip");
}

#[test]
fn preferred_asset_court_circuite_l_heuristique_os() {
    let assets =
        vec![asset("SRB2-2.2.15-macOS-Installer.dmg"), asset("SRB2-v2215-Full.zip"), asset("SRB2-v2215-Installer.exe")];
    let picked = pick_asset_for(&assets, Some("Full.zip"), "windows").unwrap();
    assert_eq!(asset_name(&picked), "SRB2-v2215-Full.zip");
}

#[test]
fn preferred_asset_insensible_a_la_casse() {
    let assets = vec![asset("SRB2-v2215-Full.zip"), asset("SRB2-v2215-Installer.exe")];
    let picked = pick_asset_for(&assets, Some("full.ZIP"), "windows").unwrap();
    assert_eq!(asset_name(&picked), "SRB2-v2215-Full.zip");
}

#[test]
fn preferred_asset_sans_correspondance_est_une_erreur_claire() {
    let assets = vec![asset("SRB2-v2215-Full.zip")];
    match pick_asset_for(&assets, Some("Portable.zip"), "windows") {
        Err(AssetSelectionError::Message(m)) => {
            assert_eq!(m, "No release file matches \"Portable.zip\" (see \"preferred_asset\" for this port).")
        }
        other => panic!("attendu Message, obtenu {other:?}"),
    }
}

#[test]
fn preferred_asset_avec_plusieurs_correspondances_reste_ambigu() {
    let assets = vec![asset("Game-Full-x86.zip"), asset("Game-Full-x64.zip")];
    match pick_asset_for(&assets, Some("Full"), "windows") {
        Err(AssetSelectionError::Ambiguous(m, a)) => {
            assert_eq!(a.len(), 2);
            assert_eq!(m, "Multiple release files match \"Full\" -- please choose one manually.");
        }
        other => panic!("attendu Ambiguous, obtenu {other:?}"),
    }
}

#[test]
fn linux_arm64_retombe_sur_le_seul_fichier_linux() {
    let assets = vec![asset("game-linux.AppImage.tar.xz"), asset("game-windows.zip")];
    let picked = pick_asset_for(&assets, None, "linux_arm64").unwrap();
    assert_eq!(asset_name(&picked), "game-linux.AppImage.tar.xz");
}

#[test]
fn indices_de_nom() {
    assert!(os_hint_matches("windows", &chars("game-win64.zip")));
    assert!(os_hint_matches("linux_arm64", &chars("game-linux-aarch64.zip")));
    assert!(!os_hint_matches("linux_arm64", &chars("game-linux-x64.zip")));
    assert!(!os_hint_matches("haiku", &chars("game-haiku.zip")));
    assert!(is_bad_hint(&chars("source_code.zip")));
    assert!(is_bad_hint(&chars("game.deb")));
    assert!(!is_bad_hint(&chars("game-linux.zip")));
    assert!(has_archive_extension(&chars("game.appimage")));
    assert!(!has_archive_extension(&chars("game.txt")));
    assert!(is_arch64_hint(&chars("game-amd64.zip")));
    assert!(!is_arch64_hint(&chars("game-i686.zip")));
}
