use ports_launcher::executable::{autodetect_executable, is_candidate_path, resolve_executable, ExecutableSelectionError};
use ports_launcher::json::{JsonNumber, JsonValue};

fn files(names: &[&str]) -> Vec<String> {
    names.iter().map(|n| n.to_string()).collect()
}

#[test]
fn executable_detect_autodetect_un_seul_candidat() {
    let found = autodetect_executable("/lib/game", &files(&["/lib/game/game.exe", "/lib/game/data.pak"])).unwrap();
    assert_eq!(found, "/lib/game/game.exe");
}

#[test]
fn platform_utils_autodetect_un_seul_candidat() {
    let found = autodetect_executable("/lib/game", &files(&["/lib/game/game.exe", "/lib/game/data.pak"])).unwrap();
    assert_eq!(found, "/lib/game/game.exe");
}

#[test]
fn executable_detect_autodetect_exclut_les_desinstalleurs() {
    let found = autodetect_executable("/lib/game", &files(&["/lib/game/unins000.exe", "/lib/game/game.exe"])).unwrap();
    assert_eq!(found, "/lib/game/game.exe");
}

#[test]
fn platform_utils_autodetect_exclut_les_desinstalleurs() {
    let found = autodetect_executable("/lib/game", &files(&["/lib/game/unins000.exe", "/lib/game/game.exe"])).unwrap();
    assert_eq!(found, "/lib/game/game.exe");
}

#[test]
fn executable_detect_autodetect_detecte_un_raccourci_lnk() {
    let found = autodetect_executable("/lib/game", &files(&["/lib/game/game.lnk"])).unwrap();
    assert_eq!(found, "/lib/game/game.lnk");
}

#[test]
fn platform_utils_autodetect_detecte_un_raccourci_lnk() {
    let found = autodetect_executable("/lib/game", &files(&["/lib/game/game.lnk"])).unwrap();
    assert_eq!(found, "/lib/game/game.lnk");
}

#[test]
fn executable_detect_autodetect_exe_et_lnk_sont_ambigus_ensemble() {
    match autodetect_executable("/lib/game", &files(&["/lib/game/game.lnk", "/lib/game/game.exe"])) {
        Err(ExecutableSelectionError::Ambiguous(_, candidates)) => assert_eq!(candidates.len(), 2),
        other => panic!("attendu Ambiguous, obtenu {other:?}"),
    }
}

#[test]
fn platform_utils_autodetect_exe_et_lnk_sont_ambigus_ensemble() {
    match autodetect_executable("/lib/game", &files(&["/lib/game/game.lnk", "/lib/game/game.exe"])) {
        Err(ExecutableSelectionError::Ambiguous(_, candidates)) => assert_eq!(candidates.len(), 2),
        other => panic!("attendu Ambiguous, obtenu {other:?}"),
    }
}

#[test]
fn executable_detect_autodetect_zero_candidat_est_une_erreur() {
    match autodetect_executable("/lib/game", &files(&["/lib/game/readme.txt"])) {
        Err(ExecutableSelectionError::Message(m)) => assert_eq!(
            m,
            "No executable found automatically in \"game\". Add the \"executable\" key in ports.json for this port."
        ),
        other => panic!("attendu Message, obtenu {other:?}"),
    }
}

#[test]
fn platform_utils_autodetect_zero_candidat_est_une_erreur() {
    match autodetect_executable("/lib/game", &files(&["/lib/game/readme.txt"])) {
        Err(ExecutableSelectionError::Message(m)) => assert_eq!(
            m,
            "No executable found automatically in \"game\". Add the \"executable\" key in ports.json for this port."
        ),
        other => panic!("attendu Message, obtenu {other:?}"),
    }
}

#[test]
fn executable_detect_autodetect_plusieurs_candidats_est_ambigu() {
    match autodetect_executable("/lib/game", &files(&["/lib/game/sub/b.exe", "/lib/game/a.BAT", "/lib/game/c.exe"])) {
        Err(ExecutableSelectionError::Ambiguous(m, candidates)) => {
            assert_eq!(candidates, files(&["/lib/game/a.BAT", "/lib/game/sub/b.exe", "/lib/game/c.exe"]));
            assert_eq!(m, "Multiple possible executables in \"game\": a.BAT, b.exe, c.exe. Please choose one.");
        }
        other => panic!("attendu Ambiguous, obtenu {other:?}"),
    }
}

#[test]
fn platform_utils_autodetect_plusieurs_candidats_est_ambigu() {
    match autodetect_executable("/lib/game", &files(&["/lib/game/sub/b.exe", "/lib/game/a.BAT", "/lib/game/c.exe"])) {
        Err(ExecutableSelectionError::Ambiguous(m, candidates)) => {
            assert_eq!(candidates, files(&["/lib/game/a.BAT", "/lib/game/sub/b.exe", "/lib/game/c.exe"]));
            assert_eq!(m, "Multiple possible executables in \"game\": a.BAT, b.exe, c.exe. Please choose one.");
        }
        other => panic!("attendu Ambiguous, obtenu {other:?}"),
    }
}

#[test]
fn autodetect_tri_stable_a_nom_egal() {
    match autodetect_executable("/g", &files(&["/g/z/run.exe", "/g/a/run.exe"])) {
        Err(ExecutableSelectionError::Ambiguous(_, candidates)) => {
            assert_eq!(candidates, files(&["/g/z/run.exe", "/g/a/run.exe"]))
        }
        other => panic!("attendu Ambiguous, obtenu {other:?}"),
    }
}

#[test]
fn candidats_selon_l_extension() {
    assert!(is_candidate_path("/g/Game.EXE"));
    assert!(is_candidate_path("/g/start.bat"));
    assert!(!is_candidate_path("/g/.exe"));
    assert!(!is_candidate_path("/g/game.exe.txt"));
    assert!(!is_candidate_path("/g/Uninstall.exe"));
    assert!(!is_candidate_path("/g/.."));
}

#[test]
fn resolve_executable_configure_puis_autodetection() {
    let exe = JsonValue::String("bin/game.exe".to_string());
    assert_eq!(resolve_executable(Some(&exe), "/lib/g", &[]).unwrap(), "/lib/g/bin/game.exe");
    let evil = JsonValue::String("../x.exe".to_string());
    match resolve_executable(Some(&evil), "/lib/g", &[]) {
        Err(ExecutableSelectionError::Message(m)) => assert_eq!(m, "\"../x.exe\" sort de \"/lib/g\""),
        other => panic!("attendu Message, obtenu {other:?}"),
    }
    let not_path = JsonValue::Number(JsonNumber { literal: "5".to_string() });
    match resolve_executable(Some(&not_path), "/lib/g", &[]) {
        Err(ExecutableSelectionError::Message(m)) => {
            assert_eq!(m, "\"executable\" n'est pas un chemin exploitable pour ce port")
        }
        other => panic!("attendu Message, obtenu {other:?}"),
    }
    let empty = JsonValue::String(String::new());
    assert_eq!(resolve_executable(Some(&empty), "/lib/g", &files(&["/lib/g/a.exe"])).unwrap(), "/lib/g/a.exe");
    assert_eq!(resolve_executable(None, "/lib/g", &files(&["/lib/g/a.exe"])).unwrap(), "/lib/g/a.exe");
}
