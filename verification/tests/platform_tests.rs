use ports_launcher::image_cache::cached_image_path;
use ports_launcher::json::{is_truthy, JsonNumber, JsonValue};
use ports_launcher::path_safety::{lexical_normalize, path_starts_with, safe_join};
use ports_launcher::platform_resolve::{
    expand_env_path, get_platform_key, path_join, resolve_per_platform, resolve_per_platform_for, resolve_preferred_asset,
    resolve_save_folder,
};

fn s(x: &str) -> JsonValue {
    JsonValue::String(x.to_string())
}

fn obj(members: Vec<(&str, JsonValue)>) -> JsonValue {
    JsonValue::Object(members.into_iter().map(|(k, v)| (k.to_string(), v)).collect())
}

fn env(pairs: &[(&str, &str)]) -> Vec<(String, String)> {
    pairs.iter().map(|(k, v)| (k.to_string(), v.to_string())).collect()
}

#[test]
fn path_safety_safe_join_accepte_base_elle_meme_et_un_descendant() {
    let base = "/tmp/ports_launcher_safe_join_ok";
    assert_eq!(safe_join(base, ".").unwrap(), lexical_normalize(base));
    assert_eq!(safe_join(base, "sub/dir").unwrap(), "/tmp/ports_launcher_safe_join_ok/sub/dir");
}

#[test]
fn path_safety_safe_join_rejette_une_sortie_via_dotdot() {
    let base = "/tmp/ports_launcher_safe_join_dotdot";
    assert!(safe_join(base, "../evil").is_err());
    assert!(safe_join(base, "sub/../../evil").is_err());
}

#[test]
fn path_safety_safe_join_rejette_un_chemin_absolu_qui_ecrase_base() {
    assert!(safe_join("/tmp/ports_launcher_safe_join_absolute", "/etc/evil").is_err());
}

#[test]
fn safe_join_normalise_le_resultat() {
    assert_eq!(safe_join("/a/./b/", "c/../d").unwrap(), "/a/b/d");
    assert_eq!(safe_join("/a/b", "../b/c").unwrap(), "/a/b/c");
    assert_eq!(safe_join("/a", "../b").unwrap_err(), "\"../b\" sort de \"/a\"");
}

#[test]
fn lexical_normalize_resout_point_et_point_point() {
    assert_eq!(lexical_normalize("/a/./b/../c"), "/a/c");
    assert_eq!(lexical_normalize("a//b/"), "a/b");
    assert_eq!(lexical_normalize("/../x"), "/x");
}

#[test]
fn path_starts_with_compare_par_composants() {
    assert!(path_starts_with("/a/b/c", "/a/b"));
    assert!(path_starts_with("/a/b", "/a/b"));
    assert!(!path_starts_with("/a/bc", "/a/b"));
    assert!(!path_starts_with("a/b", "/a"));
}

#[test]
fn cached_image_path_rejette_une_sortie_de_cache_dir() {
    assert!(cached_image_path("/tmp/cache", "../evil").is_err());
}

#[test]
fn cached_image_path_autorise_un_sous_dossier() {
    assert_eq!(cached_image_path("/tmp/cache", "Sub/Game").unwrap(), "/tmp/cache/Sub/Game.png");
}

#[test]
fn platform_resolve_resolve_per_platform_valeur_simple_est_inchangee() {
    assert_eq!(resolve_per_platform(&s("x")), Some(s("x")));
}

#[test]
fn platform_resolve_resolve_per_platform_objet_vide_est_none() {
    assert_eq!(resolve_per_platform(&obj(vec![])), None);
}

#[test]
fn platform_resolve_resolve_per_platform_cle_exacte_puis_repli_premiere_valeur() {
    let exact = obj(vec![(get_platform_key(), s("w")), ("other-os", s("o"))]);
    assert_eq!(resolve_per_platform(&exact), Some(s("w")));
    let other = obj(vec![("other-os-1", s("l")), ("other-os-2", s("m"))]);
    assert_eq!(resolve_per_platform(&other), Some(s("l")));
    let windows_only = obj(vec![("mac", s("m")), ("windows", s("w"))]);
    assert_eq!(resolve_per_platform(&windows_only), Some(s("w")));
}

#[test]
fn platform_resolve_expand_env_path_etend_une_variable_connue() {
    let e = env(&[("PL_TEST_VAR", "/somewhere")]);
    assert_eq!(expand_env_path("%PL_TEST_VAR%/save", &e), "/somewhere/save");
}

#[test]
fn platform_resolve_expand_env_path_laisse_une_variable_inconnue_telle_quelle() {
    assert_eq!(expand_env_path("%PL_DOES_NOT_EXIST%/save", &[]), "%PL_DOES_NOT_EXIST%/save");
}

#[test]
fn platform_resolve_expand_env_path_sans_variable_est_inchange() {
    assert_eq!(expand_env_path("save", &[]), "save");
}

#[test]
fn expand_env_path_pourcent_non_referme_reste_tel_quel() {
    let e = env(&[("A", "x")]);
    assert_eq!(expand_env_path("%A%/50%", &e), "x/50%");
    assert_eq!(expand_env_path("%A%%A%", &e), "xx");
}

#[test]
fn platform_resolve_resolve_save_folder_relatif_se_joint_au_dossier_du_jeu() {
    assert_eq!(resolve_save_folder(&s("Save"), "/lib/MyGame", &[]), Some("/lib/MyGame/Save".to_string()));
}

#[test]
fn platform_resolve_resolve_save_folder_avec_variable_reste_absolu() {
    let e = env(&[("PL_TEST_SAVE_VAR", "/home/me/.local/share")]);
    assert_eq!(
        resolve_save_folder(&s("%PL_TEST_SAVE_VAR%/Game"), "/lib/MyGame", &e),
        Some("/home/me/.local/share/Game".to_string())
    );
    assert_eq!(resolve_save_folder(&s(""), "/lib/MyGame", &e), None);
}

#[test]
fn path_join_remplace_par_un_chemin_absolu() {
    assert_eq!(path_join("/a", "b"), "/a/b");
    assert_eq!(path_join("/a/", "b"), "/a/b");
    assert_eq!(path_join("/a", "/b"), "/b");
    assert_eq!(path_join("", "b"), "b");
}

#[test]
fn platform_resolve_resolve_preferred_asset_chaine_simple_toute_plateforme() {
    assert_eq!(resolve_preferred_asset(&s("Full.zip")), Some("Full.zip".to_string()));
}

#[test]
fn resolve_preferred_asset_valeur_plate_en_exe_est_ignoree_sous_linux() {
    assert_eq!(resolve_preferred_asset(&s(".exe")), None);
    assert_eq!(resolve_preferred_asset(&s("Installer.EXE")), None);
}

#[test]
fn resolve_preferred_asset_objet_explicite_en_exe_est_honore_sous_linux() {
    assert_eq!(resolve_preferred_asset(&obj(vec![("windows", s(".exe")), ("linux", s(".exe"))])), Some(".exe".to_string()));
}

#[test]
fn platform_resolve_resolve_preferred_asset_par_plateforme() {
    assert_eq!(
        resolve_preferred_asset(&obj(vec![("windows", s(".exe")), ("linux", s(".AppImage"))])),
        Some(".AppImage".to_string())
    );
}

#[test]
fn platform_resolve_resolve_preferred_asset_chaine_vide_est_none() {
    assert_eq!(resolve_preferred_asset(&s("")), None);
}

#[test]
fn platform_resolve_resolve_preferred_asset_objet_sans_cle_pour_cette_plateforme_est_none() {
    assert_eq!(resolve_preferred_asset(&obj(vec![("linux", JsonValue::Null)])), None);
}

#[test]
fn is_truthy_suit_les_regles_javascript() {
    assert!(!is_truthy(&JsonValue::Null));
    assert!(!is_truthy(&JsonValue::Bool(false)));
    assert!(!is_truthy(&JsonValue::Number(JsonNumber { literal: "0".to_string() })));
    assert!(is_truthy(&JsonValue::Number(JsonNumber { literal: "2".to_string() })));
    assert!(!is_truthy(&JsonValue::Number(JsonNumber { literal: "-0.0".to_string() })));
    assert!(!is_truthy(&JsonValue::Number(JsonNumber { literal: "0e15".to_string() })));
    assert!(is_truthy(&JsonValue::Number(JsonNumber { literal: "1e-7".to_string() })));
    assert!(is_truthy(&JsonValue::Number(JsonNumber { literal: "0.5".to_string() })));
    assert!(!is_truthy(&s("")));
    assert!(is_truthy(&s("x")));
    assert!(!is_truthy(&JsonValue::Array(vec![])));
    assert!(is_truthy(&obj(vec![("k", JsonValue::Null)])));
}

#[test]
fn platform_utils_safe_join_accepte_base_elle_meme_et_un_descendant() {
    let base = "/tmp/ports_launcher_test_safe_join_ok";
    assert_eq!(safe_join(base, ".").unwrap(), lexical_normalize(base));
    assert_eq!(safe_join(base, "sub/dir").unwrap(), "/tmp/ports_launcher_test_safe_join_ok/sub/dir");
}

#[test]
fn platform_utils_safe_join_rejette_une_sortie_via_dotdot() {
    let base = "/tmp/ports_launcher_test_safe_join_dotdot";
    assert!(safe_join(base, "../evil").is_err());
    assert!(safe_join(base, "sub/../../evil").is_err());
}

#[test]
fn platform_utils_safe_join_rejette_un_chemin_absolu_qui_ecrase_base() {
    assert!(safe_join("/tmp/ports_launcher_test_safe_join_absolute", "/etc/evil").is_err());
}

#[test]
fn platform_utils_resolve_per_platform_valeur_simple_est_inchangee() {
    assert_eq!(resolve_per_platform(&s("x")), Some(s("x")));
}

#[test]
fn platform_utils_resolve_per_platform_objet_vide_est_none() {
    assert_eq!(resolve_per_platform(&obj(vec![])), None);
}

#[test]
fn platform_utils_expand_env_path_etend_une_variable_connue() {
    let e = env(&[("PL_TEST_VAR", "C:\\Somewhere")]);
    assert_eq!(expand_env_path("%PL_TEST_VAR%\\save", &e), "C:\\Somewhere\\save");
}

#[test]
fn platform_utils_expand_env_path_laisse_une_variable_inconnue_telle_quelle() {
    assert_eq!(expand_env_path("%PL_DOES_NOT_EXIST%\\save", &[]), "%PL_DOES_NOT_EXIST%\\save");
}

#[test]
fn platform_utils_expand_env_path_sans_variable_est_inchange() {
    assert_eq!(expand_env_path("save", &[]), "save");
}

#[test]
fn platform_utils_resolve_save_folder_relatif_se_joint_au_dossier_du_jeu() {
    assert_eq!(
        resolve_save_folder(&s("Save"), "C:\\Library\\MyGame", &[]),
        Some("C:\\Library\\MyGame/Save".to_string())
    );
}

#[test]
fn platform_utils_resolve_preferred_asset_chaine_simple_toute_plateforme() {
    assert_eq!(resolve_preferred_asset(&s("Full.zip")), Some("Full.zip".to_string()));
}

#[test]
fn platform_utils_resolve_preferred_asset_chaine_vide_est_none() {
    assert_eq!(resolve_preferred_asset(&s("")), None);
}

#[test]
fn platform_utils_resolve_preferred_asset_objet_sans_cle_pour_cette_plateforme_est_none() {
    assert_eq!(resolve_preferred_asset(&obj(vec![("linux", JsonValue::Null)])), None);
}

#[test]
fn valeur_par_plateforme_pour_une_plateforme_donnee() {
    let both = obj(vec![("linux", s("l")), ("windows", s("w"))]);
    assert_eq!(resolve_per_platform_for(&both, "windows"), Some(s("w")));
    assert_eq!(resolve_per_platform_for(&both, "linux_arm64"), Some(s("l")));
    assert_eq!(resolve_per_platform_for(&both, "macos"), Some(s("w")));
    let only_linux = obj(vec![("linux", s("l"))]);
    assert_eq!(resolve_per_platform_for(&only_linux, "windows"), Some(s("l")));
    assert_eq!(resolve_per_platform_for(&obj(vec![]), "windows"), None);
    assert_eq!(resolve_per_platform_for(&s("x"), "windows"), Some(s("x")));
}
