use ports_launcher::json::{JsonNumber, JsonValue};
use ports_launcher::models::{find_first_url, parse_source, port_from_value, SourceType};

fn s(x: &str) -> JsonValue {
    JsonValue::String(x.to_string())
}

fn num(lit: &str) -> JsonValue {
    JsonValue::Number(JsonNumber { literal: lit.to_string() })
}

fn obj(members: Vec<(&str, JsonValue)>) -> JsonValue {
    JsonValue::Object(members.into_iter().map(|(k, v)| (k.to_string(), v)).collect())
}

#[test]
fn source_github_avec_et_sans_git() {
    let (t, r) = parse_source(&s("https://github.com/owner/repo"));
    assert_eq!(t, SourceType::Github);
    assert_eq!(r.as_deref(), Some("owner/repo"));
    let (t, r) = parse_source(&s("https://github.com/owner/repo.git"));
    assert_eq!(t, SourceType::Github);
    assert_eq!(r.as_deref(), Some("owner/repo"));
}

#[test]
fn source_gitlab_coupe_les_routes_ui() {
    let (t, r) = parse_source(&s("https://gitlab.com/group/project"));
    assert_eq!(t, SourceType::Gitlab);
    assert_eq!(r.as_deref(), Some("group/project"));
    let (t, r) = parse_source(&s("https://gitlab.com/group/project/-/releases"));
    assert_eq!(t, SourceType::Gitlab);
    assert_eq!(r.as_deref(), Some("group/project"));
}

#[test]
fn find_first_url_extrait_depuis_du_texte_libre() {
    assert_eq!(
        find_first_url("Suivre le guide ici : https://example.com/guide avant d'installer.").as_deref(),
        Some("https://example.com/guide")
    );
    assert_eq!(find_first_url("Aucune URL ici."), None);
}

#[test]
fn find_first_url_retire_la_ponctuation_de_fin_de_phrase() {
    assert_eq!(find_first_url("Voir (https://example.com/guide).").as_deref(), Some("https://example.com/guide"));
    assert_eq!(
        find_first_url("Lien: https://example.com/guide, puis continuer.").as_deref(),
        Some("https://example.com/guide")
    );
}

#[test]
fn find_first_url_garde_la_premiere_quand_il_y_en_a_plusieurs() {
    assert_eq!(
        find_first_url("https://a.example.com puis https://b.example.com").as_deref(),
        Some("https://a.example.com")
    );
}

#[test]
fn source_dict_est_toujours_direct_url() {
    let (t, r) = parse_source(&obj(vec![("windows", s("https://github.com/o/p"))]));
    assert_eq!(t, SourceType::DirectUrl);
    assert_eq!(r, None);
}

#[test]
fn source_url_quelconque_est_direct_url() {
    let (t, r) = parse_source(&s("https://example.com/file.zip"));
    assert_eq!(t, SourceType::DirectUrl);
    assert_eq!(r, None);
}

#[test]
fn from_value_rejette_name_manquant_ou_invalide() {
    assert!(port_from_value(&obj(vec![("folder", s("f")), ("source", s("s"))])).is_err());
    assert!(port_from_value(&obj(vec![("name", num("5")), ("folder", s("f")), ("source", s("s"))])).is_err());
}

#[test]
fn from_value_rejette_folder_manquant() {
    assert!(port_from_value(&obj(vec![("name", s("n")), ("source", s("s"))])).is_err());
}

#[test]
fn from_value_source_manquante_est_un_port_local() {
    let p = port_from_value(&obj(vec![("name", s("n")), ("folder", s("f"))])).unwrap();
    assert_eq!(p.source_type, SourceType::Local);
    assert_eq!(p.repo, None);
}

#[test]
fn from_value_rejette_source_mal_typee() {
    assert!(port_from_value(&obj(vec![("name", s("n")), ("folder", s("f")), ("source", num("5"))])).is_err());
}

#[test]
fn from_value_tolere_champs_optionnels_mal_types() {
    let p = port_from_value(&obj(vec![
        ("name", s("n")),
        ("folder", s("f")),
        ("source", s("s")),
        ("tags", s("not-a-list")),
        ("website", num("5")),
        ("mods", JsonValue::Array(vec![])),
        ("image", obj(vec![])),
    ]))
    .unwrap();
    assert!(p.tags.is_empty());
    assert_eq!(p.website, None);
    assert_eq!(p.mods, None);
    assert_eq!(p.image, None);
}

#[test]
fn from_value_filtre_les_tags_non_chaine() {
    let p = port_from_value(&obj(vec![
        ("name", s("n")),
        ("folder", s("f")),
        ("source", s("s")),
        ("tags", JsonValue::Array(vec![s("a"), num("5"), s("b"), JsonValue::Null])),
    ]))
    .unwrap();
    assert_eq!(p.tags, vec!["a".to_string(), "b".to_string()]);
}

#[test]
fn key_utilise_repo_sinon_folder() {
    let p = port_from_value(&obj(vec![("name", s("n")), ("folder", s("f")), ("source", s("https://github.com/o/p"))]))
        .unwrap();
    assert_eq!(p.key(), "o/p");
    let p = port_from_value(&obj(vec![("name", s("n")), ("folder", s("f")), ("source", s("https://example.com/x.zip"))]))
        .unwrap();
    assert_eq!(p.key(), "f");
}

#[test]
fn port_from_value_rejette_une_entree_non_objet() {
    let e = port_from_value(&s("x")).unwrap_err();
    assert_eq!(e.0, "entry is not an object");
}

#[test]
fn instructions_link_lit_le_premier_lien() {
    let p = port_from_value(&obj(vec![
        ("name", s("n")),
        ("folder", s("f")),
        ("instructions", s("Voir https://example.com/a.")),
    ]))
    .unwrap();
    assert_eq!(p.instructions_link().as_deref(), Some("https://example.com/a"));
}

#[test]
fn website_url_retombe_sur_le_lien_github() {
    let p = port_from_value(&obj(vec![("name", s("n")), ("folder", s("f")), ("source", s("https://github.com/o/p"))]))
        .unwrap();
    assert_eq!(p.website_url(), Some("https://github.com/o/p"));
    let p = port_from_value(&obj(vec![("name", s("n")), ("folder", s("f")), ("source", s("https://example.com/x.zip"))]))
        .unwrap();
    assert_eq!(p.website_url(), None);
}

#[test]
fn name_lower_et_tags_lower_sont_en_minuscules() {
    let p = port_from_value(&obj(vec![
        ("name", s("Ape Escape")),
        ("folder", s("f")),
        ("tags", JsonValue::Array(vec![s("PS1")])),
    ]))
    .unwrap();
    assert_eq!(p.name_lower, "ape escape");
    assert_eq!(p.tags_lower, vec!["ps1".to_string()]);
}
