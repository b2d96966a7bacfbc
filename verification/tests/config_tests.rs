use ports_launcher::config::{
    accept_fetched_catalog, if_none_match, merge_local_catalog, parse_catalog, parse_catalog_text, parse_local_catalog,
    parse_local_catalog_text, CatalogUpdate,
    ConfigError,
};
use ports_launcher::json::{JsonNumber, JsonValue};
use ports_launcher::models::{port_from_value, SourceType};

fn s(x: &str) -> JsonValue {
    JsonValue::String(x.to_string())
}

fn obj(members: Vec<(&str, JsonValue)>) -> JsonValue {
    JsonValue::Object(members.into_iter().map(|(k, v)| (k.to_string(), v)).collect())
}

fn catalog(entries: Vec<JsonValue>) -> JsonValue {
    obj(vec![("ports", JsonValue::Array(entries))])
}

#[test]
fn charge_des_ports_valides() {
    let data = catalog(vec![obj(vec![("name", s("A")), ("folder", s("a")), ("source", s("https://example.com/a.zip"))])]);
    let ports = parse_catalog(&data).unwrap();
    assert_eq!(ports.len(), 1);
    assert_eq!(ports[0].name, "A");
}

#[test]
fn entree_sans_name_est_ignoree_pas_fatale() {
    let data = catalog(vec![
        obj(vec![("folder", s("a")), ("source", s("s"))]),
        obj(vec![("name", s("B")), ("folder", s("b")), ("source", s("s"))]),
    ]);
    let ports = parse_catalog(&data).unwrap();
    assert_eq!(ports.len(), 1);
    assert_eq!(ports[0].name, "B");
}

#[test]
fn champ_mal_type_est_ignore_silencieusement() {
    let five = JsonValue::Number(JsonNumber { literal: "5".to_string() });
    let data = catalog(vec![
        obj(vec![("name", five), ("folder", s("a")), ("source", s("s"))]),
        obj(vec![("name", s("B")), ("folder", s("b")), ("source", s("s"))]),
    ]);
    let ports = parse_catalog(&data).unwrap();
    assert_eq!(ports.len(), 1);
    assert_eq!(ports[0].name, "B");
}

#[test]
fn catalogue_vide_est_fatal() {
    assert!(matches!(parse_catalog(&catalog(vec![])), Err(ConfigError::NoPorts)));
    assert!(matches!(parse_catalog(&obj(vec![])), Err(ConfigError::NoPorts)));
}

#[test]
fn racine_non_objet_est_fatale() {
    let data = JsonValue::Array(vec![JsonValue::Bool(true)]);
    assert!(matches!(parse_catalog(&data), Err(ConfigError::NotAnObject)));
}

#[test]
fn messages_des_erreurs_de_catalogue() {
    assert_eq!(ConfigError::NotAnObject.message(), "la racine de ports.json n'est pas un objet");
    assert_eq!(ConfigError::NoPorts.message(), "ports.json ne contient aucun port");
    assert_eq!(ConfigError::Json("bad".to_string()).message(), "bad");
}

#[test]
fn load_local_config_json_non_objet_est_vide_pas_fatal() {
    assert!(parse_local_catalog(&s("not an object")).is_empty());
    assert!(parse_local_catalog(&obj(vec![("ports", s("x"))])).is_empty());
}

#[test]
fn load_local_config_accepte_une_entree_sans_source() {
    let ports = parse_local_catalog(&catalog(vec![obj(vec![("name", s("My Game")), ("folder", s("my-game"))])]));
    assert_eq!(ports.len(), 1);
    assert_eq!(ports[0].source_type, SourceType::Local);
}

#[test]
fn merge_local_catalog_ajoute_les_nouvelles_entrees() {
    let main = vec![port_from_value(&obj(vec![("name", s("A")), ("folder", s("a")), ("source", s("s"))])).unwrap()];
    let local = vec![port_from_value(&obj(vec![("name", s("B")), ("folder", s("b"))])).unwrap()];
    let merged = merge_local_catalog(main, local);
    assert_eq!(merged.len(), 2);
}

#[test]
fn merge_local_catalog_une_entree_locale_remplace_le_principal_sur_le_meme_folder() {
    let main = vec![port_from_value(&obj(vec![("name", s("Official")), ("folder", s("a")), ("source", s("s"))])).unwrap()];
    let local = vec![port_from_value(&obj(vec![("name", s("Customized")), ("folder", s("a"))])).unwrap()];
    let merged = merge_local_catalog(main, local);
    assert_eq!(merged.len(), 1);
    assert_eq!(merged[0].name, "Customized");
}

#[test]
fn merge_local_catalog_garde_l_ordre_du_principal() {
    let main = vec![
        port_from_value(&obj(vec![("name", s("A")), ("folder", s("a"))])).unwrap(),
        port_from_value(&obj(vec![("name", s("B")), ("folder", s("b"))])).unwrap(),
        port_from_value(&obj(vec![("name", s("C")), ("folder", s("c"))])).unwrap(),
    ];
    let local = vec![port_from_value(&obj(vec![("name", s("B2")), ("folder", s("b"))])).unwrap()];
    let merged = merge_local_catalog(main, local);
    let names: Vec<&str> = merged.iter().map(|p| p.name.as_str()).collect();
    assert_eq!(names, vec!["A", "C", "B2"]);
}

#[test]
fn catalogue_distant_valide_avant_d_etre_garde() {
    let good = r#"{"ports":[{"name":"A","folder":"a"}]}"#;
    match accept_fetched_catalog(good.to_string(), "etag1".to_string()) {
        Ok(CatalogUpdate::Updated { text, etag }) => {
            assert_eq!(text, good);
            assert_eq!(etag, "etag1");
        }
        _ => panic!("expected an update"),
    }
    assert!(matches!(
        accept_fetched_catalog(r#"{"ports":[]}"#.to_string(), "e".to_string()),
        Err(m) if m == "ports.json ne contient aucun port"
    ));
    assert!(matches!(
        accept_fetched_catalog("[1]".to_string(), "e".to_string()),
        Err(m) if m == "la racine de ports.json n'est pas un objet"
    ));
    assert!(accept_fetched_catalog("{oops".to_string(), "e".to_string()).is_err());
    assert_eq!(if_none_match(""), None);
    assert_eq!(if_none_match("W/\"x\"").as_deref(), Some("W/\"x\""));
}

#[test]
fn catalogue_lu_depuis_son_texte() {
    let ports = parse_catalog_text(r#"{"ports":[{"folder":"a"},{"name":"B","folder":"b","source":"s"}]}"#).unwrap();
    assert_eq!(ports.len(), 1);
    assert_eq!(ports[0].name, "B");
    assert!(matches!(parse_catalog_text("{ceci n'est pas du json"), Err(ConfigError::Json(_))));
    assert!(matches!(parse_catalog_text("[1,2,3]"), Err(ConfigError::NotAnObject)));
    assert!(matches!(parse_catalog_text(r#"{"ports":[]}"#), Err(ConfigError::NoPorts)));
}

#[test]
fn load_local_config_json_mal_forme_est_vide_pas_fatal() {
    assert!(parse_local_catalog_text("not json at all").is_empty());
    let ports = parse_local_catalog_text(r#"{"ports":[{"name":"My Game","folder":"my-game"}]}"#);
    assert_eq!(ports.len(), 1);
}
