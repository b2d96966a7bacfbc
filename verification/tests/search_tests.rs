use ports_launcher::json::JsonValue;
use ports_launcher::models::{port_from_value, Port};
use ports_launcher::search::{filter_and_sort, fuzzy_span, search_tier};

fn port(name: &str, tags: &[&str]) -> Port {
    let tag_values: Vec<JsonValue> = tags.iter().map(|t| JsonValue::String(t.to_string())).collect();
    port_from_value(&JsonValue::Object(vec![
        ("name".to_string(), JsonValue::String(name.to_string())),
        ("folder".to_string(), JsonValue::String(name.to_string())),
        ("source".to_string(), JsonValue::String("https://example.com/x.zip".to_string())),
        ("tags".to_string(), JsonValue::Array(tag_values)),
    ]))
    .unwrap()
}

#[test]
fn tier_0_nom_commence_par_query() {
    assert_eq!(search_tier(&port("Ape Escape", &[]), "ape"), Some((0, 0)));
}

#[test]
fn tier_1_nom_contient_query() {
    assert_eq!(search_tier(&port("Ape Escape", &[]), "escape"), Some((1, 0)));
}

#[test]
fn tier_2_tag_commence_par_query() {
    assert_eq!(search_tier(&port("Ape Escape", &["Saru", "PS1"]), "ps1"), Some((2, 0)));
}

#[test]
fn tier_3_tag_contient_query() {
    assert_eq!(search_tier(&port("Ape Escape", &["Platformer"]), "form"), Some((3, 0)));
}

#[test]
fn tier_4_correspondance_floue_sous_sequence() {
    assert!(matches!(search_tier(&port("GoldenEye", &[]), "gde"), Some((4, _))));
}

#[test]
fn aucune_correspondance_est_none() {
    assert_eq!(search_tier(&port("Ape Escape", &["Platformer"]), "zzz"), None);
}

#[test]
fn query_vide_matche_tout_au_tier_0() {
    assert_eq!(search_tier(&port("Ape Escape", &[]), ""), Some((0, 0)));
}

#[test]
fn fuzzy_span_mesure_l_ecart_glouton() {
    assert_eq!(fuzzy_span("goldeneye", "gde"), Some(4));
    assert_eq!(fuzzy_span("abc", "ca"), None);
    assert_eq!(fuzzy_span("abc", ""), None);
    assert_eq!(fuzzy_span("aXbXc", "abc"), Some(4));
}

#[test]
fn filter_and_sort_est_stable_a_tier_egal() {
    let a = port("Alpha Game", &[]);
    let b = port("Alpha Racer", &[]);
    let result = filter_and_sort(&[&a, &b], "alpha");
    assert_eq!(result[0].name, "Alpha Game");
    assert_eq!(result[1].name, "Alpha Racer");
}

#[test]
fn filter_and_sort_classe_les_tiers_dans_l_ordre() {
    let exact = port("Zeta", &["tag"]);
    let contains = port("Alpha Zeta Beta", &[]);
    let tag_match = port("Gamma", &["Zeta-ish"]);
    let result = filter_and_sort(&[&contains, &tag_match, &exact], "zeta");
    assert_eq!(result[0].name, "Zeta");
    assert_eq!(result[1].name, "Alpha Zeta Beta");
    assert_eq!(result[2].name, "Gamma");
}

#[test]
fn filter_and_sort_nettoie_la_requete() {
    let a = port("Ape Escape", &[]);
    let b = port("Other", &[]);
    let result = filter_and_sort(&[&b, &a], "  APE \n");
    assert_eq!(result.len(), 1);
    assert_eq!(result[0].name, "Ape Escape");
}

#[test]
fn requetes_extremes_sur_un_gros_catalogue_ne_paniquent_pas() {
    let names = ["Ape Escape", "GoldenEye", "Pikmin Recomp", "Portal Récomp", "Zelda: 🎮 Édition", "", "   ", "A", "アプリ", "Ω-Game"];
    let ports: Vec<Port> = (0..300)
        .map(|i| {
            let tag = format!("tag{}", i % 7);
            port(&format!("{} {i}", names[i % names.len()]), &[tag.as_str(), "Platformer"])
        })
        .collect();
    let pool: Vec<&Port> = ports.iter().collect();
    let queries = [
        "".to_string(),
        "   ".to_string(),
        "x".repeat(200),
        "🎮".repeat(50),
        "\n\t\r".to_string(),
        "ZZZZZ-no-match-ZZZZZ".to_string(),
        "é".repeat(50),
        "a b c d e f g h i j".to_string(),
        "PIKMIN".to_string(),
        "0".to_string(),
    ];
    for query in &queries {
        assert!(filter_and_sort(&pool, query).len() <= pool.len());
    }
}
