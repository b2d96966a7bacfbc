use ports_launcher::json::JsonValue;
use ports_launcher::theme::{
    commit_border, commit_theme, commit_window_size, list_theme_names, load_theme_file, parse_hex_color,
    parse_theme_entry, preview_theme, resolve_font_family,
};

const TWO_THEMES: &str = r##"{
  "themes": {
    "night": {
      "search_background": "#404552", "search_text": "#7c818c", "list_background": "#383c4a",
      "list_text": "#d3dae3", "selected_background": "#5294e2", "selected_text": "#ffffff", "border": "#4b5162"
    },
    "day": {
      "search_background": "#ffffff", "search_text": "#000000", "list_background": "#eeeeee",
      "list_text": "#111111", "selected_background": "#3366cc", "selected_text": "#ffffff", "border": "#cccccc"
    },
    "broken": { "border": "red" }
  },
  "theme": "night",
  "window_size": 30,
  "border": 3
}"##;

const SAMPLE: &str = r##"{
  "theme": "night",
  "font_family": "Segoe UI",
  "placeholder_text": "Type to search...",
  "show_clock": true,
  "window_size": 30,
  "border": 3,
  "themes": {
    "night": {
      "search_background": "#404552",
      "search_text": "#7c818c",
      "list_background": "#383c4a",
      "list_text": "#d3dae3",
      "selected_background": "#5294e2",
      "selected_text": "#ffffff",
      "border": "#4b5162"
    }
  }
}"##;

#[test]
fn parse_hex_color_couvre_3_et_6_chiffres() {
    assert_eq!(parse_hex_color("#fff"), Some((255, 255, 255)));
    assert_eq!(parse_hex_color("#3a8ea0"), Some((0x3a, 0x8e, 0xa0)));
    assert_eq!(parse_hex_color("bogus"), None);
    assert_eq!(parse_hex_color("#12"), None);
}

#[test]
fn parse_hex_color_n_accepte_que_des_chiffres_hexadecimaux() {
    assert_eq!(parse_hex_color("#+f0000"), None);
    assert_eq!(parse_hex_color("#a€bc"), None);
    assert_eq!(parse_hex_color("#aé1234"), None);
    assert_eq!(parse_hex_color("#ABC"), Some((0xaa, 0xbb, 0xcc)));
    assert_eq!(parse_hex_color("#gg0000"), None);
    assert_eq!(parse_hex_color("#é1"), None);
}

#[test]
fn parse_theme_entry_exige_les_sept_couleurs() {
    let keys = ["search_background", "search_text", "list_background", "list_text", "selected_background", "selected_text", "border"];
    let full = JsonValue::Object(keys.iter().map(|k| (k.to_string(), JsonValue::String("#102030".to_string()))).collect());
    let t = parse_theme_entry(&full).unwrap();
    assert_eq!(t.border, (0x10, 0x20, 0x30));
    let partial = JsonValue::Object(keys[..6].iter().map(|k| (k.to_string(), JsonValue::String("#102030".to_string()))).collect());
    assert!(parse_theme_entry(&partial).is_none());
}

#[test]
fn commit_theme_remplace_seulement_la_valeur_theme() {
    let after = commit_theme(SAMPLE, "day").unwrap();
    assert!(after.contains("\"theme\": \"day\""));
    assert!(after.contains("\"font_family\": \"Segoe UI\""));
    assert!(after.contains("\"night\": {"));
    assert_eq!(after.len(), SAMPLE.len() - 2);
}

#[test]
fn commit_theme_signale_une_cle_absente() {
    assert_eq!(commit_theme("{}", "x").unwrap_err(), "'theme' key not found in themes.json");
    assert_eq!(commit_theme("{\"theme\" 1}", "x").unwrap_err(), "'theme' key not found in themes.json");
    assert_eq!(commit_theme("{\"theme\": 1}", "x").unwrap_err(), "'theme' value not found");
    assert_eq!(commit_theme("{\"theme\": \"abc", "x").unwrap_err(), "'theme' value not terminated");
}

#[test]
fn commit_window_size_remplace_seulement_cette_valeur() {
    let after = commit_window_size(SAMPLE, 90).unwrap();
    assert!(after.contains("\"window_size\": 90"));
    assert!(after.contains("\"border\": 3"));
}

#[test]
fn commit_border_remplace_seulement_cette_valeur() {
    let after = commit_border(SAMPLE, 7).unwrap();
    assert!(after.contains("\"border\": 7"));
    assert!(after.contains("\"window_size\": 30"));
    assert!(after.contains("\"border\": \"#4b5162\""));
}

#[test]
fn commit_number_gere_les_valeurs_negatives() {
    let after = commit_border(SAMPLE, -1).unwrap();
    assert!(after.contains("\"border\": -1"));
    let after = commit_border(&after, i32::MIN).unwrap();
    assert!(after.contains("\"border\": -2147483648"));
}

#[test]
fn commit_number_signale_une_cle_absente() {
    assert_eq!(commit_border("{}", 1).unwrap_err(), "key 'border' not found in themes.json");
    assert_eq!(commit_border("{\"border\"}", 1).unwrap_err(), "key 'border' not found in themes.json");
    assert_eq!(commit_border("{\"border\":   ", 1).unwrap_err(), "'border' value not found");
}

#[test]
fn list_theme_names_est_triee() {
    let names = vec!["night".to_string(), "day".to_string(), "Zen".to_string()];
    assert_eq!(list_theme_names(&names), vec!["Zen".to_string(), "day".to_string(), "night".to_string()]);
}

#[test]
fn police_par_defaut() {
    assert_eq!(resolve_font_family(None), "Segoe UI");
    assert_eq!(resolve_font_family(Some("Inter")), "Inter");
}

#[test]
fn charge_le_theme_actif_et_les_reglages_racine() {
    let f = load_theme_file(SAMPLE, "arc-dark").unwrap();
    assert_eq!(f.active_theme, "night");
    assert_eq!(f.current.search_background, (0x40, 0x45, 0x52));
    assert_eq!(f.font_family.as_deref(), Some("Segoe UI"));
    assert_eq!(f.placeholder_text, "Type to search...");
    assert!(f.show_clock);
    assert_eq!(f.themes.len(), 1);
}

#[test]
fn fichier_illisible_garde_l_etat_precedent() {
    assert!(load_theme_file("pas du json", "night").is_none());
    assert!(load_theme_file("[1]", "night").is_none());
    assert!(load_theme_file(r#"{"themes": {"x": {"border": "red"}}}"#, "night").is_none());
}

#[test]
fn theme_inconnu_retombe_sur_le_premier_valide() {
    let text = TWO_THEMES.replace("\"theme\": \"night\"", "\"theme\": \"missing\"");
    let f = load_theme_file(&text, "arc-dark").unwrap();
    assert_eq!(f.active_theme, "missing");
    assert_eq!(f.current.search_background, (0x40, 0x45, 0x52));
    assert_eq!(f.themes.len(), 2);
}

#[test]
fn preview_change_current_sans_toucher_active_theme() {
    let f = load_theme_file(TWO_THEMES, "arc-dark").unwrap();
    assert_eq!(preview_theme(&f.themes, "day").unwrap().search_background, (0xff, 0xff, 0xff));
    assert!(preview_theme(&f.themes, "nope").is_none());
    assert_eq!(f.active_theme, "night");
    let names: Vec<String> = f.themes.iter().map(|t| t.name.clone()).collect();
    assert_eq!(list_theme_names(&names), vec!["day".to_string(), "night".to_string()]);
}

#[test]
fn commit_border_vise_la_racine_meme_apres_une_couleur_border() {
    let after = commit_border(TWO_THEMES, 7).unwrap();
    assert!(after.contains("\"border\": 7\n"));
    assert!(after.contains("\"border\": \"#4b5162\""));
    assert!(after.contains("\"border\": \"red\""));
    assert!(load_theme_file(&after, "night").is_some());
    let after = commit_window_size(&after, 90).unwrap();
    assert!(after.contains("\"window_size\": 90"));
    assert!(load_theme_file(&after, "night").is_some());
}

#[test]
fn commit_theme_ignore_une_valeur_theme_imbriquee() {
    let text = r#"{"themes": {"theme": {"x": 1}}, "theme": "night"}"#;
    let after = commit_theme(text, "day").unwrap();
    assert_eq!(after, r#"{"themes": {"theme": {"x": 1}}, "theme": "day"}"#);
    let quoted = r#"{"note": "\"theme\": \"no\"", "theme": "night"}"#;
    assert_eq!(commit_theme(quoted, "day").unwrap(), r#"{"note": "\"theme\": \"no\"", "theme": "day"}"#);
}
