use ports_launcher::json::JsonValue;
use ports_launcher::library_view::{filter_for_display, grid_cell, list_move_delta, move_list_selection, recent_games, sort_by_last_played};
use ports_launcher::models::{port_from_value, Port};
use ports_launcher::state::InstalledPorts;

fn port(name: &str) -> Port {
    port_from_value(&JsonValue::Object(vec![
        ("name".to_string(), JsonValue::String(name.to_string())),
        ("folder".to_string(), JsonValue::String(name.to_lowercase())),
    ]))
    .unwrap()
}

#[test]
fn jeux_recents_du_plus_recent_au_plus_ancien() {
    let ports: Vec<Port> = ["A", "B", "C", "D", "E", "F", "G"].iter().map(|n| port(n)).collect();
    let mut installed = InstalledPorts::new();
    installed.mark_played("b", "2026-01-02");
    installed.mark_played("c", "2026-01-05");
    installed.mark_played("d", "2026-01-01");
    installed.mark_played("e", "2026-01-04");
    installed.mark_played("f", "2026-01-03");
    installed.mark_played("g", "2026-01-06");
    let pool: Vec<&Port> = ports.iter().collect();
    let recent: Vec<&str> = recent_games(&pool, &installed).iter().map(|p| p.name.as_str()).collect();
    assert_eq!(recent, vec!["G", "C", "E", "F", "B"]);
}

#[test]
fn tri_par_derniere_partie_stable() {
    let ports: Vec<Port> = ["A", "B", "C"].iter().map(|n| port(n)).collect();
    let mut installed = InstalledPorts::new();
    installed.mark_played("c", "2026-01-01");
    let pool: Vec<&Port> = ports.iter().collect();
    let sorted: Vec<&str> = sort_by_last_played(&pool, &installed).iter().map(|p| p.name.as_str()).collect();
    assert_eq!(sorted, vec!["C", "A", "B"]);
    let shown: Vec<&str> = filter_for_display(&pool, "  ", &installed).iter().map(|p| p.name.as_str()).collect();
    assert_eq!(shown, vec!["C", "A", "B"]);
    let shown: Vec<&str> = filter_for_display(&pool, "b", &installed).iter().map(|p| p.name.as_str()).collect();
    assert_eq!(shown, vec!["B"]);
}

#[test]
fn deplacements_de_la_selection() {
    assert_eq!(move_list_selection(0, 1, 3), Some(1));
    assert_eq!(move_list_selection(2, 10, 3), None);
    assert_eq!(move_list_selection(2, -10, 3), Some(0));
    assert_eq!(move_list_selection(0, 1, 0), None);
    assert_eq!(grid_cell(7, 3), (2, 1));
    assert_eq!(grid_cell(7, 0), (7, 0));
}

#[test]
fn gauche_droite_sautent_une_page_de_dix_lignes() {
    assert_eq!(list_move_delta(1, 0), 10);
    assert_eq!(list_move_delta(-1, 0), -10);
    assert_eq!(list_move_delta(0, -1), -1);
    assert_eq!(list_move_delta(1, 1), 10);
    assert_eq!(move_list_selection(3, list_move_delta(1, 0), 25), Some(13));
    assert_eq!(move_list_selection(3, list_move_delta(-1, 0), 25), Some(0));
    assert_eq!(move_list_selection(20, list_move_delta(1, 0), 25), Some(24));
}
