use ports_launcher::gamepad_router::{decide_button_actions, decide_moves, GamepadAction, BUTTON_COUNT, NAV_REPEAT_DELAY_NANOS};
use ports_launcher::konami::KonamiInput;

const UP: [bool; 4] = [true, false, false, false];

#[test]
fn decide_moves_premier_appui_declenche_immediatement() {
    let now: u64 = 1_000_000_000;
    let mut last_move = [now; 4];
    let mut repeating = [false; 4];
    assert_eq!(decide_moves([false; 4], UP, &mut last_move, &mut repeating, now), vec![((0, -1), Some(KonamiInput::Up))]);
}

#[test]
fn decide_moves_pas_de_repetition_avant_le_delai() {
    let now: u64 = 1_000_000_000;
    let mut last_move = [now; 4];
    let mut repeating = [false; 4];
    assert!(decide_moves(UP, UP, &mut last_move, &mut repeating, now).is_empty());
}

#[test]
fn decide_moves_repete_apres_le_delai_puis_a_chaque_scrutation() {
    let now: u64 = 10_000_000_000;
    let mut last_move = [now - NAV_REPEAT_DELAY_NANOS * 2; 4];
    let mut repeating = [false; 4];
    assert_eq!(decide_moves(UP, UP, &mut last_move, &mut repeating, now), vec![((0, -1), None)]);
    assert!(repeating[0]);
    let later = now + 1_000_000;
    assert_eq!(decide_moves(UP, UP, &mut last_move, &mut repeating, later), vec![((0, -1), None)]);
}

#[test]
fn decide_moves_relachement_puis_reappui_redeclenche() {
    let now: u64 = 1_000_000_000;
    let mut last_move = [now; 4];
    let mut repeating = [true; 4];
    assert!(decide_moves(UP, [false; 4], &mut last_move, &mut repeating, now).is_empty());
    assert!(!repeating[0]);
    assert_eq!(decide_moves([false; 4], UP, &mut last_move, &mut repeating, now), vec![((0, -1), Some(KonamiInput::Up))]);
}

#[test]
fn decide_moves_exactement_au_delai_ne_repete_pas() {
    let now: u64 = 10_000_000_000;
    let mut last_move = [now - NAV_REPEAT_DELAY_NANOS; 4];
    let mut repeating = [false; 4];
    assert!(decide_moves(UP, UP, &mut last_move, &mut repeating, now).is_empty());
    assert_eq!(decide_moves(UP, UP, &mut last_move, &mut repeating, now + 1), vec![((0, -1), None)]);
}

#[test]
fn decide_button_actions_front_montant_uniquement() {
    let a_held = [true, false, false, false, false, false];
    assert!(decide_button_actions(a_held, a_held).is_empty());
    assert_eq!(decide_button_actions([false; BUTTON_COUNT], a_held), vec![(GamepadAction::ActivateSelection, KonamiInput::A)]);
}

#[test]
fn decide_button_actions_couvre_tous_les_boutons() {
    let pressed = |i: usize| {
        let mut buttons = [false; BUTTON_COUNT];
        buttons[i] = true;
        decide_button_actions([false; BUTTON_COUNT], buttons).into_iter().map(|(action, _)| action).collect::<Vec<_>>()
    };
    assert_eq!(pressed(1), vec![GamepadAction::ActivateSelection]);
    assert_eq!(pressed(2), vec![GamepadAction::Reject]);
    assert_eq!(pressed(3), vec![GamepadAction::ShowInfoForSelection]);
    assert_eq!(pressed(4), vec![GamepadAction::ToggleFullscreen]);
    assert_eq!(pressed(5), vec![GamepadAction::OpenSettings]);
}
