use ports_launcher::cheats::CheatInput::{Down, Left, Right, Up, A, B, Y};
use ports_launcher::cheats::{final_bout, konami, search_cheat, CheatInput, Cheats, Rng, SearchCheat};
use ports_launcher::sequence::SequenceDetector;

fn feed_all_cheat(detector: &mut SequenceDetector<CheatInput>, inputs: &[CheatInput]) -> bool {
    inputs.iter().fold(false, |_, &input| detector.feed(input))
}

#[test]
fn cheats_sequence_complete_declenche_une_seule_fois() {
    let code = konami();
    let mut detector = SequenceDetector::new(konami());
    assert!(feed_all_cheat(&mut detector, &code));
    assert_eq!(detector.progress(), 0);
    assert!(!detector.feed(CheatInput::A));
}

#[test]
fn cheats_haut_supplementaire_ne_casse_pas_la_sequence() {
    let mut detector = SequenceDetector::new(konami());
    assert!(feed_all_cheat(&mut detector, &[Up, Up, Up, Down, Down, Left, Right, Left, Right, B, A]));
}

#[test]
fn cheats_erreur_puis_reprise() {
    let mut detector = SequenceDetector::new(konami());
    feed_all_cheat(&mut detector, &[Up, Up, Down, CheatInput::Other]);
    assert_eq!(detector.progress(), 0);
    assert!(feed_all_cheat(&mut detector, &konami()));
}

#[test]
fn cheats_progression_suit_la_saisie() {
    let code = konami();
    let mut detector = SequenceDetector::new(konami());
    feed_all_cheat(&mut detector, &code[..8]);
    assert!(detector.expects(B));
    detector.feed(B);
    assert_eq!(detector.progress(), 9);
    assert!(detector.expects(A));
    detector.feed(Up);
    assert_eq!(detector.progress(), 1);
}

#[test]
fn final_bout_demande_le_bon_nombre_de_triangles_et_de_croix() {
    let code = final_bout();
    let mut detector = SequenceDetector::new(final_bout());
    assert!(!feed_all_cheat(&mut detector, &code[..21]));
    assert!(detector.expects(A));
    assert!(detector.feed(A));
    let mut detector = SequenceDetector::new(final_bout());
    feed_all_cheat(&mut detector, &code[..13]);
    assert!(!detector.expects(Y));
}

#[test]
fn cheats_pick_evite_la_valeur_precedente() {
    let mut rng = Rng::new();
    for _ in 0..100 {
        assert_ne!(rng.pick(3, Some(1)), 1);
    }
    assert_eq!(rng.pick(1, Some(0)), 0);
}

#[test]
fn les_boutons_attendus_par_un_code_sont_avales() {
    let mut cheats = Cheats::new();
    for input in [Up, Up, Down, Down, Left, Right, Left, Right] {
        let o = cheats.intercept(Some(input));
        assert!(!o.consumed);
    }
    let o = cheats.intercept(Some(B));
    assert!(o.consumed && !o.konami_done);
    let o = cheats.intercept(Some(A));
    assert!(o.consumed && o.konami_done && !o.final_bout_done);
    let o = cheats.intercept(Some(B));
    assert!(!o.consumed);
    assert!(!cheats.intercept(None).consumed);
}

#[test]
fn une_animation_en_cours_avale_tout() {
    let mut cheats = Cheats::new();
    cheats.running = true;
    let o = cheats.intercept(Some(Up));
    assert!(o.consumed && !o.konami_done);
    assert!(cheats.intercept(None).consumed);
    assert_eq!(cheats.konami.progress(), 0);
}

#[test]
fn codes_tapes_dans_la_recherche() {
    assert_eq!(search_cheat("  Do A Barrel Roll "), Some(SearchCheat::BarrelRoll));
    assert_eq!(search_cheat("askew"), Some(SearchCheat::Askew));
    assert_eq!(search_cheat("BIG HEAD MODE"), Some(SearchCheat::BigHeadMode));
    assert_eq!(search_cheat("power overwhelming"), Some(SearchCheat::PowerOverwhelming));
    assert_eq!(search_cheat("IDDQD"), Some(SearchCheat::Iddqd));
    assert_eq!(search_cheat("idkfa"), None);
}
