use ports_launcher::cheats::Rng;
use ports_launcher::konami::KonamiInput::{Down, Left, Right, Up, A, B};
use ports_launcher::konami::{konami_sequence, KonamiDetector, KonamiInput};

fn feed_all_konami(detector: &mut KonamiDetector, inputs: &[KonamiInput]) -> bool {
    inputs.iter().fold(false, |_, &input| detector.feed(input))
}

#[test]
fn konami_sequence_complete_declenche_une_seule_fois() {
    let sequence = konami_sequence();
    let mut detector = KonamiDetector::default();
    assert!(feed_all_konami(&mut detector, &sequence));
    assert_eq!(detector.progress(), 0);
    assert!(!detector.feed(KonamiInput::A));
}

#[test]
fn konami_haut_supplementaire_ne_casse_pas_la_sequence() {
    let mut detector = KonamiDetector::default();
    assert!(feed_all_konami(&mut detector, &[Up, Up, Up, Down, Down, Left, Right, Left, Right, B, A]));
}

#[test]
fn konami_erreur_puis_reprise() {
    let mut detector = KonamiDetector::default();
    feed_all_konami(&mut detector, &[Up, Up, Down, KonamiInput::Other]);
    assert_eq!(detector.progress(), 0);
    assert!(feed_all_konami(&mut detector, &konami_sequence()));
}

#[test]
fn konami_progression_suit_la_saisie() {
    let sequence = konami_sequence();
    let mut detector = KonamiDetector::default();
    feed_all_konami(&mut detector, &sequence[..8]);
    assert!(detector.expects(B));
    detector.feed(B);
    assert_eq!(detector.progress(), 9);
    assert!(detector.expects(A));
    detector.feed(Up);
    assert_eq!(detector.progress(), 1);
}

#[test]
fn konami_code_tape_deux_fois_declenche_deux_fois() {
    let sequence = konami_sequence();
    let mut detector = KonamiDetector::default();
    let results: Vec<bool> = sequence.iter().chain(sequence.iter()).map(|&i| detector.feed(i)).collect();
    let fired: Vec<usize> = results.iter().enumerate().filter(|(_, &r)| r).map(|(i, _)| i).collect();
    assert_eq!(fired, vec![9, 19]);
}

#[test]
fn konami_pick_evite_la_valeur_precedente() {
    let mut rng = Rng::new();
    for _ in 0..100 {
        assert_ne!(rng.pick(3, Some(1)), 1);
    }
    assert_eq!(rng.pick(1, Some(0)), 0);
}

#[test]
fn pick_suit_la_suite_xorshift() {
    let mut rng = Rng::from_seed(2);
    // seed 3, then 24579, 24771, 3246809283 through the three shifts
    assert_eq!(rng.pick(10, None), (3246809283u64 % 10) as usize);
}

const UP: [bool; 4] = [true, false, false, false];

#[test]
fn konami_declenche_quand_les_dix_dernieres_entrees_sont_le_code() {
    let code = konami_sequence();
    let mut inputs = vec![Down, Up, Up, Up, Down, Down, Left, Right, Left, Right, B, A, A];
    inputs.extend_from_slice(&[Up, Up, Down, Down, Left, Right, Left, Right, B, Up, Up, Down]);
    inputs.extend_from_slice(&code);
    inputs.extend_from_slice(&code[..5]);
    inputs.extend_from_slice(&code);
    let mut detector = KonamiDetector::default();
    let mut since_last: Vec<KonamiInput> = Vec::new();
    let mut fired = 0;
    for &x in &inputs {
        since_last.push(x);
        let expected = since_last.len() >= 10 && since_last[since_last.len() - 10..] == code[..];
        assert_eq!(detector.feed(x), expected);
        if expected {
            fired += 1;
            since_last.clear();
            assert_eq!(detector.progress(), 0);
        }
    }
    assert_eq!(fired, 3);
}
