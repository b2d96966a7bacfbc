use ports_launcher::grid::{card_click, CardClick};
use ports_launcher::grid::{chunk_into_rows, next_grid_position};
use ports_launcher::version::is_newer_date;

#[test]
fn chunk_groupe_par_lignes_avec_reste() {
    assert_eq!(chunk_into_rows(&[1, 2, 3, 4, 5], 2), vec![vec![1, 2], vec![3, 4], vec![5]]);
}

#[test]
fn chunk_colonnes_zero_traite_comme_une_seule_colonne() {
    assert_eq!(chunk_into_rows(&[1, 2], 0), vec![vec![1], vec![2]]);
}

#[test]
fn chunk_liste_vide_donne_aucune_ligne() {
    assert!(chunk_into_rows::<i32>(&[], 3).is_empty());
}

#[test]
fn next_grid_position_reste_toujours_dans_les_bornes_reelles() {
    for len in 0..=37usize {
        for columns in 1..=8usize {
            for start_flat in 0..len.max(1) {
                let start = (start_flat / columns, start_flat % columns);
                for dx in [-5, -1, 0, 1, 5] {
                    for dy in [-5, -1, 0, 1, 5] {
                        match next_grid_position(start, dx, dy, columns, len) {
                            Some((row, col)) => assert!(row * columns + col < len, "len={len} columns={columns} start={start:?} dx={dx} dy={dy}"),
                            None => assert_eq!(len, 0),
                        }
                    }
                }
            }
        }
    }
}

#[test]
fn next_grid_position_carte_seule_sur_derniere_ligne_incomplete() {
    let (len, columns) = (7, 4);
    assert_eq!(next_grid_position((1, 2), 1, 0, columns, len), Some((1, 2)));
    assert_eq!(next_grid_position((1, 2), 5, 0, columns, len), Some((1, 2)));
    assert_eq!(next_grid_position((0, 0), 0, 1, columns, len), Some((1, 0)));
}

#[test]
fn next_grid_position_recule_au_debut() {
    assert_eq!(next_grid_position((1, 1), -10, 0, 4, 7), Some((0, 0)));
    assert_eq!(next_grid_position((1, 1), 0, -1, 4, 7), Some((0, 1)));
}

#[test]
fn is_newer_date_detecte_une_date_posterieure() {
    assert!(is_newer_date("2026-09-18T09:33:01Z", "2026-09-17"));
}

#[test]
fn is_newer_date_ignore_un_build_du_meme_jour() {
    assert!(!is_newer_date("2026-09-18T09:33:01Z", "2026-09-18"));
}

#[test]
fn is_newer_date_gere_le_changement_d_annee() {
    assert!(is_newer_date("2027-01-01T00:00:00Z", "2026-12-31"));
}

#[test]
fn is_newer_date_chaine_courte_comparee_entiere() {
    assert!(is_newer_date("2027", "2026-12-31"));
    assert!(!is_newer_date("", "2026-12-31"));
}

const MS: u64 = 1_000_000;

#[test]
fn double_clic_sur_une_carte() {
    let (first, last) = card_click(None, (0, 1), 1_000 * MS, 500);
    assert_eq!(first, CardClick::Remembered);
    assert_eq!(last, Some(((0, 1), 1_000 * MS)));
    assert_eq!(card_click(last, (0, 1), 1_020 * MS, 500), (CardClick::Duplicate, last));
    assert_eq!(card_click(last, (0, 1), 1_300 * MS, 500), (CardClick::Activate, None));
    assert_eq!(card_click(last, (0, 1), 1_500 * MS, 500), (CardClick::Activate, None));
    assert_eq!(card_click(last, (0, 1), 1_501 * MS, 500), (CardClick::Remembered, Some(((0, 1), 1_501 * MS))));
    assert_eq!(card_click(last, (1, 1), 1_300 * MS, 500), (CardClick::Remembered, Some(((1, 1), 1_300 * MS))));
}
