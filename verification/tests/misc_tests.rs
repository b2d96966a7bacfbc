use std::cell::RefCell;
use std::rc::Rc;

use ports_launcher::chrome::{
    default_font_family, desktop_entry, desktop_exec_arg, double_click_time_ms, ico_largest_png, icon_property_data,
    x11_window, NativeWindow,
};
use ports_launcher::dialog_nav::{info_button_step, search_list_filter, search_list_start, step};
use ports_launcher::font_fit::{
    longest_word_width, solve_font_for_height, title_font_px_for, whitespace_words, windowed_font_sizes, MIN_ITEM_FONT_PX,
    MIN_UNIT_H_PX, VISIBLE_ROWS,
};
use ports_launcher::gamepad_router::{
    button_call, dispatch, move_call, DispatchStep, GamepadAction, GamepadTarget, PollResult, TargetCall,
};
use ports_launcher::image_cache::is_cacheable_image;
use ports_launcher::konami::KonamiInput;
use ports_launcher::launch::{launch_mode, LaunchMode};
use ports_launcher::save_backup::{global_backup_dir, pending_restore_dir, save_inside, BackupOutcome, GlobalBackupSummary};
use ports_launcher::json::JsonValue;
use ports_launcher::installer::{seven_zip_failed, seven_zip_failure};
use ports_launcher::events::{events_to_apply, EventKind};

#[test]
fn desktop_exec_arg_echappe_les_caracteres_reserves() {
    assert_eq!(desktop_exec_arg("/opt/Ports Launcher/ports_launcher"), "\"/opt/Ports Launcher/ports_launcher\"");
    assert_eq!(desktop_exec_arg("/a$b/100%/c\"d"), "\"/a\\$b/100%%/c\\\"d\"");
}

#[test]
fn desktop_entry_complete() {
    let e = desktop_entry("/opt/pl");
    assert!(e.starts_with("[Desktop Entry]\nType=Application\nName=Ports Launcher\nExec=\"/opt/pl\"\n"));
    assert!(e.ends_with("StartupWMClass=ports_launcher\n"));
}

#[test]
fn reglages_fixes_de_linux() {
    assert_eq!(double_click_time_ms(), 500);
    assert_eq!(default_font_family(), "");
    assert_eq!(x11_window(NativeWindow::X11(7)), Some(7));
    assert_eq!(x11_window(NativeWindow::Wayland), None);
}

fn ico_with(entries: &[(u8, u8, u32, u32)], payload: &[u8]) -> Vec<u8> {
    let mut v = vec![0, 0, 1, 0, entries.len() as u8, 0];
    for &(w, h, size, offset) in entries {
        v.extend_from_slice(&[w, h, 0, 0, 0, 0, 0, 0]);
        v.extend_from_slice(&size.to_le_bytes());
        v.extend_from_slice(&offset.to_le_bytes());
    }
    v.extend_from_slice(payload);
    v
}

#[test]
fn ico_garde_la_plus_grande_image() {
    let header_len = 6 + 16 * 2;
    let ico = ico_with(&[(16, 16, 2, header_len), (0, 0, 3, header_len + 2)], &[1, 2, 3, 4, 5]);
    assert_eq!(ico_largest_png(&ico), Some(vec![3, 4, 5]));
    let truncated = ico_with(&[(16, 16, 9, 22)], &[1]);
    assert_eq!(ico_largest_png(&truncated), None);
    assert_eq!(ico_largest_png(&[0, 0, 1, 0, 0, 0]), None);
    assert_eq!(ico_largest_png(&[0, 0, 1]), None);
}

#[test]
fn icone_au_format_net_wm_icon() {
    assert_eq!(icon_property_data(&[1, 2, 3, 4, 9], 1, 1), vec![1, 1, 0x04010203]);
}

#[test]
fn png_reconnu_par_sa_signature() {
    assert!(is_cacheable_image(b"\x89PNG\r\n\x1a\n...."));
    assert!(!is_cacheable_image(b"<html>"));
}

#[test]
fn signatures_des_autres_formats_d_image() {
    assert!(is_cacheable_image(b"BM\x00\x01"));
    assert!(is_cacheable_image(b"\xff\xd8\xff\xe0"));
    assert!(is_cacheable_image(b"GIF87a"));
    assert!(is_cacheable_image(b"RIFF\x10\x20\x30\x40WEBPVP8 "));
    assert!(!is_cacheable_image(b"RIFF\x10\x20\x30\x40WAVE"));
    assert!(is_cacheable_image(b"\x00\x00\x12\x34ftypavif"));
    assert!(!is_cacheable_image(b"\x00\x01\x12\x34ftypavif"));
    assert!(is_cacheable_image(b"P3\n"));
    assert!(!is_cacheable_image(b"P8\n"));
    assert!(is_cacheable_image(b"farbfeld"));
    assert!(!is_cacheable_image(b"farbfel"));
    assert!(!is_cacheable_image(b""));
}

#[test]
fn step_borne_aux_extremites() {
    assert_eq!(step(0, 1, 2), Some(1));
    assert_eq!(step(1, 1, 2), None);
    assert_eq!(step(0, -1, 2), None);
    assert_eq!(step(0, 5, 3), Some(2));
    assert_eq!(step(0, 1, 0), None);
}

#[test]
fn boutons_info_sautent_les_desactives() {
    let mut enabled = [false; 10];
    enabled[1] = true;
    enabled[4] = true;
    enabled[7] = true;
    assert_eq!(info_button_step(1, 1, &enabled), Some(4));
    assert_eq!(info_button_step(4, 1, &enabled), Some(7));
    assert_eq!(info_button_step(7, 1, &enabled), None);
    assert_eq!(info_button_step(4, -1, &enabled), Some(1));
    assert_eq!(info_button_step(3, 1, &enabled), Some(4));
}

#[test]
fn lancement_par_le_shell_pour_raccourcis_et_scripts() {
    assert_eq!(launch_mode("/g/Game.LNK"), LaunchMode::Shell);
    assert_eq!(launch_mode("/g/run.cmd"), LaunchMode::Shell);
    assert_eq!(launch_mode("/g/game.exe"), LaunchMode::Direct);
    assert_eq!(launch_mode("/g/game"), LaunchMode::Direct);
}

#[test]
fn dossiers_de_sauvegarde() {
    assert_eq!(pending_restore_dir("/b", "f", "save_folder"), "/b/f/save_folder");
    assert_eq!(pending_restore_dir("/lib/.saves_backup", "Game", "save_folder2"), "/lib/.saves_backup/Game/save_folder2");
    assert_eq!(global_backup_dir("/b", "2026-01-01", "Game", "save_folder2"), "/b/Global Backups/2026-01-01/Game/save_folder2");
    let inside = JsonValue::String("Save".to_string());
    assert_eq!(save_inside(Some(&inside), "/lib/Game", &[]), Some("/lib/Game/Save".to_string()));
    let outside = JsonValue::String("/home/me/save".to_string());
    assert_eq!(save_inside(Some(&outside), "/lib/Game", &[]), None);
    assert_eq!(save_inside(None, "/lib/Game", &[]), None);
}

#[test]
fn bilan_de_sauvegarde_globale() {
    let mut s = GlobalBackupSummary::new();
    s.record(BackupOutcome::Copied);
    s.record(BackupOutcome::Nothing);
    s.record(BackupOutcome::Nothing);
    s.record(BackupOutcome::Failed);
    assert_eq!(s, GlobalBackupSummary { copied: 1, skipped: 2, failed: 1 });
}

struct Recorder {
    swallow_a: bool,
    calls: Rc<RefCell<Vec<String>>>,
}

impl GamepadTarget for Recorder {
    fn intercept(&self, input: Option<KonamiInput>) -> bool {
        self.swallow_a && input == Some(KonamiInput::A)
    }
    fn move_selection(&self, dx: i32, dy: i32) {
        self.calls.borrow_mut().push(format!("move {dx} {dy}"));
    }
    fn activate_selection(&self) {
        self.calls.borrow_mut().push("activate".to_string());
    }
    fn reject(&self) {
        self.calls.borrow_mut().push("reject".to_string());
    }
    fn show_info_for_selection(&self) {
        self.calls.borrow_mut().push("info".to_string());
    }
    fn toggle_fullscreen(&self) {
        self.calls.borrow_mut().push("fullscreen".to_string());
    }
    fn open_settings(&self) {
        self.calls.borrow_mut().push("settings".to_string());
    }
}

#[test]
fn dispatch_propose_chaque_entree_a_intercept() {
    assert_eq!(move_call(((0, 1), None), false), Some(TargetCall::MoveSelection(0, 1)));
    assert_eq!(move_call(((0, 1), None), true), None);
    assert_eq!(button_call(GamepadAction::Reject, false), Some(TargetCall::Reject));
    assert_eq!(button_call(GamepadAction::Reject, true), None);
    let log = Rc::new(RefCell::new(Vec::new()));
    let result = PollResult {
        target: Recorder { swallow_a: true, calls: log.clone() },
        moves: vec![((0, -1), Some(KonamiInput::Up))],
        actions: vec![
            (GamepadAction::ActivateSelection, KonamiInput::A),
            (GamepadAction::ActivateSelection, KonamiInput::Other),
            (GamepadAction::OpenSettings, KonamiInput::Other),
        ],
    };
    let steps = dispatch(result);
    assert_eq!(*log.borrow(), vec!["move 0 -1".to_string(), "activate".to_string(), "settings".to_string()]);
    assert_eq!(
        steps,
        vec![
            DispatchStep {
                offered: Some(KonamiInput::Up),
                intercepted: false,
                call: Some(TargetCall::MoveSelection(0, -1)),
            },
            DispatchStep { offered: Some(KonamiInput::A), intercepted: true, call: None },
            DispatchStep {
                offered: Some(KonamiInput::Other),
                intercepted: false,
                call: Some(TargetCall::ActivateSelection),
            },
            DispatchStep { offered: Some(KonamiInput::Other), intercepted: false, call: Some(TargetCall::OpenSettings) },
        ]
    );
}

#[test]
fn echec_de_l_outil_d_extraction() {
    assert!(!seven_zip_failed(Some(0)));
    assert!(!seven_zip_failed(Some(1)));
    assert!(seven_zip_failed(Some(2)));
    assert!(seven_zip_failed(None));
    assert_eq!(seven_zip_failure("read", b"ERROR: bad\n", b""), "7z.exe failed to read this archive: ERROR: bad");
}

#[test]
fn seuls_les_derniers_messages_de_progression_sont_appliques() {
    let kinds = [
        EventKind::InstallProgress,
        EventKind::SaveBackupProgress,
        EventKind::Other,
        EventKind::InstallProgress,
        EventKind::Other,
    ];
    assert_eq!(events_to_apply(&kinds), vec![false, true, true, true, true]);
    assert!(events_to_apply(&[]).is_empty());
}

fn linear_table() -> Vec<i32> {
    (8..=500).map(|px| px + px / 3).collect()
}

#[test]
fn converge_vers_un_linespace_proche_de_la_cible() {
    let table = linear_table();
    let (size, linespace) = solve_font_for_height(22, &table);
    assert_eq!((size, linespace), (17, 22));
    assert!((linespace - 22).abs() <= 3);
}

#[test]
fn respecte_le_plancher_de_8px() {
    let (size, _) = solve_font_for_height(1, &linear_table());
    assert_eq!(size, 8);
    let (size, _) = solve_font_for_height(-5, &linear_table());
    assert_eq!(size, 8);
}

#[test]
fn taille_maximale_quand_tout_tient() {
    let (size, linespace) = solve_font_for_height(i32::MAX, &linear_table());
    assert_eq!((size, linespace), (500, 666));
    let (size, _) = solve_font_for_height(300, &linear_table());
    assert_eq!(size, 225);
}

#[test]
fn liste_filtrable_et_ligne_de_depart() {
    let values = vec!["a".to_string(), "b".to_string(), "c".to_string()];
    assert_eq!(search_list_start(&values, "b"), 1);
    assert_eq!(search_list_start(&values, "z"), 0);
    let labels = vec!["Arc Dark".to_string(), "Nord".to_string(), "Dark Mode".to_string()];
    assert_eq!(search_list_filter(&labels, "DARK"), vec![0, 2]);
    assert!(search_list_filter(&labels, "zz").is_empty());
    assert_eq!(search_list_filter(&labels, ""), vec![0, 1, 2]);
}

#[test]
fn police_invalide_ne_plante_pas() {
    let fallback: Vec<i32> = (8..=500).collect();
    let (size, linespace) = solve_font_for_height(20, &fallback);
    assert_eq!((size, linespace), (20, 20));
    assert!(size >= 8);
}

#[test]
fn longest_word_width_texte_vide_est_zero() {
    let words = whitespace_words("");
    assert!(words.is_empty());
    let widths: Vec<i32> = words.iter().map(|w| w.chars().count() as i32).collect();
    assert_eq!(longest_word_width(&widths), 0);
}

#[test]
fn mots_separes_par_les_espaces() {
    assert_eq!(whitespace_words("  un\tdeux  trois\n"), vec!["un".to_string(), "deux".to_string(), "trois".to_string()]);
    assert_eq!(longest_word_width(&[3, 9, 4]), 9);
    assert_eq!(longest_word_width(&[-3, -1]), -1);
}

const SEARCH_BAR_UNITS: i32 = 2;
const TITLE_BAR_UNITS: i32 = 1;

#[test]
fn windowed_font_sizes_reste_coherent_sur_une_large_plage_de_tailles() {
    let table = linear_table();
    for window_height_px in (300..=7680).step_by(137) {
        for border_width_px in [0, 1, 3, 10, 50] {
            for rows in [1, VISIBLE_ROWS, 100] {
                let f = windowed_font_sizes(&table, window_height_px, border_width_px, rows);
                let ctx = format!("h={window_height_px} b={border_width_px} rows={rows}");
                assert!(f.row_height_px >= MIN_UNIT_H_PX, "{ctx}: row_height_px={}", f.row_height_px);
                assert!(f.item_font_px >= MIN_ITEM_FONT_PX, "{ctx}: item_font_px={}", f.item_font_px);
                assert!(f.title_font_px >= 8, "{ctx}: title_font_px={}", f.title_font_px);
                assert_eq!(f.search_bar_height_px, f.row_height_px * SEARCH_BAR_UNITS);
                assert_eq!(f.title_bar_height_px, f.row_height_px * TITLE_BAR_UNITS);
                assert!(
                    f.content_body_height_px > 0 && f.content_body_height_px <= f.row_height_px * rows,
                    "{ctx}: content_body_height_px={}",
                    f.content_body_height_px
                );
            }
        }
    }
}

#[test]
fn tailles_de_la_fenetre_de_1080_pixels() {
    let f = windowed_font_sizes(&linear_table(), 1080, 3, VISIBLE_ROWS);
    // (1080 - 6 - 48) / 29 = 35 pixels a row, 23 of them for the text line: size 17.
    assert_eq!(f.row_height_px, 35);
    assert_eq!(f.search_bar_height_px, 70);
    assert_eq!(f.title_bar_height_px, 35);
    assert_eq!(f.item_font_px, 17);
    assert_eq!(f.title_font_px, 15);
    assert_eq!(f.content_body_height_px, 35 * 25);
}

#[test]
fn taille_du_titre_comme_en_virgule_flottante() {
    for item in 0..=500 {
        let expected = ((item as f32) * (18.0f32 / 20.0f32)).round().max(8.0) as i32;
        assert_eq!(title_font_px_for(item), expected, "item={item}");
    }
}
