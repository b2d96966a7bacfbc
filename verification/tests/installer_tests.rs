use ports_launcher::installer::{
    anchor_match, direct_download, download_label, install_destination, is_gzip_kind, is_nsis_kind, is_web_link,
    listing_summary, needs_extraction, pixeldrain_file_id, redirected_name, reject_if_too_large, release_download,
    safe_download_name, seven_zip_error, InstallError, MAX_UNCOMPRESSED_SIZE,
};
use ports_launcher::json::JsonValue;

fn s(x: &str) -> JsonValue {
    JsonValue::String(x.to_string())
}

fn obj(members: Vec<(&str, JsonValue)>) -> JsonValue {
    JsonValue::Object(members.into_iter().map(|(k, v)| (k.to_string(), v)).collect())
}

fn message(e: InstallError) -> String {
    match e {
        InstallError::Message(m) => m,
        InstallError::Ambiguous(m, _) => panic!("unexpected ambiguity: {m}"),
    }
}

#[test]
fn reject_if_too_large_accepte_sous_la_limite_et_rejette_au_dessus() {
    assert!(reject_if_too_large(MAX_UNCOMPRESSED_SIZE, MAX_UNCOMPRESSED_SIZE).is_ok());
    assert!(reject_if_too_large(MAX_UNCOMPRESSED_SIZE + 1, MAX_UNCOMPRESSED_SIZE).is_err());
}

#[test]
fn reject_if_too_large_donne_la_taille_en_gio_a_un_dixieme() {
    let m = message(reject_if_too_large(MAX_UNCOMPRESSED_SIZE + 1, MAX_UNCOMPRESSED_SIZE).unwrap_err());
    assert_eq!(m, "This archive claims to decompress to 20.0 GB, which looks like a zip bomb -- refusing to extract it.");
    let m = message(reject_if_too_large(1610612736, 0).unwrap_err());
    assert!(m.contains(" 1.5 GB"));
    let m = message(reject_if_too_large(268435456, 0).unwrap_err());
    assert!(m.contains(" 0.2 GB"));
}

#[test]
fn pixeldrain_file_id_extrait_un_lien_de_partage() {
    assert_eq!(pixeldrain_file_id("https://pixeldrain.com/u/XQjoRAjJ").as_deref(), Some("XQjoRAjJ"));
    assert_eq!(pixeldrain_file_id("http://pixeldrain.com/u/XQjoRAjJ").as_deref(), Some("XQjoRAjJ"));
    assert_eq!(pixeldrain_file_id("https://pixeldrain.com/u/XQjoRAjJ?x=1").as_deref(), Some("XQjoRAjJ"));
}

#[test]
fn pixeldrain_file_id_ignore_les_liens_deja_directs_ou_non_pixeldrain() {
    assert_eq!(pixeldrain_file_id("https://pixeldrain.com/api/file/XQjoRAjJ"), None);
    assert_eq!(pixeldrain_file_id("https://example.com/u/XQjoRAjJ"), None);
    assert_eq!(pixeldrain_file_id("https://github.com/foo/bar/releases/download/v1/a.zip"), None);
}

#[test]
fn pixeldrain_file_id_vide_est_ignore() {
    assert_eq!(pixeldrain_file_id("https://pixeldrain.com/u/"), None);
    assert_eq!(pixeldrain_file_id("https://pixeldrain.com/u/#x"), None);
}

#[test]
fn safe_download_name_ne_garde_que_le_dernier_composant() {
    assert_eq!(safe_download_name("../../../Startup/evil.exe"), "evil.exe");
    assert_eq!(safe_download_name("game.zip"), "game.zip");
    assert_eq!(safe_download_name(".."), "download");
    assert_eq!(safe_download_name(""), "download");
}

#[test]
fn seven_zip_error_prefere_la_sortie_d_erreur() {
    assert_eq!(
        seven_zip_error(b"7-Zip\nERROR: from stdout\n", b"  ERROR: Can not open the file as archive  \r\nx\n"),
        "ERROR: Can not open the file as archive"
    );
    assert_eq!(seven_zip_error(b"banner\nERROR: Data Error : x.zip\nErrors: 1\n", b""), "ERROR: Data Error : x.zip");
    assert_eq!(seven_zip_error(b"all good\n", b""), "unknown error");
}

#[test]
fn listing_summary_lit_le_type_et_additionne_les_tailles() {
    let listing = b"Path = x.zip\nType = zip\n\nPath = a\nSize = 100\n\nPath = b\nSize =  23 \nSize = abc\n";
    let (kind, total) = listing_summary(listing);
    assert_eq!(kind, "zip");
    assert_eq!(total, 123);
    let (kind, total) = listing_summary(b"nothing here");
    assert_eq!(kind, "");
    assert_eq!(total, 0);
}

#[test]
fn listing_summary_sature_une_taille_demesuree() {
    let listing = b"Size = 18446744073709551615\nSize = 1\n";
    assert_eq!(listing_summary(listing).1, u64::MAX);
}

#[test]
fn needs_extraction_selon_l_extension_et_l_ancre() {
    assert!(needs_extraction("/tmp/Game.ZIP", None));
    assert!(needs_extraction("/tmp/game.tar.gz", None));
    assert!(!needs_extraction("/tmp/game.exe", None));
    assert!(needs_extraction("/tmp/game.exe", Some("Game.exe")));
    assert!(!needs_extraction("/tmp/readme.txt", Some("x")));
}

#[test]
fn types_d_archive_ignorent_la_casse_ascii() {
    assert!(is_nsis_kind("Nsis"));
    assert!(is_nsis_kind("NSIS"));
    assert!(!is_nsis_kind("Zip"));
    assert!(is_gzip_kind("gzip"));
    assert!(!is_gzip_kind("gzip2"));
}

#[test]
fn anchor_match_exige_une_seule_correspondance() {
    let names = vec!["readme.txt".to_string(), "Game.EXE".to_string(), "setup.exe".to_string()];
    assert_eq!(anchor_match(&names, "game.exe").unwrap(), 1);
    assert_eq!(
        message(anchor_match(&names, "missing").unwrap_err()),
        "No file matches \"missing\" (see \"exe_is_archive\" for this port)."
    );
    assert_eq!(message(anchor_match(&names, ".exe").unwrap_err()), "2 files match \".exe\" -- please report this port.");
}

#[test]
fn release_download_lit_nom_lien_et_tag() {
    let release = obj(vec![("tag_name", s("v1.2"))]);
    let asset = obj(vec![("name", s("../x/game.zip")), ("browser_download_url", s("https://h/game.zip"))]);
    let d = release_download(&release, &asset, "browser_download_url").ok().unwrap();
    assert_eq!(d.file_name, "game.zip");
    assert_eq!(d.url, "https://h/game.zip");
    assert_eq!(d.tag.as_deref(), Some("v1.2"));
    let e = release_download(&release, &asset, "url").err().unwrap();
    assert_eq!(message(e), "Asset without a \"url\" field -- please report this port.");
}

#[test]
fn direct_download_prend_le_dernier_segment() {
    let (name, url) = direct_download(&s("https://example.com/files/pack.7z")).ok().unwrap();
    assert_eq!(name, "pack.7z");
    assert_eq!(url, "https://example.com/files/pack.7z");
    let e = direct_download(&JsonValue::Null).err().unwrap();
    assert_eq!(message(e), "\"source\" is not a usable link for this port");
}

#[test]
fn install_destination_refuse_une_sortie_et_un_port_local() {
    assert_eq!(install_destination("/lib", "game", false).ok().unwrap(), "/lib/game");
    assert_eq!(message(install_destination("/lib", "../evil", false).err().unwrap()), "\"../evil\" sort de \"/lib\"");
    assert_eq!(
        message(install_destination("/lib", "game", true).err().unwrap()),
        "This port has no download source -- place the game files yourself in \"/lib/game\"."
    );
}

#[test]
fn liens_web_et_noms_de_telechargement() {
    assert!(is_web_link("https://x/y.png"));
    assert!(is_web_link("http://x/y.png"));
    assert!(!is_web_link("cover.png"));
    assert_eq!(download_label("https://x/files/a.zip"), "Downloading a.zip...");
    assert_eq!(redirected_name("/dl/real.zip", "123"), Some("real.zip".to_string()));
    assert_eq!(redirected_name("/dl/123", "123"), None);
    assert_eq!(redirected_name("/dl/real.zip", "real.zip"), None);
}
