use ports_launcher::asset_select::AssetSelectionError;
use ports_launcher::json::JsonValue;
use ports_launcher::{github_api, gitlab_api};

fn s(x: &str) -> JsonValue {
    JsonValue::String(x.to_string())
}

fn obj(members: Vec<(&str, JsonValue)>) -> JsonValue {
    JsonValue::Object(members.into_iter().map(|(k, v)| (k.to_string(), v)).collect())
}

fn arr(items: Vec<JsonValue>) -> JsonValue {
    JsonValue::Array(items)
}

#[test]
fn urlencode_encode_les_slashs() {
    assert_eq!(gitlab_api::urlencode("group/project"), "group%2Fproject");
}

#[test]
fn urlencode_garde_les_caracteres_non_reserves() {
    assert_eq!(gitlab_api::urlencode("a-b_c.d~e"), "a-b_c.d~e");
    assert_eq!(gitlab_api::urlencode("é"), "%C3%A9");
    assert_eq!(gitlab_api::urlencode("a b"), "a%20b");
}

#[test]
fn release_assets_ne_garde_que_name_et_url() {
    let release = obj(vec![(
        "assets",
        obj(vec![(
            "links",
            arr(vec![obj(vec![("name", s("a.zip")), ("url", s("https://x/a.zip")), ("id", JsonValue::Bool(true))])]),
        )]),
    )]);
    assert_eq!(gitlab_api::release_assets(&release), vec![obj(vec![("name", s("a.zip")), ("url", s("https://x/a.zip"))])]);
}

#[test]
fn release_assets_vide_si_absent() {
    assert!(gitlab_api::release_assets(&obj(vec![])).is_empty());
}

#[test]
fn release_assets_ignore_un_lien_sans_url() {
    let release = obj(vec![("assets", obj(vec![("links", arr(vec![obj(vec![("name", s("a.zip"))])]))]))]);
    assert!(gitlab_api::release_assets(&release).is_empty());
}

#[test]
fn gitlab_tag_et_date_preferent_released_at() {
    let release = obj(vec![
        ("tag_name", s("v2")),
        ("released_at", s("2026-02-01T00:00:00Z")),
        ("created_at", s("2026-01-01T00:00:00Z")),
    ]);
    let (tag, date) = gitlab_api::tag_and_date(&release);
    assert_eq!(tag, "v2");
    assert_eq!(date.as_deref(), Some("2026-02-01T00:00:00Z"));
    let (tag, date) = gitlab_api::tag_and_date(&obj(vec![("created_at", s("c"))]));
    assert_eq!(tag, "");
    assert_eq!(date.as_deref(), Some("c"));
}

#[test]
fn gitlab_adresses_et_messages() {
    assert_eq!(
        gitlab_api::releases_url("group/project", 10),
        "https://gitlab.com/api/v4/projects/group%2Fproject/releases?per_page=10"
    );
    assert_eq!(gitlab_api::not_found("g/p"), "No project or release found for g/p.");
}

#[test]
fn github_tag_et_date_preferent_la_date_du_fichier() {
    let release = obj(vec![("tag_name", s("v1")), ("published_at", s("p"))]);
    let (tag, date) = github_api::tag_and_date(&release, &obj(vec![("updated_at", s("u"))]));
    assert_eq!(tag, "v1");
    assert_eq!(date.as_deref(), Some("u"));
    let (_, date) = github_api::tag_and_date(&release, &obj(vec![]));
    assert_eq!(date.as_deref(), Some("p"));
    let (_, date) = github_api::tag_and_date(&release, &obj(vec![("updated_at", JsonValue::Null)]));
    assert_eq!(date, None);
}

#[test]
fn github_adresses_et_messages() {
    assert_eq!(github_api::releases_url("o/r", 1), "https://api.github.com/repos/o/r/releases?per_page=1");
    assert_eq!(github_api::status_message(403), "GitHub API rate limit reached. Add a token in state.json.");
    assert_eq!(github_api::status_message(429), "GitHub API rate limit reached. Add a token in state.json.");
    assert_eq!(github_api::status_message(500), "GitHub error (HTTP 500)");
}

#[test]
fn github_liste_vide_est_une_erreur() {
    match github_api::releases_from_body(Some(arr(vec![])), "o/r") {
        Err(AssetSelectionError::Message(m)) => assert_eq!(m, "No release found for o/r."),
        _ => panic!("expected an error"),
    }
    assert!(github_api::releases_from_body(Some(obj(vec![])), "o/r").is_err());
    assert_eq!(github_api::releases_from_body(Some(arr(vec![obj(vec![])])), "o/r").unwrap().len(), 1);
}

#[test]
fn github_pick_release_asset_lit_le_tableau_assets() {
    let release = obj(vec![("assets", arr(vec![obj(vec![("name", s("only.zip"))])]))]);
    let picked = github_api::pick_release_asset(&release, None).unwrap();
    assert_eq!(picked, obj(vec![("name", s("only.zip"))]));
    assert!(github_api::pick_release_asset(&obj(vec![]), None).is_err());
}

#[test]
fn gitlab_pick_release_asset_prend_un_lien_prefere() {
    let release = obj(vec![(
        "assets",
        obj(vec![(
            "links",
            arr(vec![
                obj(vec![("name", s("Game-Linux")), ("url", s("https://x/l"))]),
                obj(vec![("name", s("Game-Windows")), ("url", s("https://x/w"))]),
            ]),
        )]),
    )]);
    let picked = gitlab_api::pick_release_asset(&release, Some("linux")).unwrap();
    assert_eq!(picked, obj(vec![("name", s("Game-Linux")), ("url", s("https://x/l"))]));
}
