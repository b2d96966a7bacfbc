//! What the information dialog of a port shows: the version line, and which
//! of its buttons are enabled (and so reachable from the gamepad).

use crate::installer::is_web_link;
use crate::json::text_of;
use crate::models::{opt_text, Port, SourceType};
use crate::state::InstalledInfo;
use crate::text::starts_with_seq;
use vstd::prelude::*;

verus! {

/// What the version line says.
#[derive(Debug, PartialEq, Eq)]
pub enum VersionStatus {
    NotInstalled,
    /// The installed release's tag.
    Tag(String),
    /// Installed from GitHub, tag unknown.
    UnknownGithub,
    /// Installed from GitLab, tag unknown.
    UnknownGitlab,
    /// Installed from a direct link or by hand: versions are not tracked.
    NoTracking,
}

/// The version line of a port with its record, if installed.
pub fn version_status(source_type: SourceType, info: Option<&InstalledInfo>) -> (r: VersionStatus)
    ensures
        match info {
            None => r == VersionStatus::NotInstalled,
            Some(i) => match (source_type, i.installed_tag) {
                (SourceType::Github, Some(t)) => r matches VersionStatus::Tag(s) && s@ == t@,
                (SourceType::Gitlab, Some(t)) => r matches VersionStatus::Tag(s) && s@ == t@,
                (SourceType::Github, None) => r == VersionStatus::UnknownGithub,
                (SourceType::Gitlab, None) => r == VersionStatus::UnknownGitlab,
                _ => r == VersionStatus::NoTracking,
            },
        },
{
    match info {
        None => VersionStatus::NotInstalled,
        Some(i) => match (source_type, &i.installed_tag) {
            (SourceType::Github, Some(t)) => VersionStatus::Tag(t.clone()),
            (SourceType::Gitlab, Some(t)) => VersionStatus::Tag(t.clone()),
            (SourceType::Github, None) => VersionStatus::UnknownGithub,
            (SourceType::Gitlab, None) => VersionStatus::UnknownGitlab,
            _ => VersionStatus::NoTracking,
        },
    }
}

/// What the dialog learns from the disk about a port.
pub struct InfoFacts {
    /// Its folder exists.
    pub installed: bool,
    /// Its folder holds at least one entry.
    pub has_files: bool,
    /// Its first save folder exists.
    pub save_exists: bool,
    /// Its second save folder exists.
    pub save2_exists: bool,
}

/// A web address: `http://` or `https://`.
pub open spec fn is_web(u: Seq<char>) -> bool {
    starts_with_seq(u, "http://"@) || starts_with_seq(u, "https://"@)
}

/// The port has releases to choose from.
pub open spec fn has_releases(p: Port) -> bool {
    (p.source_type == SourceType::Github || p.source_type == SourceType::Gitlab) && p.repo is Some
}

/// The home page the dialog links to (see `Port::website_url`).
pub open spec fn shown_website(p: Port) -> Option<Seq<char>> {
    match p.website {
        Some(w) => Some(w@),
        None => if p.source_type == SourceType::Github || p.source_type == SourceType::Gitlab {
            text_of(p.source.model())
        } else {
            None
        },
    }
}

/// The buttons of the dialog, in order: change version, automatic updates,
/// favourite executable, extra files, reset play time, game folder, save
/// folder, second save folder, mods page, website.
pub open spec fn buttons_enabled(p: Port, playtime: nat, f: InfoFacts) -> Seq<bool> {
    seq![
        has_releases(p),
        has_releases(p) && f.installed,
        f.has_files,
        p.extra is Some && f.installed,
        f.installed && playtime > 0,
        f.installed,
        f.save_exists,
        f.save2_exists,
        opt_text(p.mods) matches Some(m) && is_web(m),
        shown_website(p) matches Some(w) && is_web(w),
    ]
}

/// Which buttons of the dialog are enabled (see `buttons_enabled`).
pub fn info_buttons_enabled(port: &Port, playtime_seconds: u64, facts: InfoFacts) -> (r: [bool; 10])
    ensures
        r@ == buttons_enabled(*port, playtime_seconds as nat, facts),
{
    let releases = match port.source_type {
        SourceType::Github | SourceType::Gitlab => port.repo.is_some(),
        _ => false,
    };
    let mods = match &port.mods {
        Some(m) => is_web_link(m.as_str()),
        None => false,
    };
    let website = match port.website_url() {
        Some(w) => is_web_link(w),
        None => false,
    };
    let r = [
        releases,
        releases && facts.installed,
        facts.has_files,
        port.extra.is_some() && facts.installed,
        facts.installed && playtime_seconds > 0,
        facts.installed,
        facts.save_exists,
        facts.save2_exists,
        mods,
        website,
    ];
    proof {
        assert(r@ =~= buttons_enabled(*port, playtime_seconds as nat, facts));
    }
    r
}

/// The button highlighted when the dialog opens: the first enabled one, or
/// the first button when none is.
pub fn first_enabled(enabled: &[bool; 10]) -> (r: i32)
    ensures
        0 <= r < 10,
        r > 0 ==> enabled@[r as int] && forall|i: int| 0 <= i < r ==> !enabled@[i],
        r == 0 ==> enabled@[0] || forall|i: int| 0 <= i < 10 ==> !enabled@[i],
{
    let mut i: usize = 0;
    while i < 10
        invariant
            i <= 10,
            enabled@.len() == 10,
            forall|k: int| 0 <= k < i ==> !enabled@[k],
        decreases 10 - i,
    {
        if enabled[i] {
            return i as i32;
        }
        i = i + 1;
    }
    0
}

} // verus!
