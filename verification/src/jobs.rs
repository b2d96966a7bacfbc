//! Background jobs of the launcher: whether an installed port has an update.

use crate::models::{opt_text, SourceType};
use crate::state::InstalledInfo;
use crate::throttles::{is_stale_for_update_check_at, now_utc, older_than, spec_rfc3339_instant};
use crate::version::{bytes_lt, str_lt};
use vstd::prelude::*;
use vstd::string::StringSliceAdditionalSpecFns;

verus! {

/// An update is due when the installed tag is known and differs from the
/// latest one, or when the latest release is dated after the installation
/// (timestamps compared as text, which orders RFC 3339 dates).
pub open spec fn update_due(
    installed_tag: Option<Seq<char>>,
    installed_at: Seq<u8>,
    latest_tag: Seq<char>,
    latest_date: Option<Seq<u8>>,
) -> bool {
    let tag_changed = match installed_tag {
        Some(t) => t != latest_tag,
        None => false,
    };
    let date_newer = match latest_date {
        Some(d) => bytes_lt(installed_at, d),
        None => false,
    };
    tag_changed || date_newer
}

/// The `str`'s text, for an optional `str`.
pub open spec fn opt_str(o: Option<&str>) -> Option<Seq<char>> {
    match o {
        Some(s) => Some(s@),
        None => None,
    }
}

/// The `str`'s bytes, for an optional `str`.
pub open spec fn opt_bytes(o: Option<&str>) -> Option<Seq<u8>> {
    match o {
        Some(s) => Some(s.spec_bytes()),
        None => None,
    }
}

/// Whether the port installed with `installed_tag` at `installed_at` should be
/// updated to the latest release (see `update_due`).
pub fn update_decision(installed_tag: Option<&str>, installed_at: &str, latest_tag: &str, latest_date: Option<&str>) -> (r:
    bool)
    ensures
        r == update_due(opt_str(installed_tag), installed_at.spec_bytes(), latest_tag@, opt_bytes(latest_date)),
{
    let tag_changed = match installed_tag {
        Some(tag) => !crate::text::same_text(tag, latest_tag),
        None => false,
    };
    let date_newer = match latest_date {
        Some(latest) => str_lt(installed_at, latest),
        None => false,
    };
    tag_changed || date_newer
}

/// Playing a port first checks its releases when release checks are on, the
/// port comes from GitHub or GitLab, and its automatic updates are on (or it
/// has no record).
pub open spec fn update_check_wanted(release_sync: bool, source_type: SourceType, info: Option<InstalledInfo>) -> bool {
    &&& release_sync
    &&& (source_type == SourceType::Github || source_type == SourceType::Gitlab)
    &&& match info {
        Some(i) => i.update,
        None => true,
    }
}

/// The record of an installation, as a value.
pub open spec fn info_of(info: Option<&InstalledInfo>) -> Option<InstalledInfo> {
    match info {
        Some(x) => Some(*x),
        None => None,
    }
}

/// When the port was installed, as recorded (empty without a record).
pub open spec fn installed_at_of(info: Option<&InstalledInfo>) -> Seq<char> {
    match info {
        Some(x) => x.installed_at@,
        None => Seq::empty(),
    }
}

/// The installed tag, as recorded (none without a record).
pub open spec fn installed_tag_of(info: Option<&InstalledInfo>) -> Option<Seq<char>> {
    match info {
        Some(x) => opt_text(x.installed_tag),
        None => None,
    }
}

/// Whether to check for an update before playing at `now`, and with which
/// installed tag and date: exactly when wanted (see `update_check_wanted`)
/// and the installation is a day old or more, or its date unreadable.
pub fn play_update_check_at(
    release_sync: bool,
    source_type: SourceType,
    info: Option<&InstalledInfo>,
    now: (i64, u32),
) -> (r: Option<(Option<String>, String)>)
    ensures
        r is Some <==> update_check_wanted(release_sync, source_type, info_of(info)) && older_than(
            spec_rfc3339_instant(installed_at_of(info)),
            now,
            24,
        ),
        r matches Some((tag, installed_at)) ==> installed_at@ == installed_at_of(info) && opt_text(tag)
            == installed_tag_of(info),
{
    let forge = match source_type {
        SourceType::Github | SourceType::Gitlab => true,
        _ => false,
    };
    let enabled = match info {
        Some(i) => i.update,
        None => true,
    };
    if !(release_sync && forge && enabled) {
        return None;
    }
    let installed_at = match info {
        Some(i) => i.installed_at.clone(),
        None => String::new(),
    };
    if !is_stale_for_update_check_at(installed_at.as_str(), now) {
        return None;
    }
    let tag = match info {
        Some(i) => match &i.installed_tag {
            Some(t) => Some(t.clone()),
            None => None,
        },
        None => None,
    };
    Some((tag, installed_at))
}

/// Whether to check for an update before playing, now (see
/// `play_update_check_at`, at the time of the call): only when wanted, always
/// when the installation date is unreadable.
pub fn play_update_check(release_sync: bool, source_type: SourceType, info: Option<&InstalledInfo>) -> (r: Option<
    (Option<String>, String),
>)
    ensures
        r is Some ==> update_check_wanted(release_sync, source_type, info_of(info)),
        update_check_wanted(release_sync, source_type, info_of(info)) && spec_rfc3339_instant(installed_at_of(info))
            is None ==> r is Some,
        r matches Some((tag, installed_at)) ==> installed_at@ == installed_at_of(info) && opt_text(tag)
            == installed_tag_of(info),
{
    let now = now_utc();
    play_update_check_at(release_sync, source_type, info, now)
}

} // verus!
