//! How often the launcher asks the network: a check is due when the last one
//! is older than its interval, or when its date cannot be read.

use vstd::prelude::*;

verus! {

/// The instant an RFC 3339 timestamp names, as seconds since the Unix epoch
/// and nanoseconds (`DateTime::parse_from_rfc3339`, then `timestamp` and
/// `timestamp_subsec_nanos`); none when chrono rejects the text.
pub uninterp spec fn spec_rfc3339_instant(s: Seq<char>) -> Option<(i64, u32)>;

/// `chrono::DateTime::parse_from_rfc3339`, read as seconds and nanoseconds
/// since the epoch. The grammar it accepts is only named here.
#[verifier::external_body]
fn parse_rfc3339(s: &str) -> (r: Option<(i64, u32)>)
    ensures
        r == spec_rfc3339_instant(s@),
{
    match chrono::DateTime::parse_from_rfc3339(s) {
        Ok(d) => Some((d.timestamp(), d.timestamp_subsec_nanos())),
        Err(_) => None,
    }
}

/// `SystemTime::now().duration_since(UNIX_EPOCH)`: how long after the epoch
/// the clock reads (`Ok`), or how long before it (`Err`), as seconds and
/// nanoseconds. Nothing is promised of the reading but that the nanoseconds
/// of a `Duration` are below one billion.
#[verifier::external_body]
fn system_clock() -> (r: Result<(u64, u32), (u64, u32)>)
    ensures
        match r {
            Ok((_, n)) => n < 1000000000,
            Err((_, n)) => n < 1000000000,
        },
{
    match std::time::SystemTime::now().duration_since(std::time::SystemTime::UNIX_EPOCH) {
        Ok(d) => Ok((d.as_secs(), d.subsec_nanos())),
        Err(e) => Err((e.duration().as_secs(), e.duration().subsec_nanos())),
    }
}

/// The instant of a clock reading, as seconds since the epoch (negative
/// before it, saturated to the range of `i64`) and nanoseconds.
pub open spec fn instant_of(reading: Result<(u64, u32), (u64, u32)>) -> (i64, u32) {
    match reading {
        Ok((s, n)) => (if s <= i64::MAX { s as i64 } else { i64::MAX }, n),
        Err((s, n)) => if n == 0 {
            ((if s <= i64::MAX { -(s as int) } else { -(i64::MAX as int) }) as i64, 0u32)
        } else {
            ((if s < i64::MAX { -(s as int) - 1 } else { i64::MIN as int }) as i64, (1000000000 - n) as u32)
        },
    }
}

/// The instant of a clock reading (see `instant_of`).
fn clock_instant(reading: Result<(u64, u32), (u64, u32)>) -> (r: (i64, u32))
    requires
        match reading {
            Ok((_, n)) => n < 1000000000,
            Err((_, n)) => n < 1000000000,
        },
    ensures
        r == instant_of(reading),
{
    match reading {
        Ok((s, n)) => (if s <= 9223372036854775807 { s as i64 } else { i64::MAX }, n),
        Err((s, n)) => if n == 0 {
            (if s <= 9223372036854775807 { -(s as i64) } else { -i64::MAX }, 0)
        } else {
            (if s < 9223372036854775807 { -(s as i64) - 1 } else { i64::MIN }, 1000000000 - n)
        },
    }
}

/// The current time, as seconds since the Unix epoch and nanoseconds (before
/// the epoch too, where `Utc::now` would stop the program).
pub(crate) fn now_utc() -> (r: (i64, u32)) {
    clock_instant(system_clock())
}

/// Hours of the interval between two checks of the launcher's own releases.
pub const LAUNCHER_UPDATE_CHECK_INTERVAL_HOURS: i64 = 24;

/// Hours after which an installed port's release is checked again.
pub const PORT_UPDATE_STALE_HOURS: i64 = 24;

/// Hours of the interval between two checks of the catalogue.
pub const CATALOG_CHECK_INTERVAL_HOURS: i64 = 12;

/// Hours of the interval between two checks of the themes.
pub const THEMES_CHECK_INTERVAL_HOURS: i64 = 12;

/// The largest number of hours chrono's `Duration::hours` accepts.
pub open spec fn max_hours() -> int {
    2562047788015
}

/// At `now`, the instant `last` (when it could be read) lies at least `hours`
/// hours back; an unreadable date counts as old.
pub open spec fn older_than(last: Option<(i64, u32)>, now: (i64, u32), hours: int) -> bool {
    match last {
        Some((s, n)) => (now.0 - s) * 1000000000 + (now.1 - n) >= hours * 3600000000000,
        None => true,
    }
}

/// Whether `timestamp` is at least `hours` hours before `now`.
pub fn is_older_than_at(timestamp: &str, hours: i64, now: (i64, u32)) -> (r: bool)
    requires
        -max_hours() <= hours <= max_hours(),
    ensures
        r == older_than(spec_rfc3339_instant(timestamp@), now, hours as int),
{
    match parse_rfc3339(timestamp) {
        Some((s, n)) => {
            let diff: i128 = ((now.0 as i128) - (s as i128)) * 1000000000 + ((now.1 as i128) - (n as i128));
            diff >= (hours as i128) * 3600000000000
        },
        None => true,
    }
}

/// Whether `timestamp` is at least `hours` hours old now (always, when it
/// cannot be read).
pub fn is_older_than(timestamp: &str, hours: i64) -> (r: bool)
    requires
        -max_hours() <= hours <= max_hours(),
    ensures
        spec_rfc3339_instant(timestamp@) is None ==> r,
{
    let now = now_utc();
    is_older_than_at(timestamp, hours, now)
}

/// Whether an installed port (installed at `installed_at`) is due for an
/// update check at `now`: installed a day ago or more, or at an unreadable
/// date.
pub fn is_stale_for_update_check_at(installed_at: &str, now: (i64, u32)) -> (r: bool)
    ensures
        r == older_than(spec_rfc3339_instant(installed_at@), now, 24),
{
    is_older_than_at(installed_at, PORT_UPDATE_STALE_HOURS, now)
}

/// Whether an installed port (installed at `installed_at`) is due for an
/// update check now (see `is_stale_for_update_check_at`, at the time of the
/// call).
pub fn is_stale_for_update_check(installed_at: &str) -> (r: bool)
    ensures
        spec_rfc3339_instant(installed_at@) is None ==> r,
{
    let now = now_utc();
    is_stale_for_update_check_at(installed_at, now)
}

/// When the network was last asked, and what it answered.
pub struct SyncState {
    /// Checks of the launcher's own releases are on.
    pub release_sync: bool,
    pub last_launcher_update_check: String,
    pub launcher_update_available: bool,
    /// Checks of the catalogue and themes are on.
    pub catalog_sync: bool,
    pub last_catalog_check: String,
    pub last_catalog_etag: String,
    pub last_themes_check: String,
    pub last_themes_etag: String,
}

impl SyncState {
    /// Whether the launcher's releases are due for a check at `now`: checks
    /// on, no update known yet, a check done before (the first one is made
    /// elsewhere), and that one a day old or unreadable.
    pub fn should_check_launcher_update_at(&self, now: (i64, u32)) -> (r: bool)
        ensures
            r == (self.release_sync && !self.launcher_update_available && self.last_launcher_update_check@.len() > 0
                && older_than(spec_rfc3339_instant(self.last_launcher_update_check@), now, 24)),
    {
        self.release_sync && !self.launcher_update_available && !self.last_launcher_update_check.as_str().is_empty()
            && is_older_than_at(self.last_launcher_update_check.as_str(), LAUNCHER_UPDATE_CHECK_INTERVAL_HOURS, now)
    }

    /// Whether the launcher's releases are due for a check now.
    pub fn should_check_launcher_update(&self) -> (r: bool)
        ensures
            r ==> self.release_sync && !self.launcher_update_available && self.last_launcher_update_check@.len() > 0,
            self.release_sync && !self.launcher_update_available && self.last_launcher_update_check@.len() > 0
                && spec_rfc3339_instant(self.last_launcher_update_check@) is None ==> r,
    {
        let now = now_utc();
        self.should_check_launcher_update_at(now)
    }

    /// Whether the catalogue is due for a check at `now`.
    pub fn should_check_catalog_at(&self, now: (i64, u32)) -> (r: bool)
        ensures
            r == (self.catalog_sync && older_than(spec_rfc3339_instant(self.last_catalog_check@), now, 12)),
    {
        self.catalog_sync && is_older_than_at(self.last_catalog_check.as_str(), CATALOG_CHECK_INTERVAL_HOURS, now)
    }

    /// Whether the catalogue is due for a check now.
    pub fn should_check_catalog(&self) -> (r: bool)
        ensures
            r ==> self.catalog_sync,
            self.catalog_sync && spec_rfc3339_instant(self.last_catalog_check@) is None ==> r,
    {
        let now = now_utc();
        self.should_check_catalog_at(now)
    }

    /// Whether the themes are due for a check at `now`.
    pub fn should_check_themes_at(&self, now: (i64, u32)) -> (r: bool)
        ensures
            r == (self.catalog_sync && older_than(spec_rfc3339_instant(self.last_themes_check@), now, 12)),
    {
        self.catalog_sync && is_older_than_at(self.last_themes_check.as_str(), THEMES_CHECK_INTERVAL_HOURS, now)
    }

    /// Whether the themes are due for a check now.
    pub fn should_check_themes(&self) -> (r: bool)
        ensures
            r ==> self.catalog_sync,
            self.catalog_sync && spec_rfc3339_instant(self.last_themes_check@) is None ==> r,
    {
        let now = now_utc();
        self.should_check_themes_at(now)
    }

    /// Records a check of the launcher's releases made at `now`.
    pub fn mark_launcher_update_check(&mut self, now: String)
        ensures
            final(self).last_launcher_update_check@ == now@,
            final(self).release_sync == old(self).release_sync,
            final(self).launcher_update_available == old(self).launcher_update_available,
            final(self).catalog_sync == old(self).catalog_sync,
            final(self).last_catalog_check == old(self).last_catalog_check,
            final(self).last_catalog_etag == old(self).last_catalog_etag,
            final(self).last_themes_check == old(self).last_themes_check,
            final(self).last_themes_etag == old(self).last_themes_etag,
    {
        self.last_launcher_update_check = now;
    }

    /// Records a check of the catalogue made at `now`, with the tag of the
    /// version received.
    pub fn mark_catalog_check(&mut self, now: String, etag: String)
        ensures
            final(self).last_catalog_check@ == now@,
            final(self).last_catalog_etag@ == etag@,
            final(self).release_sync == old(self).release_sync,
            final(self).last_launcher_update_check == old(self).last_launcher_update_check,
            final(self).launcher_update_available == old(self).launcher_update_available,
            final(self).catalog_sync == old(self).catalog_sync,
            final(self).last_themes_check == old(self).last_themes_check,
            final(self).last_themes_etag == old(self).last_themes_etag,
    {
        self.last_catalog_check = now;
        self.last_catalog_etag = etag;
    }

    /// Records a check of the themes made at `now`, with the tag of the
    /// version received.
    pub fn mark_themes_check(&mut self, now: String, etag: String)
        ensures
            final(self).last_themes_check@ == now@,
            final(self).last_themes_etag@ == etag@,
            final(self).release_sync == old(self).release_sync,
            final(self).last_launcher_update_check == old(self).last_launcher_update_check,
            final(self).launcher_update_available == old(self).launcher_update_available,
            final(self).catalog_sync == old(self).catalog_sync,
            final(self).last_catalog_check == old(self).last_catalog_check,
            final(self).last_catalog_etag == old(self).last_catalog_etag,
    {
        self.last_themes_check = now;
        self.last_themes_etag = etag;
    }
}

} // verus!
