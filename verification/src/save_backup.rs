//! Where saves are kept while a port is reinstalled or exported, which save
//! folders need keeping, and the tally of an export. Copying is done by the
//! caller.

use crate::json::JsonValue;
use crate::platform_resolve::{env_view, path_join, path_join_text, resolve_save_folder, save_folder_path};
use crate::path_safety::{path_starts_with, starts_with_path};
use vstd::prelude::*;

verus! {

/// The folder, under the saves backup folder, of the exports.
pub open spec fn global_backups_name() -> Seq<char> {
    "Global Backups"@
}

/// The slot of the save `field` (`save_folder` or `save_folder2`) of the port
/// in `folder_name`, kept between an uninstallation and the next install:
/// `<saves_backup_dir>/<folder_name>/<field>`, `saves_backup_dir` being the
/// hidden `.saves_backup` folder of the library.
pub fn pending_restore_dir(saves_backup_dir: &str, folder_name: &str, field: &str) -> (r: String)
    ensures
        r@ == path_join_text(path_join_text(saves_backup_dir@, folder_name@), field@),
{
    let a = path_join(saves_backup_dir, folder_name);
    path_join(a.as_str(), field)
}

/// Where an export made on `date` puts the save `field` of the port in
/// `folder_name`.
pub fn global_backup_dir(saves_backup_dir: &str, date: &str, folder_name: &str, field: &str) -> (r: String)
    ensures
        r@ == path_join_text(
            path_join_text(path_join_text(path_join_text(saves_backup_dir@, global_backups_name()), date@), folder_name@),
            field@,
        ),
{
    let a = path_join(saves_backup_dir, "Global Backups");
    let b = path_join(a.as_str(), date);
    let c = path_join(b.as_str(), folder_name);
    path_join(c.as_str(), field)
}

/// The save folder to keep before `dest_dir` is deleted: the resolved
/// `save_folder`, when it lies inside `dest_dir` (a save kept elsewhere is
/// not in the way of the deletion).
pub open spec fn save_to_preserve(
    save_folder: Option<JsonValue>,
    dest_dir: Seq<char>,
    env: Seq<(Seq<char>, Seq<char>)>,
) -> Option<Seq<char>> {
    match save_folder {
        Some(v) => match save_folder_path(v.model(), dest_dir, env) {
            Some(src) => if starts_with_path(src, dest_dir) {
                Some(src)
            } else {
                None
            },
            None => None,
        },
        None => None,
    }
}

/// The save folder inside `dest_dir` to copy away before an uninstallation
/// (see `save_to_preserve`).
pub fn save_inside(save_folder: Option<&JsonValue>, dest_dir: &str, env: &[(String, String)]) -> (r: Option<String>)
    ensures
        match r {
            Some(s) => save_to_preserve(
                match save_folder {
                    Some(v) => Some(*v),
                    None => None,
                },
                dest_dir@,
                env_view(env@),
            ) == Some(s@),
            None => save_to_preserve(
                match save_folder {
                    Some(v) => Some(*v),
                    None => None,
                },
                dest_dir@,
                env_view(env@),
            ) is None,
        },
{
    let v = match save_folder {
        Some(v) => v,
        None => return None,
    };
    let src = match resolve_save_folder(v, dest_dir, env) {
        Some(s) => s,
        None => return None,
    };
    if path_starts_with(src.as_str(), dest_dir) {
        Some(src)
    } else {
        None
    }
}

/// What happened to one save folder during an export.
pub enum BackupOutcome {
    /// At least one file was copied.
    Copied,
    /// Nothing to copy: no save folder, not found, or empty.
    Nothing,
    /// A copy was attempted and failed.
    Failed,
}

/// The tally of an export of all the saves.
#[derive(Debug, Default, PartialEq, Eq)]
pub struct GlobalBackupSummary {
    pub copied: usize,
    /// Nothing to save for that folder (never an error).
    pub skipped: usize,
    /// A copy was attempted and failed.
    pub failed: usize,
}

impl GlobalBackupSummary {
    /// An empty tally.
    pub fn new() -> (r: GlobalBackupSummary)
        ensures
            r.copied == 0 && r.skipped == 0 && r.failed == 0,
    {
        GlobalBackupSummary { copied: 0, skipped: 0, failed: 0 }
    }

    /// Counts one more outcome.
    pub fn record(&mut self, outcome: BackupOutcome)
        requires
            old(self).copied < usize::MAX && old(self).skipped < usize::MAX && old(self).failed < usize::MAX,
        ensures
            final(self).copied == old(self).copied + if outcome is Copied { 1usize } else { 0 },
            final(self).skipped == old(self).skipped + if outcome is Nothing { 1usize } else { 0 },
            final(self).failed == old(self).failed + if outcome is Failed { 1usize } else { 0 },
    {
        match outcome {
            BackupOutcome::Copied => self.copied = self.copied + 1,
            BackupOutcome::Nothing => self.skipped = self.skipped + 1,
            BackupOutcome::Failed => self.failed = self.failed + 1,
        }
    }
}

} // verus!
