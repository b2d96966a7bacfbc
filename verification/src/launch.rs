//! How an installed port's executable is started: a program directly, a
//! shortcut or a script through the desktop shell.

use crate::executable::{extension_of, file_name_of};
use crate::text::{ascii_lower_seq, chars_of, lit};
use vstd::prelude::*;

verus! {

/// How a file is started.
#[derive(Debug, Clone, Copy, PartialEq, Eq, Structural)]
pub enum LaunchMode {
    /// Spawned as a program.
    Direct,
    /// Handed to the shell (`.lnk`, `.bat`, `.cmd`), which knows how to open it.
    Shell,
}

/// A shortcut or a script: its extension is `lnk`, `bat` or `cmd` in any
/// ASCII case.
pub open spec fn needs_shell(path: Seq<char>) -> bool {
    match file_name_of(path) {
        Some(n) => match extension_of(n) {
            Some(e) => {
                let l = ascii_lower_seq(e);
                l == seq!['l', 'n', 'k'] || l == seq!['b', 'a', 't'] || l == seq!['c', 'm', 'd']
            },
            None => false,
        },
        None => false,
    }
}

/// How the file at `exe_path` is started (see `needs_shell`).
pub fn launch_mode(exe_path: &str) -> (r: LaunchMode)
    ensures
        r == if needs_shell(exe_path@) {
            LaunchMode::Shell
        } else {
            LaunchMode::Direct
        },
{
    let ext = match crate::executable::file_extension(exe_path) {
        Some(e) => e,
        None => return LaunchMode::Direct,
    };
    let lower = crate::executable::ascii_lowered(ext.as_slice());
    let lnk = lit("lnk");
    let bat = lit("bat");
    let cmd = lit("cmd");
    proof {
        reveal_strlit("lnk");
        reveal_strlit("bat");
        reveal_strlit("cmd");
        assert(lnk@ =~= seq!['l', 'n', 'k']);
        assert(bat@ =~= seq!['b', 'a', 't']);
        assert(cmd@ =~= seq!['c', 'm', 'd']);
    }
    if crate::executable::same_chars(lower.as_slice(), lnk.as_slice()) || crate::executable::same_chars(
        lower.as_slice(),
        bat.as_slice(),
    ) || crate::executable::same_chars(lower.as_slice(), cmd.as_slice()) {
        LaunchMode::Shell
    } else {
        LaunchMode::Direct
    }
}

} // verus!
