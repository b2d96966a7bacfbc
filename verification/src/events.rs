//! The queue of messages that background jobs leave for the interface: of
//! a burst of progress messages of one kind, only the last is shown.

use vstd::prelude::*;

verus! {

/// The kind of a queued message, as far as coalescing goes.
#[derive(Debug, Clone, Copy, PartialEq, Eq, Structural)]
pub enum EventKind {
    InstallProgress,
    SaveBackupProgress,
    Other,
}

/// A progress message of the same kind comes later in the queue, which makes
/// message `i` stale.
pub open spec fn superseded(kinds: Seq<EventKind>, i: int) -> bool {
    &&& kinds[i] != EventKind::Other
    &&& exists|j: int| i < j < kinds.len() && kinds[j] == kinds[i]
}

/// For each queued message, whether it is applied: every message but the
/// progress messages that a later one of their kind supersedes.
pub fn events_to_apply(kinds: &[EventKind]) -> (r: Vec<bool>)
    ensures
        r@.len() == kinds@.len(),
        forall|i: int| 0 <= i < kinds@.len() ==> #[trigger] r@[i] == !superseded(kinds@, i),
{
    let n = kinds.len();
    let mut seen_install = false;
    let mut seen_backup = false;
    let mut rev: Vec<bool> = Vec::new();
    let mut k: usize = n;
    while k > 0
        invariant
            k <= n,
            n == kinds@.len(),
            rev@.len() == n - k,
            seen_install == exists|j: int| k <= j < n && kinds@[j] == EventKind::InstallProgress,
            seen_backup == exists|j: int| k <= j < n && kinds@[j] == EventKind::SaveBackupProgress,
            forall|m: int| 0 <= m < rev@.len() ==> #[trigger] rev@[m] == !superseded(kinds@, n - 1 - m),
        decreases k,
    {
        let i = k - 1;
        let kind = kinds[i];
        let apply = match kind {
            EventKind::InstallProgress => !seen_install,
            EventKind::SaveBackupProgress => !seen_backup,
            EventKind::Other => true,
        };
        proof {
            if kind == EventKind::InstallProgress {
                if seen_install {
                    let j = choose|j: int| k <= j < n && kinds@[j] == EventKind::InstallProgress;
                    assert(i < j < kinds@.len() && kinds@[j] == kinds@[i as int]);
                }
            }
            if kind == EventKind::SaveBackupProgress {
                if seen_backup {
                    let j = choose|j: int| k <= j < n && kinds@[j] == EventKind::SaveBackupProgress;
                    assert(i < j < kinds@.len() && kinds@[j] == kinds@[i as int]);
                }
            }
            assert(apply == !superseded(kinds@, i as int));
        }
        rev.push(apply);
        if kind == EventKind::InstallProgress {
            seen_install = true;
        }
        if kind == EventKind::SaveBackupProgress {
            seen_backup = true;
        }
        k = k - 1;
        proof {
            assert(seen_install == exists|j: int| k <= j < n && kinds@[j] == EventKind::InstallProgress) by {
                if kind == EventKind::InstallProgress {
                    assert(kinds@[k as int] == EventKind::InstallProgress);
                }
            }
            assert(seen_backup == exists|j: int| k <= j < n && kinds@[j] == EventKind::SaveBackupProgress) by {
                if kind == EventKind::SaveBackupProgress {
                    assert(kinds@[k as int] == EventKind::SaveBackupProgress);
                }
            }
        }
    }
    let mut out: Vec<bool> = Vec::new();
    let mut m: usize = 0;
    while m < n
        invariant
            m <= n,
            n == kinds@.len(),
            rev@.len() == n,
            out@.len() == m,
            forall|x: int| 0 <= x < rev@.len() ==> #[trigger] rev@[x] == !superseded(kinds@, n - 1 - x),
            forall|i: int| 0 <= i < m ==> #[trigger] out@[i] == !superseded(kinds@, i),
        decreases n - m,
    {
        out.push(rev[n - 1 - m]);
        m = m + 1;
    }
    out
}

} // verus!
