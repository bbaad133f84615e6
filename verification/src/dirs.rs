//! Directory creation with a three-valued outcome.

use vstd::prelude::*;

verus! {

/// Outcome of asking for a directory to be present: the path was already
/// there, the directory was created now, or the creation attempt failed.
#[derive(Clone, Copy, Debug, PartialEq, Eq, Structural)]
pub enum DirStatus {
    Exists,
    Created,
    Error,
}

/// The status a directory-creation sequence reports, given whether the path
/// already existed and whether the creation attempt succeeded.
pub open spec fn dir_status(existed: bool, created: bool) -> DirStatus {
    if existed {
        DirStatus::Exists
    } else if created {
        DirStatus::Created
    } else {
        DirStatus::Error
    }
}

/// Decision step of directory creation. When the path already exists nothing
/// is to be attempted and the answer is `Exists`; otherwise the creation
/// attempt's success decides between `Created` and `Error`. The caller probes
/// the filesystem for `existed`, attempts the creation (of the directory and
/// any missing ancestors, in one operation) only when the probe came back
/// false, and hands both outcomes in.
pub fn create_dir(existed: bool, created: bool) -> (status: DirStatus)
    ensures
        status == dir_status(existed, created),
{
    if existed {
        DirStatus::Exists
    } else if created {
        DirStatus::Created
    } else {
        DirStatus::Error
    }
}

/// Directory creation is idempotent: a first call on an absent path whose
/// creation attempt succeeds reports `Created`, and any later call on the
/// then-present path reports `Exists`, whatever a creation attempt would have
/// returned; `Error` arises only from a failed creation attempt on an absent
/// path, never from a path that is already there.
pub proof fn lemma_create_dir_idempotent(created_later: bool)
    ensures
        dir_status(false, true) == DirStatus::Created,
        dir_status(true, created_later) == DirStatus::Exists,
        forall|existed: bool, created: bool|
            dir_status(existed, created) == DirStatus::Error ==> !existed && !created,
{
}

} // verus!
