//! Whether the game server appears to be running.
use crate::path::{FsPath, PartView};
use vstd::prelude::*;

verus! {

/// What the file system says of the world's lock file.
#[derive(Debug)]
pub enum LockProbe {
    /// There is none.
    NotFound,
    /// It cannot be opened, for the given reason.
    OpenFailed(String),
    /// It is there, and whether someone holds a lock on it cannot be told, for the given reason.
    InspectFailed(String),
    /// It is there, and someone holds a lock on it.
    Locked,
    /// It is there, and nobody holds a lock on it.
    Unlocked,
}

/// Why it cannot be told whether the server is running.
#[derive(Debug)]
pub enum LockError {
    Open(String),
    Inspect(String),
}

/// Whether the server that owns the world appears to be running: it holds a lock on the lock file.
pub fn world_appears_running(probe: LockProbe) -> (r: Result<bool, LockError>)
    ensures
        match (probe, r) {
            (LockProbe::NotFound, Ok(running)) => !running,
            (LockProbe::Unlocked, Ok(running)) => !running,
            (LockProbe::Locked, Ok(running)) => running,
            (LockProbe::OpenFailed(reason), Err(LockError::Open(text))) => text@ == reason@,
            (LockProbe::InspectFailed(reason), Err(LockError::Inspect(text))) => text@ == reason@,
            _ => false,
        },
{
    match probe {
        LockProbe::NotFound => Ok(false),
        LockProbe::OpenFailed(reason) => Err(LockError::Open(reason)),
        LockProbe::InspectFailed(reason) => Err(LockError::Inspect(reason)),
        LockProbe::Locked => Ok(true),
        LockProbe::Unlocked => Ok(false),
    }
}

/// The world's lock file.
pub fn lock_path(world_dir: &FsPath) -> (r: FsPath)
    ensures
        r@ == world_dir@.push(PartView::Normal("session.lock"@)),
{
    world_dir.join_name("session.lock")
}

/// Whether a failed attempt to lock a file means that someone else holds a lock on it.
///
/// It does where the attempt would have had to wait. Windows also says so by a code of its own.
pub fn is_lock_conflict(would_block: bool, os_code: Option<i32>) -> (r: bool)
    ensures
        r == (would_block || os_code == Some(33i32)),
{
    if would_block {
        return true;
    }
    match os_code {
        Some(code) => code == 33,
        None => false,
    }
}

/// The server is taken to run exactly if someone holds a lock on the world's lock file. If that cannot
/// be told, the reason is passed on.
pub proof fn law_a_lock_means_running(probe: LockProbe, r: Result<bool, LockError>)
    requires
        call_ensures(world_appears_running, (probe,), r),
    ensures
        r == Ok::<bool, LockError>(true) <==> probe is Locked,
        r == Ok::<bool, LockError>(false) <==> probe is NotFound || probe is Unlocked,
        probe matches LockProbe::OpenFailed(reason) ==> (r matches Err(LockError::Open(text)) && text@
            == reason@),
        probe matches LockProbe::InspectFailed(reason) ==> (r matches Err(LockError::Inspect(text))
            && text@ == reason@),
{
}

/// The lock file is `session.lock` in the world itself, and a lock is held by another exactly if
/// locking would have to wait or Windows says so.
pub proof fn law_lock_file_and_conflict(
    world_dir: &FsPath,
    path: FsPath,
    would_block: bool,
    os_code: Option<i32>,
    conflict: bool,
)
    requires
        call_ensures(lock_path, (world_dir,), path),
        call_ensures(is_lock_conflict, (would_block, os_code), conflict),
    ensures
        path@ == world_dir@ + seq![PartView::Normal("session.lock"@)],
        would_block ==> conflict,
        !would_block ==> (conflict <==> os_code == Some(33i32)),
{
    assert(path@ =~= world_dir@ + seq![PartView::Normal("session.lock"@)]);
}

} // verus!
