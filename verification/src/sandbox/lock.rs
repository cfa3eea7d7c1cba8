//! The lock on the name of a sandbox.
use vstd::prelude::*;
use vstd::string::*;

use crate::paths;
use crate::sandbox::name::Name;
use crate::text;

verus! {

/// Who may use a lock file: its owner.
pub const LOCK_FILE_MODE: u32 = 0o600;

/// What an attempt to lock a file came to.
#[derive(Clone, Copy, Debug, PartialEq, Eq, Structural)]
pub enum LockAttempt {
    Locked,
    /// Someone else holds the lock.
    WouldBlock,
    /// The file could not be opened.
    NotOpened,
    /// The file could not be locked for another reason.
    Failed,
}

/// A lock that is held.
#[derive(Debug)]
pub struct SandboxLock {
    pub path: String,
}

/// The lock file of a sandbox.
pub open spec fn lock_file(runtime_dir: Seq<char>, name: Seq<char>) -> Seq<char> {
    paths::join(runtime_dir, name + ".lock"@)
}

/// The lock file of a sandbox.
pub fn lock_path(runtime_dir: &str, name: &Name) -> (path: String)
    ensures
        path@ == lock_file(runtime_dir@, name@),
{
    let file: String = text::concatenated(name.as_str(), ".lock");
    paths::joined_path(runtime_dir, file.as_str())
}

impl SandboxLock {
    /// Takes the attempt to lock a sandbox in: the lock if it was had, nothing if someone else
    /// holds it.
    pub fn try_acquire(runtime_dir: &str, name: &Name, attempt: LockAttempt) -> (result: Result<
        Option<Self>,
        String,
    >)
        ensures
            is_acquired(result, lock_file(runtime_dir@, name@), attempt),
    {
        let path: String = lock_path(runtime_dir, name);
        SandboxLock::try_acquire_at(path.as_str(), attempt)
    }

    /// Takes the attempt to lock a file in.
    pub fn try_acquire_at(path: &str, attempt: LockAttempt) -> (result: Result<
        Option<Self>,
        String,
    >)
        ensures
            is_acquired(result, path@, attempt),
    {
        match attempt {
            LockAttempt::Locked => Ok(Some(SandboxLock { path: path.to_owned() })),
            LockAttempt::WouldBlock => Ok(None),
            LockAttempt::NotOpened => Err(text::concatenated("opening lock file ", path)),
            LockAttempt::Failed => Err(text::concatenated("locking ", path)),
        }
    }
}

/// Whether `result` is what comes of an attempt to lock a file.
pub open spec fn is_acquired(
    result: Result<Option<SandboxLock>, String>,
    path: Seq<char>,
    attempt: LockAttempt,
) -> bool {
    match attempt {
        LockAttempt::Locked => result matches Ok(Some(lock)) && lock.path@ == path,
        LockAttempt::WouldBlock => result matches Ok(None),
        LockAttempt::NotOpened => result matches Err(message) && message@ == "opening lock file "@
            + path,
        LockAttempt::Failed => result matches Err(message) && message@ == "locking "@ + path,
    }
}

/// What an attempt to lock a file comes to that can be opened, as the system has it: it fails
/// exactly if someone else holds the lock.
pub open spec fn attempt_on(is_held: bool) -> LockAttempt {
    if is_held {
        LockAttempt::WouldBlock
    } else {
        LockAttempt::Locked
    }
}

/// A second holder is turned away, without an error, as long as the first one is there, and
/// not after it is gone.
pub proof fn lemma_holders_exclude_each_other(
    path: Seq<char>,
    first: Result<Option<SandboxLock>, String>,
    second: Result<Option<SandboxLock>, String>,
    third: Result<Option<SandboxLock>, String>,
)
    requires
        is_acquired(first, path, attempt_on(false)),
        is_acquired(second, path, attempt_on(first matches Ok(Some(_)))),
        is_acquired(third, path, attempt_on(second matches Ok(Some(_)))),
    ensures
        first matches Ok(Some(_)),
        second matches Ok(None),
        third matches Ok(Some(_)),
{
}

/// The lock of a sandbox lies in the runtime directory under its name. It is had exactly if the
/// attempt succeeded, someone else's lock is no error, and anything else is one.
pub proof fn lemma_outcome_of_locking(
    runtime_dir: &str,
    name: &Name,
    attempt: LockAttempt,
    result: Result<Option<SandboxLock>, String>,
)
    requires
        call_ensures(SandboxLock::try_acquire, (runtime_dir, name, attempt), result),
    ensures
        ({
            let path = paths::join(runtime_dir@, name@ + ".lock"@);
            &&& (result matches Ok(Some(_))) <==> attempt == LockAttempt::Locked
            &&& (result matches Ok(None)) <==> attempt == LockAttempt::WouldBlock
            &&& result matches Ok(Some(lock)) ==> lock.path@ == path
            &&& result matches Err(message) ==> message@ == (if attempt == LockAttempt::NotOpened {
                "opening lock file "@
            } else {
                "locking "@
            }) + path
        }),
{
}

} // verus!
