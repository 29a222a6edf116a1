//! The database lock: a directory next to the lock file, holding the
//! process id of its holder.
use vstd::prelude::*;
use crate::text::{chars_of, trim, trim_chars, parse_u32_spec, parse_u64_chars, copy_str, append_str};
use crate::pica_cli::types::{CliError, E_LOCK_BUSY, E_RUNTIME};

verus! {

/// The error of a failed lock.
#[derive(Debug)]
pub struct LockError {
    pub code: &'static str,
    pub message: String,
}

/// A held lock: the directory that exists while the lock is held.
pub struct LockGuard {
    lock_dir: String,
}

impl LockGuard {
    pub closed spec fn dir(&self) -> Seq<char> {
        self.lock_dir@
    }

    /// The guard of a lock directory that was just created.
    pub fn new(lock_dir: String) -> (r: LockGuard)
        ensures
            r.dir() == lock_dir@,
    {
        LockGuard { lock_dir }
    }

    /// The directory to remove when the lock is released.
    pub fn lock_dir(&self) -> (r: &str)
        ensures
            r@ == self.dir(),
    {
        self.lock_dir.as_str()
    }
}

/// The lock directory of a lock file: its path with `.d` appended.
pub fn lock_dir_for(lock_file: &str) -> (r: String)
    ensures
        r@ == lock_file@ + ".d"@,
{
    let mut d = copy_str(lock_file);
    append_str(&mut d, ".d");
    d
}

/// The holder's process id in the text of the lock's pid file.
pub fn parse_lock_pid(text: &str) -> (r: Option<u32>)
    ensures
        r == parse_u32_spec(trim(text@)),
{
    let cs = chars_of(text);
    let t = trim_chars(&cs);
    match parse_u64_chars(&t) {
        Some(v) => if v <= 4294967295u64 {
            Some(v as u32)
        } else {
            None
        },
        None => None,
    }
}

/// A process id names a live process when it is not 0 and `/proc` has an
/// entry for it.
pub fn pid_is_running(pid: u32, proc_entry_exists: bool) -> (r: bool)
    ensures
        r == (pid != 0 && proc_entry_exists),
{
    pid != 0 && proc_entry_exists
}

/// What to do when the lock directory already exists.
pub enum LockConflict {
    /// Another live process holds the lock.
    Busy(CliError),
    /// The lock is stale: remove the directory and create it again.
    Stale,
}

/// The decision on an existing lock directory, from the holder read from it
/// and whether that holder still runs.
pub fn on_lock_exists(lock_dir: &str, holder: Option<u32>, holder_running: bool) -> (r: LockConflict)
    ensures
        match holder {
            Some(pid) if holder_running => r matches LockConflict::Busy(e) && e.code == E_LOCK_BUSY
                && e.message@ == "cannot lock pica database: "@ + lock_dir@ + " exists (held by pid "@
                + crate::text::decimal(pid as nat) + ")"@,
            _ => r is Stale,
        },
{
    match holder {
        Some(pid) => {
            if holder_running {
                let mut m = copy_str("cannot lock pica database: ");
                append_str(&mut m, lock_dir);
                append_str(&mut m, " exists (held by pid ");
                let digits = crate::text::decimal_string(pid as u64);
                append_str(&mut m, digits.as_str());
                append_str(&mut m, ")");
                LockConflict::Busy(CliError { code: E_LOCK_BUSY, message: m })
            } else {
                LockConflict::Stale
            }
        },
        None => LockConflict::Stale,
    }
}

/// The error when the lock directory already exists and stale locks are
/// not cleaned up.
pub fn lock_exists_error(lock_dir: &str) -> (r: LockError)
    ensures
        r.code == E_LOCK_BUSY,
        r.message@ == "cannot lock pica database: "@ + lock_dir@ + " exists"@,
{
    let mut m = copy_str("cannot lock pica database: ");
    append_str(&mut m, lock_dir);
    append_str(&mut m, " exists");
    LockError { code: E_LOCK_BUSY, message: m }
}

} // verus!
