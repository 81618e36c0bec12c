//! The lock of a store: a directory whose modification time is the
//! heartbeat of the process that holds it.
//!
//! Looking at the directory, making, touching and removing it is the work of
//! the owner of the files. What follows from a look at the directory is
//! decided here.

use vstd::prelude::*;
use vstd::string::StringExecFns;
use crate::error::{ErrorView, JsonlDBError};

verus! {

/// The interval after which the heartbeat of a lock is stale, and after
/// which the holder refreshes it: ten seconds.
pub const STALE_INTERVAL_MS: u128 = 10000;

/// The name of the lock directory of the store at `filename`, before it is
/// put into the directory for locks.
pub open spec fn lock_name(filename: Seq<char>) -> Seq<char> {
    filename + seq!['.', 'l', 'o', 'c', 'k']
}

/// The name of the lock directory of the store at `filename`.
pub fn lockfile_name(filename: &str) -> (name: String)
    ensures
        name@ == lock_name(filename@),
{
    proof {
        reveal_strlit(".lock");
    }
    let mut name = String::from_str(filename);
    name.append(".lock");
    assert(name@ =~= lock_name(filename@));
    name
}

/// The directory in which the lock is made: the configured one, where `"."`
/// stands for the directory of the log.
pub open spec fn lock_directory(configured: Seq<char>, db_dir: Seq<char>) -> Seq<char> {
    if configured == seq!['.'] {
        db_dir
    } else {
        configured
    }
}

/// The directory in which the lock is made.
pub fn lockfile_directory(configured: &str, db_dir: &str) -> (dir: String)
    ensures
        dir@ == lock_directory(configured@, db_dir@),
{
    proof {
        reveal_strlit(".");
    }
    assert("."@ =~= seq!['.']);
    if crate::text::same_text(configured, ".") {
        String::from_str(db_dir)
    } else {
        String::from_str(configured)
    }
}

/// A modification time: seconds and nanoseconds.
#[derive(Debug, Clone, Copy, PartialEq, Eq, Structural)]
pub struct Timestamp {
    pub seconds: i64,
    pub nanos: u32,
}

/// What a look at the lock directory showed.
#[derive(Debug, Clone, Copy, PartialEq, Eq, Structural)]
pub enum LockProbe {
    /// Nothing is there.
    Missing,
    /// The directory is there, its modification time cannot be read.
    Unreadable,
    /// The directory is there. `age_ms` is the time since `mtime` in
    /// milliseconds; there is none where `mtime` lies in the future.
    Found { mtime: Timestamp, age_ms: Option<u128> },
}

/// The state of a lock.
#[derive(Debug, Clone, Copy, PartialEq, Eq, Structural)]
pub enum CheckResult {
    /// No lock is there.
    NoLock,
    /// A lock is there, and its heartbeat is older than the stale interval.
    Stale,
    /// A lock with a fresh heartbeat of the given time is there.
    Active(Timestamp),
    /// The state cannot be told.
    Unknown,
}

/// What the holder of the lock has to do to the directory.
#[derive(Debug, Clone, Copy, PartialEq, Eq, Structural)]
pub enum LockAction {
    /// Make the directory, read its modification time and report it with
    /// `created`.
    Create,
    /// Set the modification time of the directory to the present and report
    /// it with `touched`.
    Touch,
}

/// The state of a lock, from a look at its directory.
pub open spec fn checked(stale_interval_ms: u128, probe: LockProbe) -> CheckResult {
    match probe {
        LockProbe::Missing => CheckResult::NoLock,
        LockProbe::Unreadable => CheckResult::Unknown,
        LockProbe::Found { mtime, age_ms: None } => CheckResult::Unknown,
        LockProbe::Found { mtime, age_ms: Some(age) } => if age > stale_interval_ms {
            CheckResult::Stale
        } else {
            CheckResult::Active(mtime)
        },
    }
}

/// What taking the lock comes to: a missing lock is made, a stale one is
/// taken over, a fresh one is busy.
pub open spec fn lock_outcome(state: CheckResult) -> Result<LockAction, ErrorView> {
    match state {
        CheckResult::NoLock => Ok(LockAction::Create),
        CheckResult::Stale => Ok(LockAction::Touch),
        CheckResult::Active(_) => Err(ErrorView::LockBusy),
        CheckResult::Unknown => Err(ErrorView::LockUnknown),
    }
}

/// What refreshing the lock comes to for a holder who last saw the heartbeat
/// `own`: a missing lock is made again, a stale one is taken over, a fresh
/// one is touched if its heartbeat is the holder's own, and is compromised
/// otherwise.
pub open spec fn update_outcome(own: Option<Timestamp>, state: CheckResult) -> Result<LockAction, ErrorView> {
    match state {
        CheckResult::NoLock => Ok(LockAction::Create),
        CheckResult::Stale => Ok(LockAction::Touch),
        CheckResult::Active(mtime) => if own is Some && own->Some_0 != mtime {
            Err(ErrorView::LockCompromised)
        } else {
            Ok(LockAction::Touch)
        },
        CheckResult::Unknown => Err(ErrorView::LockUnknown),
    }
}

/// Whether a holder who last saw the heartbeat `own` removes the directory
/// on release: only if the directory still shows that heartbeat.
pub open spec fn removes(own: Option<Timestamp>, current: Option<Timestamp>) -> bool {
    own is Some && current == own
}

/// A lock on the directory `path`.
#[derive(Debug)]
pub struct Lockfile {
    path: String,
    stale_interval_ms: u128,
    mtime: Option<Timestamp>,
}

impl Lockfile {
    /// The directory of the lock.
    pub closed spec fn path_view(&self) -> Seq<char> {
        self.path@
    }

    /// The interval after which a heartbeat is stale, in milliseconds.
    pub closed spec fn stale_interval(&self) -> u128 {
        self.stale_interval_ms
    }

    /// The heartbeat that this holder wrote or saw last, if it holds the lock.
    pub closed spec fn heartbeat(&self) -> Option<Timestamp> {
        self.mtime
    }

    /// A lock on `path` that nobody holds yet.
    pub fn new(path: String, stale_interval_ms: u128) -> (lock: Self)
        ensures
            lock.path_view() == path@,
            lock.stale_interval() == stale_interval_ms,
            lock.heartbeat() is None,
    {
        Lockfile { path, stale_interval_ms, mtime: None }
    }

    /// The directory of the lock.
    pub fn path(&self) -> (path: &str)
        ensures
            path@ == self.path_view(),
    {
        self.path.as_str()
    }

    /// The interval after which a heartbeat is stale, in milliseconds.
    pub fn get_stale_interval_ms(&self) -> (ms: u128)
        ensures
            ms == self.stale_interval(),
    {
        self.stale_interval_ms
    }

    /// The heartbeat that this holder wrote or saw last.
    pub fn mtime(&self) -> (mtime: Option<Timestamp>)
        ensures
            mtime == self.heartbeat(),
    {
        self.mtime
    }

    /// Tells the state of the lock from a look at its directory.
    pub fn check(&self, probe: &LockProbe) -> (state: CheckResult)
        ensures
            state == checked(self.stale_interval(), *probe),
    {
        match probe {
            LockProbe::Missing => CheckResult::NoLock,
            LockProbe::Unreadable => CheckResult::Unknown,
            LockProbe::Found { mtime, age_ms } => match age_ms {
                None => CheckResult::Unknown,
                Some(age) => if *age > self.stale_interval_ms {
                    CheckResult::Stale
                } else {
                    CheckResult::Active(*mtime)
                },
            },
        }
    }

    /// Takes the lock: says what to do to the directory, or why the lock
    /// cannot be had.
    pub fn lock(&self, probe: &LockProbe) -> (result: Result<LockAction, JsonlDBError>)
        ensures
            match result {
                Ok(action) => lock_outcome(checked(self.stale_interval(), *probe)) == Ok::<LockAction, ErrorView>(action),
                Err(e) => lock_outcome(checked(self.stale_interval(), *probe)) == Err::<LockAction, ErrorView>(e@),
            },
    {
        match self.check(probe) {
            CheckResult::NoLock => Ok(LockAction::Create),
            CheckResult::Stale => Ok(LockAction::Touch),
            CheckResult::Active(_) => Err(JsonlDBError::LockBusy),
            CheckResult::Unknown => Err(JsonlDBError::LockUnknown),
        }
    }

    /// Refreshes the lock: says what to do to the directory, or why the lock
    /// is lost.
    pub fn update(&self, probe: &LockProbe) -> (result: Result<LockAction, JsonlDBError>)
        ensures
            match result {
                Ok(action) => update_outcome(self.heartbeat(), checked(self.stale_interval(), *probe)) == Ok::<
                    LockAction,
                    ErrorView,
                >(action),
                Err(e) => update_outcome(self.heartbeat(), checked(self.stale_interval(), *probe)) == Err::<
                    LockAction,
                    ErrorView,
                >(e@),
            },
    {
        match self.check(probe) {
            CheckResult::NoLock => Ok(LockAction::Create),
            CheckResult::Stale => Ok(LockAction::Touch),
            CheckResult::Active(mtime) => {
                match self.mtime {
                    Some(own) => {
                        if own != mtime {
                            return Err(JsonlDBError::LockCompromised);
                        }
                    },
                    None => {},
                }
                Ok(LockAction::Touch)
            },
            CheckResult::Unknown => Err(JsonlDBError::LockUnknown),
        }
    }

    /// Notes that the directory was made and shows the modification time
    /// `mtime`.
    pub fn created(&mut self, mtime: Timestamp)
        ensures
            final(self).heartbeat() == Some(mtime),
            final(self).path_view() == old(self).path_view(),
            final(self).stale_interval() == old(self).stale_interval(),
    {
        self.mtime = Some(mtime);
    }

    /// Notes that the modification time of the directory was set to `now`.
    pub fn touched(&mut self, now: Timestamp)
        ensures
            final(self).heartbeat() == Some(now),
            final(self).path_view() == old(self).path_view(),
            final(self).stale_interval() == old(self).stale_interval(),
    {
        self.mtime = Some(now);
    }

    /// Gives the lock up. `current` is the modification time that the
    /// directory shows now, if it is there and can be read. The answer says
    /// whether the directory is to be removed: only a holder whose own
    /// heartbeat is still on it removes it.
    pub fn release(&mut self, current: Option<Timestamp>) -> (remove: bool)
        ensures
            remove == removes(old(self).heartbeat(), current),
            final(self).heartbeat() is None,
            final(self).path_view() == old(self).path_view(),
            final(self).stale_interval() == old(self).stale_interval(),
    {
        let remove = match (self.mtime, current) {
            (Some(own), Some(seen)) => own == seen,
            _ => false,
        };
        self.mtime = None;
        remove
    }
}

/// Exclusion: while the heartbeat of a holder is fresh, nobody else gets the
/// lock.
pub proof fn lemma_fresh_lock_is_busy(stale_interval_ms: u128, mtime: Timestamp, age_ms: u128)
    requires
        age_ms <= stale_interval_ms,
    ensures
        lock_outcome(checked(stale_interval_ms, LockProbe::Found { mtime, age_ms: Some(age_ms) })) == Err::<
            LockAction,
            ErrorView,
        >(ErrorView::LockBusy),
{
}

/// After the holder released a lock that still showed its heartbeat, the
/// directory is removed, and the next to ask gets the lock.
pub proof fn lemma_released_lock_is_free(stale_interval_ms: u128, own: Timestamp)
    ensures
        removes(Some(own), Some(own)),
        lock_outcome(checked(stale_interval_ms, LockProbe::Missing)) == Ok::<LockAction, ErrorView>(LockAction::Create),
{
}

/// Take-over: a lock whose heartbeat is older than the stale interval goes to
/// the next to ask, and its former holder finds it compromised once the new
/// heartbeat is on it.
pub proof fn lemma_stale_lock_is_taken_over(
    stale_interval_ms: u128,
    former: Timestamp,
    age_ms: u128,
    new: Timestamp,
    new_age_ms: u128,
)
    requires
        age_ms > stale_interval_ms,
        new_age_ms <= stale_interval_ms,
        new != former,
    ensures
        lock_outcome(checked(stale_interval_ms, LockProbe::Found { mtime: former, age_ms: Some(age_ms) })) == Ok::<
            LockAction,
            ErrorView,
        >(LockAction::Touch),
        update_outcome(
            Some(former),
            checked(stale_interval_ms, LockProbe::Found { mtime: new, age_ms: Some(new_age_ms) }),
        ) == Err::<LockAction, ErrorView>(ErrorView::LockCompromised),
{
}

} // verus!
