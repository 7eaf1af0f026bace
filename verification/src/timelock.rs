//! The lockbox record and the time-lock state machine.
//!
//! A lockbox is in one of four phases: `Locked` (no timers),
//! `PendingUnlock` (locked, `unlock_timestamp` set), `Unlocked` (transient,
//! no timers) and `PendingRelock` (unlocked, `relock_timestamp` set). A
//! reconciliation tick first completes every due unlock, then applies every
//! due relock, exactly as the durable layer does it in two passes; a manual
//! relock returns any record to `Locked` at once. All transitions are pure
//! functions of the record and an injected epoch-millisecond instant.

use vstd::prelude::*;

verus! {

/// Delays above this are refused at creation; it keeps every computed
/// deadline far inside `i64`.
pub const MAX_DELAY_SECONDS: i64 = 4_000_000_000;

/// The largest instant the store accepts, far beyond any wall clock; with
/// `MAX_DELAY_SECONDS` it bounds every deadline computation.
pub const MAX_INSTANT_MS: i64 = 4_000_000_000_000_000;

/// One secret entry, as stored: identity, label, (possibly encrypted)
/// content, the per-lockbox delays, the phase flag and its two timers, and
/// the audit timestamps.
#[derive(Debug)]
pub struct Lockbox {
    pub id: i64,
    pub name: String,
    pub content: String,
    pub category: Option<String>,
    pub is_locked: bool,
    pub unlock_delay_seconds: i64,
    pub relock_delay_seconds: i64,
    pub unlock_timestamp: Option<i64>,
    pub relock_timestamp: Option<i64>,
    pub created_at: i64,
    pub updated_at: i64,
}

/// The mathematical image of a [`Lockbox`].
pub ghost struct LockboxV {
    pub id: int,
    pub name: Seq<char>,
    pub content: Seq<char>,
    pub category: Option<Seq<char>>,
    pub is_locked: bool,
    pub unlock_delay_seconds: int,
    pub relock_delay_seconds: int,
    pub unlock_timestamp: Option<int>,
    pub relock_timestamp: Option<int>,
    pub created_at: int,
    pub updated_at: int,
}

impl View for Lockbox {
    type V = LockboxV;

    open spec fn view(&self) -> LockboxV {
        LockboxV {
            id: self.id as int,
            name: self.name@,
            content: self.content@,
            category: match self.category {
                Option::Some(ref c) => Option::Some(c@),
                Option::None => Option::None,
            },
            is_locked: self.is_locked,
            unlock_delay_seconds: self.unlock_delay_seconds as int,
            relock_delay_seconds: self.relock_delay_seconds as int,
            unlock_timestamp: match self.unlock_timestamp {
                Option::Some(t) => Option::Some(t as int),
                Option::None => Option::None,
            },
            relock_timestamp: match self.relock_timestamp {
                Option::Some(t) => Option::Some(t as int),
                Option::None => Option::None,
            },
            created_at: self.created_at as int,
            updated_at: self.updated_at as int,
        }
    }
}

impl Clone for Lockbox {
    /// A clone is equal to the original, field for field.
    fn clone(&self) -> (r: Self)
        ensures
            r == *self,
    {
        Lockbox {
            id: self.id,
            name: self.name.clone(),
            content: self.content.clone(),
            category: match self.category {
                Option::Some(ref c) => Option::Some(c.clone()),
                Option::None => Option::None,
            },
            is_locked: self.is_locked,
            unlock_delay_seconds: self.unlock_delay_seconds,
            relock_delay_seconds: self.relock_delay_seconds,
            unlock_timestamp: self.unlock_timestamp,
            relock_timestamp: self.relock_timestamp,
            created_at: self.created_at,
            updated_at: self.updated_at,
        }
    }
}

/// The four phases of the state machine. `Unlocked` without a pending
/// relock is not reachable through normal flow.
#[derive(Clone, Copy, Debug, PartialEq, Eq, Structural)]
pub enum Phase {
    Locked,
    PendingUnlock,
    Unlocked,
    PendingRelock,
}

impl LockboxV {
    /// Which timer may be set is fixed by the phase flag, and the
    /// configured delays are non-negative and bounded.
    pub open spec fn wf(self) -> bool {
        &&& 0 <= self.unlock_delay_seconds <= MAX_DELAY_SECONDS
        &&& 0 <= self.relock_delay_seconds <= MAX_DELAY_SECONDS
        &&& (self.is_locked ==> self.relock_timestamp is None)
        &&& (!self.is_locked ==> self.unlock_timestamp is None)
    }

    /// The phase the record is in, read off the flag and the timers.
    pub open spec fn phase(self) -> Phase {
        if self.is_locked {
            if self.unlock_timestamp is Some {
                Phase::PendingUnlock
            } else {
                Phase::Locked
            }
        } else {
            if self.relock_timestamp is Some {
                Phase::PendingRelock
            } else {
                Phase::Unlocked
            }
        }
    }
}

/// Requesting an unlock of a locked record: arm (or re-arm) the unlock
/// timer a full delay from `now`; the record stays locked.
pub open spec fn unlock_requested(r: LockboxV, now: int) -> LockboxV {
    LockboxV {
        unlock_timestamp: Option::Some(now + r.unlock_delay_seconds * 1000),
        updated_at: now,
        ..r
    }
}

/// Completing a due unlock: the record becomes unlocked and the relock
/// timer is armed a full relock delay from `now`.
pub open spec fn unlock_completed(r: LockboxV, now: int) -> LockboxV {
    LockboxV {
        is_locked: false,
        unlock_timestamp: Option::None,
        relock_timestamp: Option::Some(now + r.relock_delay_seconds * 1000),
        updated_at: now,
        ..r
    }
}

/// Relocking: back to `Locked`, both timers cleared.
pub open spec fn relocked(r: LockboxV, now: int) -> LockboxV {
    LockboxV {
        is_locked: true,
        unlock_timestamp: Option::None,
        relock_timestamp: Option::None,
        updated_at: now,
        ..r
    }
}

/// The first half of a tick: complete the unlock if one is pending and
/// due; otherwise leave the record alone.
pub open spec fn tick_unlock(r: LockboxV, now: int) -> LockboxV {
    if r.is_locked && (r.unlock_timestamp matches Some(t) && t <= now) {
        unlock_completed(r, now)
    } else {
        r
    }
}

/// The second half of a tick: relock if a relock is pending and due;
/// otherwise leave the record alone.
pub open spec fn tick_relock(r: LockboxV, now: int) -> LockboxV {
    if !r.is_locked && (r.relock_timestamp matches Some(t) && t <= now) {
        relocked(r, now)
    } else {
        r
    }
}

/// One reconciliation tick on one record: due unlocks complete first, then
/// due relocks apply — so a pending unlock whose relock delay is zero goes
/// straight back to `Locked` in a single tick.
pub open spec fn ticked(r: LockboxV, now: int) -> LockboxV {
    tick_relock(tick_unlock(r, now), now)
}

/// Every transition keeps a record well-formed.
pub proof fn lemma_transitions_preserve_wf(r: LockboxV, now: int)
    requires
        r.wf(),
    ensures
        r.is_locked ==> unlock_requested(r, now).wf(),
        relocked(r, now).wf(),
        ticked(r, now).wf(),
{
}

/// The tick is idempotent: reconciling twice at the same instant is the
/// same as reconciling once, for every record.
pub proof fn lemma_tick_idempotent(r: LockboxV, now: int)
    ensures
        ticked(ticked(r, now), now) == ticked(r, now),
{
}

/// A manual relock is final until the next request: no later tick changes
/// a manually relocked record, so relocking cancels a pending unlock for
/// good.
pub proof fn lemma_manual_relock_cancels(r: LockboxV, now: int, later: int)
    ensures
        ticked(relocked(r, now), later) == relocked(r, now),
        relocked(r, now).phase() == Phase::Locked,
{
}

/// A tick moves a record only forward along the phase order
/// `PendingUnlock -> PendingRelock -> Locked`; `Locked` and `Unlocked`
/// records, and pending records whose deadline has not passed, are
/// untouched.
pub proof fn lemma_tick_cases(r: LockboxV, now: int)
    requires
        r.wf(),
    ensures
        r.phase() == Phase::Locked ==> ticked(r, now) == r,
        r.phase() == Phase::Unlocked ==> ticked(r, now) == r,
        r.phase() == Phase::PendingUnlock && (r.unlock_timestamp matches Some(t) && t > now)
            ==> ticked(r, now) == r,
        r.phase() == Phase::PendingRelock && (r.relock_timestamp matches Some(t) && t > now)
            ==> ticked(r, now) == r,
        r.phase() == Phase::PendingUnlock && (r.unlock_timestamp matches Some(t) && t <= now)
            ==> ticked(r, now) == tick_relock(unlock_completed(r, now), now),
        r.phase() == Phase::PendingRelock && (r.relock_timestamp matches Some(t) && t <= now)
            ==> ticked(r, now) == relocked(r, now),
{
}

} // verus!
