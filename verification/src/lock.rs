//! A lock for kernel data that is shared between process context and
//! interrupt context.
//!
//! On one hardware thread a lock that is held is not released while the
//! caller waits for it. Interrupt context therefore only ever tries the lock;
//! process context that finds it held goes to sleep and tries again.

use vstd::prelude::*;

verus! {

/// Ticks that a process sleeps before it tries a held lock again.
pub const DEFAULT_LOCK_SLEEP: u64 = 10000;

#[derive(Clone, Copy, Debug, PartialEq, Eq, Structural)]
pub enum MutexState {
    Unlocked,
    Locked,
}

pub struct Mutex {
    state: MutexState,
}

impl Mutex {
    /// The lock is held.
    pub closed spec fn locked(&self) -> bool {
        self.state == MutexState::Locked
    }

    /// A lock that nobody holds.
    pub fn new() -> (m: Mutex)
        ensures
            !m.locked(),
    {
        Mutex { state: MutexState::Unlocked }
    }

    /// The state of the lock.
    pub fn val(&self) -> (s: &MutexState)
        ensures
            (*s == MutexState::Locked) == self.locked(),
    {
        &self.state
    }

    /// Takes the lock if it is free. The result says whether the caller holds
    /// the lock now: it is false when the lock was held already.
    pub fn try_lock(&mut self) -> (acquired: bool)
        ensures
            acquired == !old(self).locked(),
            final(self).locked(),
    {
        let before = self.state;
        self.state = MutexState::Locked;
        match before {
            MutexState::Locked => false,
            MutexState::Unlocked => true,
        }
    }

    /// One round of waiting for the lock in process context: takes the lock
    /// if it is free; where it is held, the result is the number of ticks to
    /// sleep before the next round.
    pub fn sleep_lock(&mut self) -> (wait: Option<u64>)
        ensures
            final(self).locked(),
            wait is None <==> !old(self).locked(),
            wait is Some ==> wait == Some(DEFAULT_LOCK_SLEEP),
    {
        if self.try_lock() {
            None
        } else {
            Some(DEFAULT_LOCK_SLEEP)
        }
    }

    /// Takes a lock that is free. A caller that spins on a held lock is never
    /// served on one hardware thread, so the lock has to be free.
    pub fn spin_lock(&mut self)
        requires
            !old(self).locked(),
        ensures
            final(self).locked(),
    {
        let _ = self.try_lock();
    }

    /// Releases the lock, whoever holds it.
    pub fn unlock(&mut self)
        ensures
            !final(self).locked(),
    {
        self.state = MutexState::Unlocked;
    }
}

} // verus!
