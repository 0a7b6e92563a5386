//! A spin lock.
//!
//! A CPU takes a lock with interrupts off, and turns them on again when it has released the lock
//! and they were on before. Switching them is up to the caller: the lock remembers how they were.

use vstd::prelude::*;
use vstd::rwlock::{RwLock, RwLockPredicate, WriteHandle};

verus! {

/// A type with an invariant. A lock holds well-formed values only.
pub trait WellFormed {
    spec fn wf(&self) -> bool;
}

impl<T: WellFormed> WellFormed for Option<T> {
    open spec fn wf(&self) -> bool {
        match self {
            Some(value) => value.wf(),
            None => true,
        }
    }
}

/// Data that stays where it is: a lock over this hands out the reference, and the addresses of
/// what lies inside the data remain valid.
pub struct InPlace<'a, T: WellFormed>(pub &'a mut T);

impl<'a, T: WellFormed> WellFormed for InPlace<'a, T> {
    open spec fn wf(&self) -> bool {
        self.0.wf()
    }
}

/// The invariant of the data in a lock.
pub struct IsWellFormed;

impl<T: WellFormed> RwLockPredicate<T> for IsWellFormed {
    open spec fn inv(self, v: T) -> bool {
        v.wf()
    }
}

/// Data that one CPU at a time has access to.
pub struct SpinLock<T: WellFormed> {
    inner: RwLock<T, IsWellFormed>,
}

/// Access to the data of a lock, until it is handed to `SpinLock::unlock`.
pub struct SpinLockGuard<'a, T: WellFormed> {
    handle: WriteHandle<'a, T, IsWellFormed>,
    data: T,
    interrupts_state: bool,
}

impl<'a, T: WellFormed> SpinLockGuard<'a, T> {
    /// Whether this is access to the data of `lock`.
    pub closed spec fn guards(&self, lock: SpinLock<T>) -> bool {
        self.handle.rwlock() == lock.inner
    }

    /// The data, as its holder sees it.
    pub closed spec fn data(&self) -> T {
        self.data
    }

    /// Whether interrupts were on when the lock was taken.
    pub closed spec fn interrupts_state(&self) -> bool {
        self.interrupts_state
    }

    pub fn deref(&self) -> (data: &T)
        ensures
            *data == self.data(),
    {
        &self.data
    }

    pub fn deref_mut(&mut self) -> (data: &mut T)
        ensures
            *data == old(self).data(),
            final(self).data() == *final(data),
            final(self).interrupts_state() == old(self).interrupts_state(),
            forall|lock: SpinLock<T>| final(self).guards(lock) == old(self).guards(lock),
    {
        &mut self.data
    }
}

impl<T: WellFormed> SpinLock<T> {
    /// Whether there is a guard of this lock that gives access to `data`. Other modules learn of
    /// one by taking and by releasing the lock.
    pub closed spec fn has_held(&self, data: T) -> bool {
        exists|guard: SpinLockGuard<'_, T>| #[trigger]
            guard.guards(*self) && guard.data() == data
    }

    /// A lock over `data`, which nobody holds.
    ///
    /// The CPUs share the lock and change the data through it, so a lock as a mathematical value
    /// does not depend on what it holds. What a holder knows of the data is that it is well
    /// formed, which is why `data` must be.
    pub fn new(data: T) -> (lock: Self)
        requires
            data.wf(),
    {
        SpinLock { inner: RwLock::new(data, Ghost(IsWellFormed)) }
    }

    /// Waits until no one else holds the lock, and takes it. `interrupts_enabled` says whether
    /// interrupts were on before the caller turned them off.
    pub fn lock(&self, interrupts_enabled: bool) -> (guard: SpinLockGuard<'_, T>)
        ensures
            guard.guards(*self),
            guard.data().wf(),
            self.has_held(guard.data()),
            guard.interrupts_state() == interrupts_enabled,
    {
        let (data, handle) = self.inner.acquire_write();
        SpinLockGuard { handle, data, interrupts_state: interrupts_enabled }
    }

    /// Gives the data back and releases the lock. Returns whether interrupts are to be turned on
    /// again.
    pub fn unlock(guard: SpinLockGuard<'_, T>) -> (enable_interrupts: bool)
        requires
            guard.data().wf(),
        ensures
            enable_interrupts == guard.interrupts_state(),
            forall|lock: SpinLock<T>| #[trigger]
                guard.guards(lock) ==> lock.has_held(guard.data()),
    {
        let interrupts_state: bool = guard.interrupts_state;
        guard.handle.release_write(guard.data);
        interrupts_state
    }
}

/// Whether interrupts are on after a release where they were on or off before, and `enable` is what
/// `SpinLock::unlock` returned.
pub open spec fn after_release(interrupts: bool, enable: bool) -> bool {
    interrupts || enable
}

/// A CPU that takes a lock inside of another one finds interrupts off. Releasing the inner lock
/// leaves them off, and releasing the outer one leaves them as they were before it was taken.
pub proof fn releases_restore_interrupts<T: WellFormed, U: WellFormed>(
    outer: SpinLockGuard<'_, T>,
    inner: SpinLockGuard<'_, U>,
)
    requires
        !inner.interrupts_state(),
    ensures
        !after_release(false, inner.interrupts_state()),
        after_release(
            after_release(false, inner.interrupts_state()),
            outer.interrupts_state(),
        ) == outer.interrupts_state(),
{
}

/// Whether interrupts are on after `depth` locks were taken one inside the other and released
/// again in reverse order. They are off while a lock is waited for and held.
pub open spec fn after_nested_locks(interrupts: bool, depth: nat) -> bool
    decreases depth,
{
    if depth == 0 {
        interrupts
    } else {
        after_release(after_nested_locks(false, (depth - 1) as nat), interrupts)
    }
}

/// Nested locks leave interrupts as they were, and never turn them on while a lock is held.
pub proof fn nested_locks_restore_interrupts(interrupts: bool, depth: nat)
    ensures
        after_nested_locks(interrupts, depth) == interrupts,
        !after_nested_locks(false, depth),
    decreases depth,
{
    if depth > 0 {
        nested_locks_restore_interrupts(false, (depth - 1) as nat);
    }
}

} // verus!
