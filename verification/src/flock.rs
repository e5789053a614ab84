//! Advisory file locking (BSD-style `flock`).
//!
//! A lock holds either any number of shared leases or a single exclusive lease. Waiting for a
//! lease is left to the caller: a blocking acquisition that cannot be granted yet reports that
//! the caller must wait and try again once woken.
use crate::errno::Errno;
use vstd::prelude::*;

verus! {

/// The value of the lease counter while an exclusive lease is taken.
pub const EXCLUSIVE_LOCKED: usize = usize::MAX;

/// The lock mode currently held by an open file description.
#[derive(Clone, Copy, Debug, PartialEq, Eq, Structural)]
pub enum FlockMode {
    /// No lock held
    Unlocked,
    /// Shared  lock
    Shared,
    /// Exclusive lock
    Exclusive,
}

impl Default for FlockMode {
    /// No lock held.
    fn default() -> (m: Self)
        ensures
            m == FlockMode::Unlocked,
    {
        FlockMode::Unlocked
    }
}

/// BSD-style `flock` handle, attached to an inode.
#[derive(Debug)]
pub struct Flock {
    /// The number of shared leases taken. If an exclusive lease is taken, the value is
    /// [`EXCLUSIVE_LOCKED`].
    leases: usize,
}

/// The outcome of one attempt at taking a lease on a lock whose counter is `leases`: the new
/// counter if the lease is granted, `None` if it cannot be granted now, or an error if the
/// number of shared leases would overflow.
pub open spec fn attempt(leases: usize, exclusive: bool) -> Result<Option<usize>, Errno> {
    if leases == EXCLUSIVE_LOCKED {
        Ok(None)
    } else if exclusive {
        if leases == 0 {
            Ok(Some(EXCLUSIVE_LOCKED))
        } else {
            Ok(None)
        }
    } else if leases + 1 == EXCLUSIVE_LOCKED {
        Err(Errno::ENOLCK)
    } else {
        Ok(Some((leases + 1) as usize))
    }
}

/// The counter of a lock whose counter was `leases`, after releasing a lease held in `mode`.
/// Releasing a shared lease decrements the counter, wrapping around zero.
pub open spec fn released(leases: usize, mode: FlockMode) -> usize {
    match mode {
        FlockMode::Unlocked => leases,
        FlockMode::Shared => if leases == 0 {
            usize::MAX
        } else {
            (leases - 1) as usize
        },
        FlockMode::Exclusive => 0,
    }
}

impl Default for Flock {
    /// A lock without any lease.
    fn default() -> (f: Self)
        ensures
            f.leases() == 0,
    {
        Flock { leases: 0 }
    }
}

impl Flock {
    /// The lease counter: the number of shared leases, or [`EXCLUSIVE_LOCKED`].
    pub closed spec fn leases(&self) -> usize {
        self.leases
    }

    /// Whether an exclusive lease is taken.
    pub open spec fn is_exclusive(&self) -> bool {
        self.leases() == EXCLUSIVE_LOCKED
    }

    /// Makes one attempt at taking a lease, shared or `exclusive`.
    ///
    /// The function returns whether the lease was taken, or [`Errno::ENOLCK`] if too many shared
    /// leases are taken.
    pub fn try_acquire(&mut self, exclusive: bool) -> (r: Result<bool, Errno>)
        ensures
            match attempt(old(self).leases(), exclusive) {
                Ok(Some(n)) => r == Ok::<bool, Errno>(true) && final(self).leases() == n,
                Ok(None) => r == Ok::<bool, Errno>(false) && final(self).leases() == old(
                    self,
                ).leases(),
                Err(e) => r == Err::<bool, Errno>(e) && final(self).leases() == old(
                    self,
                ).leases(),
            },
    {
        let val = self.leases;
        if val == EXCLUSIVE_LOCKED {
            return Ok(false);
        }
        if exclusive {
            if val == 0 {
                self.leases = EXCLUSIVE_LOCKED;
                Ok(true)
            } else {
                Ok(false)
            }
        } else {
            let next = val + 1;
            if next == EXCLUSIVE_LOCKED {
                return Err(Errno::ENOLCK);
            }
            self.leases = next;
            Ok(true)
        }
    }

    /// Acquires a lease.
    ///
    /// The function returns `Ok(true)` once the lease is taken. If it cannot be taken
    /// immediately, the function returns [`Errno::EWOULDBLOCK`] if `non_blocking` is `true`, and
    /// `Ok(false)` otherwise, in which case the caller waits on the lock's queue and calls the
    /// function again when woken.
    pub fn acquire(&mut self, exclusive: bool, non_blocking: bool) -> (r: Result<bool, Errno>)
        ensures
            match attempt(old(self).leases(), exclusive) {
                Ok(Some(n)) => r == Ok::<bool, Errno>(true) && final(self).leases() == n,
                Ok(None) => final(self).leases() == old(self).leases() && if non_blocking {
                    r == Err::<bool, Errno>(Errno::EWOULDBLOCK)
                } else {
                    r == Ok::<bool, Errno>(false)
                },
                Err(e) => r == Err::<bool, Errno>(e) && final(self).leases() == old(
                    self,
                ).leases(),
            },
    {
        match self.try_acquire(exclusive) {
            Ok(true) => Ok(true),
            Ok(false) => {
                if non_blocking {
                    Err(Errno::EWOULDBLOCK)
                } else {
                    Ok(false)
                }
            },
            Err(e) => Err(e),
        }
    }

    /// Releases a lease previously taken in the given `mode`.
    ///
    /// Does nothing if `mode` is [`FlockMode::Unlocked`]. Otherwise, the function returns `true` to
    /// tell that the processes waiting on the lock must be woken up.
    pub fn release(&mut self, mode: FlockMode) -> (wake: bool)
        ensures
            final(self).leases() == released(old(self).leases(), mode),
            wake == (mode != FlockMode::Unlocked),
    {
        match mode {
            FlockMode::Unlocked => false,
            FlockMode::Shared => {
                self.leases = if self.leases == 0 {
                    usize::MAX
                } else {
                    self.leases - 1
                };
                true
            },
            FlockMode::Exclusive => {
                self.leases = 0;
                true
            },
        }
    }
}

/// An exclusive lease excludes every other lease, and shared leases exclude an exclusive one:
/// while an exclusive lease is taken, or while any shared lease is, an exclusive attempt is not
/// granted; while an exclusive lease is taken, a shared attempt is not granted either.
pub proof fn lemma_mutual_exclusion(leases: usize, exclusive: bool)
    ensures
        leases == EXCLUSIVE_LOCKED ==> attempt(leases, exclusive) == Ok::<Option<usize>, Errno>(
            None,
        ),
        leases != 0 ==> attempt(leases, true) == Ok::<Option<usize>, Errno>(None),
        leases == 0 ==> attempt(leases, true) == Ok::<Option<usize>, Errno>(
            Some(EXCLUSIVE_LOCKED),
        ),
{
}

/// Taking a lease and releasing it in the same mode gives back the lock as it was.
pub proof fn lemma_acquire_release(leases: usize, exclusive: bool)
    requires
        attempt(leases, exclusive) matches Ok(Some(_)),
    ensures
        released(
            attempt(leases, exclusive)->Ok_0->Some_0,
            if exclusive {
                FlockMode::Exclusive
            } else {
                FlockMode::Shared
            },
        ) == leases,
{
}

} // verus!
