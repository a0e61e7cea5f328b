//! A controllable clock for tests: virtual time can be set, advanced and
//! rewound, and clones share one underlying instant.

use vstd::prelude::*;

use std::sync::atomic::{AtomicI64, Ordering};
use std::sync::Arc;

use crate::client_ops::Clock;

verus! {

/// A clock whose instant the test controls. Clones share one instant, so a
/// clock handed to a client stays in step with the test's own handle.
#[derive(Debug, Clone)]
pub struct VirtualClock {
    inner: Arc<AtomicI64>,
}

impl VirtualClock {
    /// A virtual clock starting at the current system time.
    pub fn new() -> VirtualClock {
        VirtualClock { inner: Arc::new(AtomicI64::new(crate::client_ops::system_now_secs())) }
    }

    /// A virtual clock starting at the given instant (epoch seconds).
    pub fn at(secs: i64) -> VirtualClock {
        VirtualClock { inner: Arc::new(AtomicI64::new(secs)) }
    }

    /// The current virtual instant, in epoch seconds.
    pub fn now(&self) -> i64 {
        (*self.inner).load(Ordering::SeqCst)
    }

    /// Moves the clock forward by the given number of seconds.
    pub fn advance(&self, secs: i64) {
        (*self.inner).fetch_add(secs, Ordering::SeqCst);
    }

    /// Moves the clock forward by the given number of days.
    pub fn advance_days(&self, days: i64)
        requires
            -100000000000 <= days <= 100000000000,
    {
        self.advance(days * 86400);
    }

    /// Sets the clock to the given instant.
    pub fn set(&self, secs: i64) {
        (*self.inner).store(secs, Ordering::SeqCst);
    }

    /// Moves the clock backward by the given number of seconds.
    pub fn rewind(&self, secs: i64) {
        (*self.inner).fetch_sub(secs, Ordering::SeqCst);
    }
}

impl Default for VirtualClock {
    fn default() -> VirtualClock {
        VirtualClock::new()
    }
}

impl Clock for VirtualClock {
    fn now(&self) -> i64 {
        (*self.inner).load(Ordering::SeqCst)
    }
}

} // verus!
