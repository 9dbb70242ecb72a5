//! A platform for trying the executor out: a clock that is advanced by being read.

use crate::executor::Environment;
use crate::time::Instant;
use crate::waker::ReadyMask;
use vstd::prelude::*;

verus! {

/// Platform whose clock starts at tick 0 and goes on by one tick with every reading,
/// and whose idle wait returns at once.
#[derive(Debug)]
pub struct TestEnvironment {
    tick: Instant,
    executor: bool,
}

impl TestEnvironment {
    /// A platform at tick 0, with no executor registered.
    pub fn new() -> (r: Self)
        ensures
            r.clock() == 0,
            !r.executor_entered(),
    {
        TestEnvironment { tick: Instant::new(0), executor: false }
    }

    /// The tick that the next reading of the clock gives; the clock stays as it is.
    pub fn current_tick(&self) -> (r: Instant)
        ensures
            r@ == self.clock(),
    {
        self.tick
    }
}

impl Default for TestEnvironment {
    fn default() -> (r: Self)
        ensures
            r.clock() == 0,
            !r.executor_entered(),
    {
        TestEnvironment::new()
    }
}

impl Environment for TestEnvironment {
    closed spec fn clock(&self) -> int {
        self.tick@
    }

    closed spec fn executor_entered(&self) -> bool {
        self.executor
    }

    /// Gives the clock's tick and moves the clock on by one, up to the last tick that
    /// there is.
    fn ticks(&mut self) -> (now: Instant)
        ensures
            now@ == old(self).clock(),
            final(self).clock() == if old(self).clock() < i64::MAX {
                old(self).clock() + 1
            } else {
                old(self).clock()
            },
    {
        let now = self.tick;
        if now.ticks() < i64::MAX {
            self.tick = Instant::new(now.ticks() + 1);
        }
        now
    }

    /// Returns at once, so that the clock goes on with the next pass.
    fn wait_for_event_with_deadline(&mut self, event: &mut ReadyMask, tick: Option<Instant>)
        ensures
            *final(event) == *old(event),
            *final(self) == *old(self),
    {
    }

    /// An idle wait of this platform changes neither the platform nor the ready mask.
    open spec fn wait_spec(idle: crate::executor::IdleRecord<Self>) -> bool {
        idle.env_after == idle.env_before && idle.ready_after == idle.ready_before
    }

    fn enter_executor(&mut self) {
        self.executor = true;
    }

    fn leave_executor(&mut self) {
        self.executor = false;
    }

    fn current_executor(&self) -> (r: bool) {
        self.executor
    }
}

} // verus!
