//! A small cooperative task runtime with a fixed number of task slots.
//!
//! Tasks are state machines that an executor polls pass by pass. A task that cannot go
//! on says so and asks, through the context of the poll, for what is to wake it: a
//! deadline, another pass, or the post of a value into a mailbox.

use vstd::prelude::*;

pub mod event;
pub mod executor;
pub mod mailbox;
pub mod sleep;
pub mod sync;
pub mod task;
pub mod test_environment;
pub mod time;
pub mod timer;
pub mod waker;
pub mod yield_now;

verus! {

/// A computation that hands the turn to the other tasks: the task that polls it is
/// polled again in the next pass.
pub fn yield_executor() -> (r: yield_now::Yield)
    ensures
        !r.yielded(),
{
    yield_now::Yield::new()
}

/// A computation that pauses the task that polls it for `duration`, counted from the
/// time of the poll that `cx` belongs to.
pub fn sleep(cx: &task::Context, duration: time::Duration) -> (r: sleep::Sleep)
    requires
        time::fits(cx.now()@ + duration@),
    ensures
        r.deadline()@ == cx.now()@ + duration@,
{
    proof {
        time::Instant::lemma_at(cx.now()@ + duration@);
    }
    sleep::Sleep::new(now(cx) + duration)
}

/// The time of the poll that `cx` belongs to, as the platform gave it.
pub fn now(cx: &task::Context) -> (r: time::Instant)
    ensures
        r == cx.now(),
{
    cx.current_time()
}

} // verus!
