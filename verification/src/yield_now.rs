//! Giving the other tasks a turn.

use crate::task::Context;
use crate::task::Poll;
use crate::task::PollStep;
use crate::task::Task;
use vstd::prelude::*;

verus! {

/// A computation that is pending once, and asks to be polled again in the next pass.
#[derive(Debug, Copy, Clone)]
pub struct Yield {
    ready: bool,
}

impl Yield {
    /// Whether the computation was polled before.
    pub closed spec fn yielded(self) -> bool {
        self.ready
    }

    /// A yield that was not polled yet.
    pub fn new() -> (r: Self)
        ensures
            !r.yielded(),
    {
        Yield { ready: false }
    }
}

impl<S> Task<S> for Yield {
    type Output = ();

    /// The first poll is pending and marks the polled task runnable; every later poll is
    /// ready and asks for nothing.
    fn poll(&mut self, cx: &mut Context, shared: &mut S) -> (r: Poll<()>)
        ensures
            *final(shared) == *old(shared),
            final(self).yielded(),
            final(cx).waker_spec() == old(cx).waker_spec(),
            final(cx).now() == old(cx).now(),
            final(cx).deadline() == old(cx).deadline(),
            (r is Ready) <==> old(self).yielded(),
            old(self).yielded() ==> final(cx).woken() == old(cx).woken(),
            !old(self).yielded() ==> final(cx).woken() == old(cx).woken().insert(
                old(cx).waker_spec().index(),
            ),
    {
        if self.ready {
            Poll::Ready(())
        } else {
            self.ready = true;
            cx.set_task_runnable();
            Poll::Pending
        }
    }

    /// The poll of a yield that was not polled before is pending and marks the polled
    /// task runnable; a later poll is done and asks for nothing. Neither touches the
    /// shared state or the deadline.
    open spec fn poll_spec(step: PollStep<Self, S, ()>) -> bool {
        &&& step.shared_after == step.shared_before
        &&& step.task_after.yielded()
        &&& step.cx_after.waker_spec() == step.cx_before.waker_spec()
        &&& step.cx_after.now() == step.cx_before.now()
        &&& step.cx_after.deadline() == step.cx_before.deadline()
        &&& (step.outcome is Ready) <==> step.task_before.yielded()
        &&& step.cx_after.woken() == if step.task_before.yielded() {
            step.cx_before.woken()
        } else {
            step.cx_before.woken().insert(step.cx_before.waker_spec().index())
        }
    }
}

} // verus!
