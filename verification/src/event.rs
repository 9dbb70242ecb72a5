//! A flag that a task can wait for.

use crate::task::Context;
use crate::task::Poll;
use crate::task::Task;
use vstd::prelude::*;

verus! {

/// A flag that is raised once and stays raised.
#[derive(Debug)]
pub struct Event {
    signaled: bool,
}

impl View for Event {
    type V = bool;

    /// Whether the flag is raised.
    closed spec fn view(&self) -> bool {
        self.signaled
    }
}

impl Event {
    /// An event that is not raised.
    pub fn new() -> (r: Self)
        ensures
            !r@,
    {
        Event { signaled: false }
    }

    /// Raises the flag.
    pub fn signal(&mut self)
        ensures
            final(self)@,
    {
        self.signaled = true;
    }

    /// Whether the flag is raised.
    pub fn is_ready(&self) -> (r: bool)
        ensures
            r == self@,
    {
        self.signaled
    }

    /// A computation that is done once the flag is raised. It is polled with the event
    /// as the shared state.
    pub fn wait(&self) -> (r: EventFuture) {
        EventFuture {  }
    }
}

impl Default for Event {
    fn default() -> (r: Self)
        ensures
            !r@,
    {
        Event::new()
    }
}

/// The wait for an event. It asks for no wake: it is polled when its task is.
#[derive(Debug)]
pub struct EventFuture {}

impl Task<Event> for EventFuture {
    type Output = ();

    /// Done exactly when the flag is raised; the event and the context stay as they are.
    fn poll(&mut self, cx: &mut Context, shared: &mut Event) -> (r: Poll<()>)
        ensures
            (r is Ready) <==> old(shared)@,
            final(shared)@ == old(shared)@,
            *final(cx) == *old(cx),
    {
        if shared.is_ready() {
            Poll::Ready(())
        } else {
            Poll::Pending
        }
    }

    /// A poll of the wait is done exactly when the flag is raised; it leaves the event
    /// and the context alone.
    open spec fn poll_spec(step: crate::task::PollStep<Self, Event, ()>) -> bool {
        &&& (step.outcome is Ready) <==> step.shared_before@
        &&& step.shared_after@ == step.shared_before@
        &&& step.cx_after == step.cx_before
    }
}

} // verus!
