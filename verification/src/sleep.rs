//! Sleeping until an instant.

use crate::task::earliest;
use crate::task::Context;
use crate::task::Poll;
use crate::task::PollStep;
use crate::task::Task;
use crate::time::Instant;
use vstd::prelude::*;

verus! {

/// A computation that is done once the clock has reached its instant.
#[derive(Debug, Copy, Clone, PartialEq, Eq, Structural)]
pub struct Sleep {
    wake_at_tick: Instant,
}

impl Sleep {
    /// The instant that the sleep ends at.
    pub closed spec fn deadline(self) -> Instant {
        self.wake_at_tick
    }

    /// A sleep that ends at `wake_at_tick`.
    pub fn new(wake_at_tick: Instant) -> (r: Self)
        ensures
            r.deadline() == wake_at_tick,
    {
        Sleep { wake_at_tick }
    }

    /// Sleep monotonicity: a sleep for `d` ticks that was begun at the instant `start` is
    /// only done at an instant that is `d` ticks or more after `start`.
    pub proof fn lemma_done_not_before(self, start: Instant, d: int, now: Instant)
        requires
            self.deadline()@ == start@ + d,
            now@ >= self.deadline()@,
        ensures
            now@ - start@ >= d,
    {
    }

    /// Sleeps in a row: where sleep `i` was begun at `starts[i]` and was done at `ends[i]`,
    /// `d` ticks or more later, and each was begun when the one before it was done or
    /// later, the last is done at least `d` times their number after the first was begun.
    pub proof fn lemma_sleeps_in_a_row(starts: Seq<int>, ends: Seq<int>, d: int)
        requires
            starts.len() == ends.len(),
            starts.len() > 0,
            forall|i: int| 0 <= i < starts.len() ==> #[trigger] ends[i] - starts[i] >= d,
            forall|i: int| 0 < i < starts.len() ==> #[trigger] starts[i] >= ends[i - 1],
        ensures
            ends.last() - starts[0] >= starts.len() * d,
        decreases starts.len(),
    {
        let n = starts.len() as int;
        if n == 1 {
            assert(ends[0] - starts[0] >= d);
            assert(1 * d == d);
        } else {
            let s = starts.drop_last();
            let e = ends.drop_last();
            assert forall|i: int| 0 <= i < s.len() implies #[trigger] e[i] - s[i] >= d by {
                assert(ends[i] - starts[i] >= d);
            }
            assert forall|i: int| 0 < i < s.len() implies #[trigger] s[i] >= e[i - 1] by {
                assert(starts[i] >= ends[i - 1]);
            }
            Sleep::lemma_sleeps_in_a_row(s, e, d);
            assert(e.last() == ends[n - 2]);
            assert(s[0] == starts[0]);
            assert(starts[n - 1] >= ends[n - 2]);
            assert(ends[n - 1] - starts[n - 1] >= d);
            assert(n * d == (n - 1) * d + d) by (nonlinear_arith);
        }
    }
}

impl<S> Task<S> for Sleep {
    type Output = ();

    /// Done exactly when the time of the poll is the deadline or later. Before that it
    /// asks for a wake at the deadline, which lowers the slot's deadline and never raises
    /// it.
    fn poll(&mut self, cx: &mut Context, shared: &mut S) -> (r: Poll<()>)
        ensures
            *final(self) == *old(self),
            *final(shared) == *old(shared),
            final(cx).waker_spec() == old(cx).waker_spec(),
            final(cx).now() == old(cx).now(),
            final(cx).woken() == old(cx).woken(),
            (r is Ready) <==> old(cx).now()@ >= old(self).deadline()@,
            (r is Ready) ==> final(cx).deadline() == old(cx).deadline(),
            (r is Pending) ==> final(cx).deadline() == Some(
                earliest(old(cx).deadline(), old(self).deadline()),
            ),
    {
        cx.wakeup_task_at(self.wake_at_tick)
    }

    /// A poll of a sleep is done exactly when its time is the deadline or later. It
    /// leaves the sleep and the shared state alone, and wakes nobody. A poll that is not
    /// done lowers the deadline of the context to that of the sleep.
    open spec fn poll_spec(step: PollStep<Self, S, ()>) -> bool {
        &&& step.task_after == step.task_before
        &&& step.shared_after == step.shared_before
        &&& step.cx_after.waker_spec() == step.cx_before.waker_spec()
        &&& step.cx_after.now() == step.cx_before.now()
        &&& step.cx_after.woken() == step.cx_before.woken()
        &&& (step.outcome is Ready) <==> step.cx_before.now()@ >= step.task_before.deadline()@
        &&& (step.outcome is Ready) ==> step.cx_after.deadline() == step.cx_before.deadline()
        &&& (step.outcome is Pending) ==> step.cx_after.deadline() == Some(
            earliest(step.cx_before.deadline(), step.task_before.deadline()),
        )
    }
}

} // verus!
