//! The executor: a fixed number of task slots, polled pass by pass.

use crate::task::Context;
use crate::task::Poll;
use crate::task::PollStep;
use crate::task::Task;
use crate::time::Instant;
use crate::waker::ExecutorError;
use crate::waker::ReadyMask;
use crate::waker::WakerInfo;
use crate::waker::MASK_WIDTH;
use vstd::prelude::*;

verus! {

/// One idle wait as it went: the platform and the ready mask before and after it, and
/// the deadline that was handed to it.
pub struct IdleRecord<E> {
    /// The platform before the wait.
    pub env_before: E,
    /// The platform after the wait.
    pub env_after: E,
    /// The ready mask that was handed to the wait.
    pub ready_before: ReadyMask,
    /// The ready mask as the wait left it.
    pub ready_after: ReadyMask,
    /// The deadline that was handed to the wait.
    pub tick: Option<Instant>,
}

/// What the executor asks of the platform it runs on.
pub trait Environment {
    /// A lower bound of what the next reading of the clock gives.
    open spec fn clock(&self) -> int {
        arbitrary()
    }

    /// Whether an executor is registered as the one that is running a pass.
    open spec fn executor_entered(&self) -> bool {
        arbitrary()
    }

    /// Reads the clock. Readings never go back; they need not be contiguous.
    fn ticks(&mut self) -> (now: Instant)
        ensures
            old(self).clock() <= now@ <= final(self).clock(),
            final(self).executor_entered() == old(self).executor_entered(),
    ;

    /// Idles until a bit of `event` is set or, where `tick` is given, the clock reaches it.
    /// It may return early. Wake signals that came from outside the polling context are
    /// handed over here: bits may be set in `event`, and none is cleared.
    fn wait_for_event_with_deadline(&mut self, event: &mut ReadyMask, tick: Option<Instant>) where
        Self: Sized,

        ensures
            old(event)@.subset_of(final(event)@),
            old(self).clock() <= final(self).clock(),
            final(self).executor_entered() == old(self).executor_entered(),
            Self::wait_spec(
                IdleRecord {
                    env_before: *old(self),
                    env_after: *final(self),
                    ready_before: *old(event),
                    ready_after: *final(event),
                    tick,
                },
            ),
    ;

    /// Whether `idle` is an idle wait that this platform can make. A platform that does
    /// not say what its waits do leaves this as it is: every wait is one that it can
    /// make.
    open spec fn wait_spec(idle: IdleRecord<Self>) -> bool where Self: Sized {
        true
    }

    /// Registers the executor that starts a pass. Only one can be registered at a time.
    fn enter_executor(&mut self)
        requires
            !old(self).executor_entered(),
        ensures
            final(self).executor_entered(),
            final(self).clock() == old(self).clock(),
    ;

    /// Ends the registration that `enter_executor` made.
    fn leave_executor(&mut self)
        requires
            old(self).executor_entered(),
        ensures
            !final(self).executor_entered(),
            final(self).clock() == old(self).clock(),
    ;

    /// Whether an executor is registered.
    fn current_executor(&self) -> (r: bool)
        ensures
            r == self.executor_entered(),
    ;
}

/// State of a task that occupies a slot.
#[derive(Debug, Copy, Clone, PartialEq, Eq, Structural, PartialOrd, Ord)]
pub enum TaskState {
    /// The slot's ready bit is set.
    Runnable,
    /// The ready bit is clear; the task sleeps until the instant, if there is one.
    Waiting(Option<Instant>),
}

impl TaskState {
    /// Whether a task in this state is to be polled at time `tick`.
    pub open spec fn due(self, tick: int) -> bool {
        match self {
            TaskState::Runnable => true,
            TaskState::Waiting(Some(t)) => t@ <= tick,
            TaskState::Waiting(None) => false,
        }
    }

    /// Whether a task in this state is to be polled at time `tick`.
    pub fn is_runnable(&self, tick: Instant) -> (r: bool)
        ensures
            r == self.due(tick@),
    {
        match self {
            TaskState::Runnable => true,
            TaskState::Waiting(Some(expected_tick)) => expected_tick.ticks() <= tick.ticks(),
            _ => false,
        }
    }
}

/// What the run loop does after a pass.
#[derive(Debug, Copy, Clone, PartialEq, Eq, Structural, PartialOrd, Ord)]
pub enum RunResult {
    /// Run the next pass at once.
    RunAgain,
    /// Idle until a wake signal or the given instant.
    WaitForTick(Instant),
    /// No deadline is pending: idle until a wake signal.
    WaitForEvent,
    /// No task is left.
    NoMoreTasks,
}

impl RunResult {
    /// Whether the result says that no task is left.
    pub fn is_done(&self) -> (r: bool)
        ensures
            r == (self is NoMoreTasks),
    {
        match self {
            RunResult::NoMoreTasks => true,
            _ => false,
        }
    }

    /// What a slot in state `state` asks of the run loop; `None` is a free slot.
    pub open spec fn of_state(state: Option<TaskState>) -> RunResult {
        match state {
            Some(TaskState::Runnable) => RunResult::RunAgain,
            Some(TaskState::Waiting(Some(tick))) => RunResult::WaitForTick(tick),
            Some(TaskState::Waiting(None)) => RunResult::WaitForEvent,
            None => RunResult::NoMoreTasks,
        }
    }

    /// What a slot in state `state` asks of the run loop; `None` is a free slot.
    pub fn from_task_state(state: Option<TaskState>) -> (r: Self)
        ensures
            r == RunResult::of_state(state),
    {
        match state {
            Some(TaskState::Runnable) => RunResult::RunAgain,
            Some(TaskState::Waiting(Some(tick))) => RunResult::WaitForTick(tick),
            Some(TaskState::Waiting(None)) => RunResult::WaitForEvent,
            None => RunResult::NoMoreTasks,
        }
    }

    /// The one of two results that has the next pass sooner: `RunAgain` before any
    /// `WaitForTick`, an earlier tick before a later one, then `WaitForEvent`, then
    /// `NoMoreTasks`.
    pub open spec fn sooner(self, other: RunResult) -> RunResult {
        match (self, other) {
            (RunResult::RunAgain, _) => self,
            (_, RunResult::RunAgain) => other,
            (RunResult::WaitForTick(a), RunResult::WaitForTick(b)) => if a@ <= b@ {
                self
            } else {
                other
            },
            (RunResult::WaitForTick(_), _) => self,
            (_, RunResult::WaitForTick(_)) => other,
            (RunResult::WaitForEvent, _) => self,
            (_, RunResult::WaitForEvent) => other,
            (RunResult::NoMoreTasks, RunResult::NoMoreTasks) => self,
        }
    }

    /// The one of two results that has the next pass sooner.
    pub fn min_of(self, other: RunResult) -> (r: RunResult)
        ensures
            r == self.sooner(other),
    {
        match (self, other) {
            (RunResult::RunAgain, _) => self,
            (_, RunResult::RunAgain) => other,
            (RunResult::WaitForTick(a), RunResult::WaitForTick(b)) => if a.ticks() <= b.ticks() {
                self
            } else {
                other
            },
            (RunResult::WaitForTick(_), _) => self,
            (_, RunResult::WaitForTick(_)) => other,
            (RunResult::WaitForEvent, _) => self,
            (_, RunResult::WaitForEvent) => other,
            (RunResult::NoMoreTasks, RunResult::NoMoreTasks) => self,
        }
    }
}

/// What the executor holds of one slot.
pub enum Slot<T> {
    /// No task: none was spawned here, or the task is done.
    Free,
    /// A task, with the deadline that it sleeps until, if any.
    Live(T, Option<Instant>),
}

/// One turn of a pass as it went: the reading of the clock that it was made at, and the
/// executor and the shared state as it left them.
pub struct TurnRecord<T, S> {
    /// The reading of the clock.
    pub now: Instant,
    /// The executor after the turn.
    pub model: ExecutorModel<T>,
    /// The shared state after the turn.
    pub shared: S,
}

/// One pass of a run as it went, with the idle wait that followed it.
pub struct PassRecord<E, T, S> {
    /// The executor when the pass began.
    pub before: ExecutorModel<T>,
    /// The shared state when the pass began.
    pub shared_before: S,
    /// A lower bound of the clock's readings in the pass.
    pub clock_before: int,
    /// An upper bound of the clock's readings in the pass.
    pub clock_after: int,
    /// The turns of the pass.
    pub turns: Seq<TurnRecord<T, S>>,
    /// The executor when the pass ended.
    pub after: ExecutorModel<T>,
    /// The shared state when the pass ended.
    pub shared_after: S,
    /// The idle wait that followed the pass, if one did.
    pub idle: Option<IdleRecord<E>>,
    /// The executor after the idle wait, or after the pass where no wait followed.
    pub next: ExecutorModel<T>,
}

/// The executor as its contracts see it.
pub struct ExecutorModel<T> {
    /// The slots, by index.
    pub slots: Seq<Slot<T>>,
    /// The indices whose ready bit is set.
    pub ready: Set<int>,
    /// The index of every slot that was polled, in the order of the polls.
    pub polls: Seq<int>,
}

impl<T> ExecutorModel<T> {
    /// Whether slot `i` holds a task.
    pub open spec fn live(self, i: int) -> bool {
        0 <= i < self.slots.len() && self.slots[i] is Live
    }

    /// The state of the task in slot `i`; `None` for a free slot.
    pub open spec fn state(self, i: int) -> Option<TaskState> {
        if !self.live(i) {
            None
        } else if self.ready.contains(i) {
            Some(TaskState::Runnable)
        } else {
            Some(TaskState::Waiting(self.slots[i]->Live_1))
        }
    }

    /// Whether slot `i` holds a task that is to be polled at time `now`.
    pub open spec fn due(self, i: int, now: int) -> bool {
        self.state(i) matches Some(s) && s.due(now)
    }

    /// The soonest of what the first `n` slots ask of the run loop.
    pub open spec fn requirement_upto(self, n: int) -> RunResult
        decreases n,
    {
        if n <= 0 {
            RunResult::NoMoreTasks
        } else {
            self.requirement_upto(n - 1).sooner(RunResult::of_state(self.state(n - 1)))
        }
    }

    /// What the run loop does next: the soonest of what the slots ask.
    pub open spec fn requirement(self) -> RunResult {
        self.requirement_upto(self.slots.len() as int)
    }

    /// The earliest deadline of the tasks in the first `n` slots, if one of them has a
    /// deadline.
    pub open spec fn earliest_deadline_upto(self, n: int) -> Option<Instant>
        decreases n,
    {
        if n <= 0 {
            None
        } else {
            let before = self.earliest_deadline_upto(n - 1);
            if self.live(n - 1) && self.slots[n - 1]->Live_1 is Some {
                Some(crate::task::earliest(before, self.slots[n - 1]->Live_1->Some_0))
            } else {
                before
            }
        }
    }

    /// The earliest deadline of all tasks, if one of them has a deadline: what is handed
    /// to the idle wait.
    pub open spec fn earliest_deadline(self) -> Option<Instant> {
        self.earliest_deadline_upto(self.slots.len() as int)
    }

    /// Whether a slot holds a task.
    pub open spec fn busy(self) -> bool {
        exists|k: int| #[trigger] self.live(k)
    }

    /// The lowest free slot at or after `k`, or the number of slots where all are taken.
    pub open spec fn first_free_from(self, k: int) -> int
        decreases self.slots.len() - k,
    {
        if k < 0 || k >= self.slots.len() {
            self.slots.len() as int
        } else if !self.live(k) {
            k
        } else {
            self.first_free_from(k + 1)
        }
    }

    /// The lowest free slot, or the number of slots where all are taken.
    pub open spec fn first_free(self) -> int {
        self.first_free_from(0)
    }

    /// The model after `task` was put into the free slot `i`.
    pub open spec fn with_task(self, i: int, task: T) -> ExecutorModel<T> {
        ExecutorModel {
            slots: self.slots.update(i, Slot::Live(task, None)),
            ready: self.ready.insert(i),
            polls: self.polls,
        }
    }

    /// The model after the task in slot `i` was polled once, where the poll left the task
    /// as `task_after`, woke the slots `woken`, asked for the deadline `deadline`, and said
    /// by `done` whether the task is done. The slot's ready bit and its old deadline were
    /// consumed by the poll. A task that is done leaves its slot free.
    pub open spec fn after_poll(
        self,
        i: int,
        task_after: T,
        woken: Set<int>,
        deadline: Option<Instant>,
        done: bool,
    ) -> ExecutorModel<T> {
        ExecutorModel {
            slots: self.slots.update(
                i,
                if done {
                    Slot::Free
                } else {
                    Slot::Live(task_after, deadline)
                },
            ),
            ready: self.ready.remove(i).union(woken),
            polls: self.polls.push(i),
        }
    }

    /// What asking for a wake of the task in slot `i` no later than `time` does at time
    /// `now`, from `self` to `post` and with the answer `r`. Once `time` has come the
    /// answer is `Ready` and nothing changes. Before that the answer is `Pending`, and the
    /// slot's deadline becomes the earlier of `time` and what it was.
    pub open spec fn deadline_asked(
        self,
        post: ExecutorModel<T>,
        i: int,
        time: Instant,
        now: int,
        r: Poll<()>,
    ) -> bool {
        if now >= time@ {
            r == Poll::Ready(()) && post == self
        } else {
            r == Poll::<()>::Pending && post == (ExecutorModel {
                slots: self.slots.update(
                    i,
                    Slot::Live(
                        self.slots[i]->Live_0,
                        Some(crate::task::earliest(self.slots[i]->Live_1, time)),
                    ),
                ),
                ..self
            })
        }
    }

    /// What a poll of the task in slot `i` does, at the reading `now` of the clock, from
    /// `self` to `post`, where `step` is the poll.
    ///
    /// - The poll is one that the task can make. It finds the task as the slot held it and
    ///   the shared state as it was, and leaves the shared state as it then is.
    /// - The context that it is handed is fresh: for slot `i`, at `now`, with nothing asked
    ///   for yet.
    /// - The slot's ready bit and its deadline are consumed by the poll. What the poll woke
    ///   becomes ready; a task that is done leaves the slot free; a task that is not done
    ///   stays in the slot as the poll left it, with the deadline that it asked for.
    pub open spec fn polled_by<S>(
        self,
        post: ExecutorModel<T>,
        i: int,
        now: Instant,
        shared_before: S,
        shared_after: S,
        step: PollStep<T, S, T::Output>,
    ) -> bool where T: Task<S> {
        &&& T::poll_spec(step)
        &&& step.task_before == self.slots[i]->Live_0
        &&& step.cx_before.waker_spec().index() == i
        &&& step.cx_before.now() == now
        &&& step.cx_before.woken() == Set::<int>::empty()
        &&& step.cx_before.deadline().is_none()
        &&& step.shared_before == shared_before
        &&& step.shared_after == shared_after
        &&& post == self.after_poll(
            i,
            step.task_after,
            step.cx_after.woken(),
            step.cx_after.deadline(),
            step.outcome is Ready,
        )
    }

    /// One slot's turn in a pass, at the reading `now` of the clock, from `self` to `post`.
    /// A slot that holds a task that is due is polled once. Any other slot is not polled,
    /// and nothing changes but the slot's ready bit, which is cleared: that is the stale
    /// bit of a free slot.
    pub open spec fn turn<S>(
        self,
        post: ExecutorModel<T>,
        i: int,
        now: Instant,
        shared_before: S,
        shared_after: S,
    ) -> bool where T: Task<S> {
        if self.due(i, now@) {
            exists|step: PollStep<T, S, T::Output>| #[trigger]
                self.polled_by(post, i, now, shared_before, shared_after, step)
        } else {
            &&& shared_after == shared_before
            &&& post == (ExecutorModel { ready: self.ready.remove(i), ..self })
        }
    }

    /// What a turn does to the slots, the ready bits and the record of polls, whatever
    /// the task did: only slot `i` and the bits that the task woke change, and the slot is
    /// polled exactly when it holds a task that is due.
    pub open spec fn turn_outline(self, post: ExecutorModel<T>, i: int, now: int) -> bool {
        &&& post.slots.len() == self.slots.len()
        &&& forall|k: int| 0 <= k < self.slots.len() && k != i ==> post.slots[k] == self.slots[k]
        &&& self.ready.remove(i).subset_of(post.ready)
        &&& if self.due(i, now) {
            post.polls == self.polls.push(i)
        } else {
            &&& post.polls == self.polls
            &&& post.ready == self.ready.remove(i)
            &&& post.slots[i] == self.slots[i]
        }
    }

    /// A turn has the outline of a turn.
    pub proof fn lemma_turn_outline<S>(
        self,
        post: ExecutorModel<T>,
        i: int,
        now: Instant,
        shared_before: S,
        shared_after: S,
    ) where T: Task<S>
        requires
            0 <= i < self.slots.len(),
            self.turn(post, i, now, shared_before, shared_after),
        ensures
            self.turn_outline(post, i, now@),
    {
    }

    /// Whether `turns` are the turns of the first `n` slots in a pass that begins with the
    /// executor as `self` and the shared state as `shared_before`: slot `k` has its turn
    /// on what the turn of slot `k - 1` left, at a reading of the clock that lies between
    /// `clock_before` and `clock_after` and is not earlier than the reading before it.
    #[verifier::opaque]
    pub open spec fn turns_upto<S>(
        self,
        shared_before: S,
        turns: Seq<TurnRecord<T, S>>,
        n: int,
        clock_before: int,
        clock_after: int,
    ) -> bool where T: Task<S> {
        &&& turns.len() == n
        &&& forall|k: int|
            #![trigger turns[k]]
            0 <= k < n ==> {
                &&& (if k == 0 {
                    self
                } else {
                    turns[k - 1].model
                }).turn(
                    turns[k].model,
                    k,
                    turns[k].now,
                    if k == 0 {
                        shared_before
                    } else {
                        turns[k - 1].shared
                    },
                    turns[k].shared,
                )
                &&& clock_before <= turns[k].now@ <= clock_after
                &&& k > 0 ==> turns[k - 1].now@ <= turns[k].now@
            }
    }

    /// Whether a pass that begins with the executor as `self` and the shared state as
    /// `shared_before` can end with them as `post` and `shared_after`: every slot has its
    /// turn once, in the order of the indices, and `turns` are those turns.
    pub open spec fn is_pass<S>(
        self,
        post: ExecutorModel<T>,
        shared_before: S,
        shared_after: S,
        turns: Seq<TurnRecord<T, S>>,
        clock_before: int,
        clock_after: int,
    ) -> bool where T: Task<S> {
        &&& self.turns_upto(shared_before, turns, self.slots.len() as int, clock_before, clock_after)
        &&& post == if turns.len() == 0 {
            self
        } else {
            turns.last().model
        }
        &&& shared_after == if turns.len() == 0 {
            shared_before
        } else {
            turns.last().shared
        }
    }

    /// Whether pass `p` of `passes` is a pass of a run that began with the executor as
    /// `self` and the shared state as `shared_before`, when the clock stood at
    /// `clock_before` or later; `more` says whether the run goes on after the last of
    /// `passes`.
    ///
    /// - The pass begins with what the pass before it, and the idle wait after that,
    ///   left; the first begins with what was given. Its readings of the clock are not
    ///   earlier than those of the pass before.
    /// - A pass is made only while a task is held.
    /// - Where another pass follows, the platform idles after this one. The wait is
    ///   handed the ready mask and the earliest deadline of the tasks that are left, and
    ///   only adds ready bits. No wait follows the last pass of a run.
    #[verifier::opaque]
    pub open spec fn pass_in_run<E: Environment, S>(
        self,
        shared_before: S,
        passes: Seq<PassRecord<E, T, S>>,
        p: int,
        clock_before: int,
        more: bool,
    ) -> bool where T: Task<S> {
        &&& passes[p].before == if p == 0 {
            self
        } else {
            passes[p - 1].next
        }
        &&& passes[p].shared_before == if p == 0 {
            shared_before
        } else {
            passes[p - 1].shared_after
        }
        &&& passes[p].clock_before >= if p == 0 {
            clock_before
        } else {
            passes[p - 1].clock_after
        }
        &&& passes[p].clock_before <= passes[p].clock_after
        &&& passes[p].before.busy()
        &&& passes[p].before.is_pass(
            passes[p].after,
            passes[p].shared_before,
            passes[p].shared_after,
            passes[p].turns,
            passes[p].clock_before,
            passes[p].clock_after,
        )
        &&& match passes[p].idle {
            Some(idle) => {
                &&& p + 1 < passes.len() || more
                &&& idle.tick == passes[p].after.earliest_deadline()
                &&& idle.ready_before@ == passes[p].after.ready
                &&& idle.ready_before@.subset_of(idle.ready_after@)
                &&& E::wait_spec(idle)
                &&& passes[p].next == (ExecutorModel {
                    ready: idle.ready_after@,
                    ..passes[p].after
                })
            },
            None => p + 1 == passes.len() && !more && passes[p].next == passes[p].after,
        }
    }

    /// Whether `passes` are the passes of one run, from the executor as `self` and the
    /// shared state as `shared_before` to `post` and `shared_after`, with the result `r`.
    ///
    /// - Every one of them is a pass of the run, and the run does not go on after the
    ///   last. Each reads the clock within its window; the windows follow one another
    ///   and the last ends at `clock_after` or before.
    /// - At most `max_passes` are made. The run ends before that only where no task is
    ///   left.
    /// - The run leaves the executor and the shared state as the last pass left them.
    ///   The result is what the slots ask for then.
    pub open spec fn is_run<E: Environment, S>(
        self,
        post: ExecutorModel<T>,
        shared_before: S,
        shared_after: S,
        passes: Seq<PassRecord<E, T, S>>,
        max_passes: int,
        clock_before: int,
        clock_after: int,
        r: RunResult,
    ) -> bool where T: Task<S> {
        &&& passes.len() <= max_passes
        &&& forall|p: int|
            0 <= p < passes.len() ==> #[trigger] self.pass_in_run(
                shared_before,
                passes,
                p,
                clock_before,
                false,
            )
        &&& passes.len() > 0 ==> passes.last().clock_after <= clock_after
        &&& post == if passes.len() == 0 {
            self
        } else {
            passes.last().next
        }
        &&& shared_after == if passes.len() == 0 {
            shared_before
        } else {
            passes.last().shared_after
        }
        &&& r == post.requirement()
        &&& passes.len() < max_passes ==> !post.busy()
    }

    /// The part of a pass that has given the first `n` slots their turn, from `self` to
    /// `post`, where the clock stood at `clock` or later when the pass began.
    ///
    /// - The slots that had no turn yet are as they were, and so are their ready bits.
    /// - A slot that was free is still free, and was not polled.
    /// - The slots that were polled were polled once each, in the order of their indices.
    /// - A slot that held a task that was due when the pass began was polled.
    pub open spec fn pass_upto(self, post: ExecutorModel<T>, n: int, clock: int) -> bool {
        let from = self.polls.len() as int;
        &&& post.slots.len() == self.slots.len()
        &&& forall|k: int| n <= k < self.slots.len() ==> #[trigger] post.slots[k] == self.slots[k]
        &&& forall|k: int| 0 <= k < n && !self.live(k) ==> !#[trigger] post.live(k)
        &&& post.polls.len() >= from
        &&& post.polls.subrange(0, from) == self.polls
        &&& forall|j: int|
            from <= j < post.polls.len() ==> 0 <= #[trigger] post.polls[j] < n && self.live(
                post.polls[j],
            )
        &&& forall|a: int, b: int|
            from <= a < b < post.polls.len() ==> #[trigger] post.polls[a] < #[trigger] post.polls[b]
        &&& forall|k: int| n <= k && self.ready.contains(k) ==> #[trigger] post.ready.contains(k)
        &&& forall|k: int| 0 <= k < n && #[trigger] self.due(k, clock) ==> post.polled_since(from, k)
    }

    /// What holds from `self` to `post` over any number of passes and idle waits: no task
    /// was added, and only slots that held a task were polled.
    pub open spec fn progress(self, post: ExecutorModel<T>) -> bool {
        let from = self.polls.len() as int;
        &&& post.slots.len() == self.slots.len()
        &&& forall|k: int| !self.live(k) ==> !#[trigger] post.live(k)
        &&& post.polls.len() >= from
        &&& post.polls.subrange(0, from) == self.polls
        &&& forall|j: int| from <= j < post.polls.len() ==> self.live(#[trigger] post.polls[j])
    }

    /// Whether slot `k` was polled at or after position `from` of the record of polls.
    pub open spec fn polled_since(self, from: int, k: int) -> bool {
        exists|j: int| from <= j < self.polls.len() && #[trigger] self.polls[j] == k
    }
}

/// What the turn of one task is, apart from the executor that holds it: `step` is the
/// poll that was made of `task`, which has the wake handle `waker`, at the reading `now`
/// of the clock, and `ready_before` and `ready_after` are the ready bits around it.
///
/// - The poll is one that the task can make. It finds the task and the shared state as
///   they were, and is handed a fresh context: of the task's slot, at `now`, with nothing
///   asked for yet.
/// - The bit of the task's slot is consumed; what the poll woke is set.
pub open spec fn polled<S, T: Task<S>>(
    task: T,
    waker: WakerInfo,
    now: Instant,
    ready_before: Set<int>,
    ready_after: Set<int>,
    shared_before: S,
    step: PollStep<T, S, T::Output>,
) -> bool {
    &&& T::poll_spec(step)
    &&& step.task_before == task
    &&& step.cx_before.waker_spec() == waker
    &&& step.cx_before.now() == now
    &&& step.cx_before.woken() == Set::<int>::empty()
    &&& step.cx_before.deadline().is_none()
    &&& step.shared_before == shared_before
    &&& ready_after == ready_before.remove(waker.index()).union(step.cx_after.woken())
}

/// Gives one task its turn at the reading `now` of the clock. The task is due when the
/// ready bit of its slot is set or its deadline has come. A task that is due is polled
/// once, with a fresh context: its ready bit and its deadline are consumed, what it woke
/// is set in `ready`, the deadline that it asked for is kept, and the outcome of the poll
/// is returned. A task that is not due is left alone, and `None` is returned.
pub fn poll_if_due<S, T: Task<S>>(
    task: &mut T,
    waker: WakerInfo,
    sleep_until: &mut Option<Instant>,
    ready: &mut ReadyMask,
    now: Instant,
    shared: &mut S,
) -> (r: Option<Poll<T::Output>>)
    ensures
        (r is Some) == (old(ready)@.contains(waker.index()) || TaskState::Waiting(
            *old(sleep_until),
        ).due(now@)),
        r is None ==> {
            &&& *final(task) == *old(task)
            &&& *final(sleep_until) == *old(sleep_until)
            &&& *final(shared) == *old(shared)
            &&& final(ready)@ == old(ready)@.remove(waker.index())
        },
        r matches Some(outcome) ==> exists|step: PollStep<T, S, T::Output>|
            #![trigger step.outcome]
            {
                &&& polled(*old(task), waker, now, old(ready)@, final(ready)@, *old(shared), step)
                &&& step.outcome == outcome
                &&& step.task_after == *final(task)
                &&& step.shared_after == *final(shared)
                &&& step.cx_after.deadline() == *final(sleep_until)
            },
{
    let woken = waker.take_runnable(ready);
    let state = if woken {
        TaskState::Runnable
    } else {
        TaskState::Waiting(*sleep_until)
    };
    if !state.is_runnable(now) {
        return None;
    }
    let mut cx = Context::new(waker, now);
    let ghost cx_before = cx;
    let outcome = task.poll(&mut cx, shared);
    ready.merge(cx.wake_requests());
    *sleep_until = cx.sleep_request();
    proof {
        let step = PollStep {
            task_before: *old(task),
            task_after: *task,
            cx_before,
            cx_after: cx,
            shared_before: *old(shared),
            shared_after: *shared,
            outcome,
        };
        assert(polled(*old(task), waker, now, old(ready)@, ready@, *old(shared), step));
        assert(step.outcome == outcome);
    }
    Some(outcome)
}

/// Record of a task in its slot.
struct TaskInfo<T> {
    task: T,
    waker: WakerInfo,
    sleep_until: Option<Instant>,
}

/// Runs up to `N` tasks of type `T` on one thread of control, with `E` as its platform.
pub struct LocalExecutor<E, T, const N: usize> {
    env: E,
    tasks: Vec<Option<TaskInfo<T>>>,
    ready: ReadyMask,
    polls: Ghost<Seq<int>>,
    passes: Ghost<nat>,
}

impl<E, T, const N: usize> LocalExecutor<E, T, N> {
    /// The executor's invariant: it has `N` slots, and the wake handle of each task is
    /// bound to the slot that the task is in.
    pub closed spec fn wf(self) -> bool {
        &&& self.tasks.len() == N
        &&& forall|i: int|
            0 <= i < self.tasks.len() ==> (#[trigger] self.tasks[i] matches Some(info)
                ==> info.waker.index() == i && i < MASK_WIDTH)
    }

    /// What slot `i` holds.
    spec fn slot_at(self, i: int) -> Slot<T> {
        match self.tasks[i] {
            Some(info) => Slot::Live(info.task, info.sleep_until),
            None => Slot::Free,
        }
    }
}

impl<E, T, const N: usize> View for LocalExecutor<E, T, N> {
    type V = ExecutorModel<T>;

    closed spec fn view(&self) -> ExecutorModel<T> {
        ExecutorModel {
            slots: Seq::new(self.tasks.len() as nat, |i: int| self.slot_at(i)),
            ready: self.ready@,
            polls: self.polls@,
        }
    }
}

impl<E: Environment, T, const N: usize> LocalExecutor<E, T, N> {
    /// The platform that the executor runs on.
    pub closed spec fn env_spec(self) -> E {
        self.env
    }

    /// The number of passes that the executor has made.
    pub closed spec fn passes(self) -> nat {
        self.passes@
    }

    /// An executor with `N` free slots.
    pub fn new(env: E) -> (r: Self)
        ensures
            r.wf(),
            r.env_spec() == env,
            r@.slots.len() == N,
            forall|i: int| 0 <= i < N ==> r@.slots[i] is Free,
            r@.ready == Set::<int>::empty(),
            r@.polls == Seq::<int>::empty(),
            r.passes() == 0,
    {
        let mut tasks: Vec<Option<TaskInfo<T>>> = Vec::new();
        let mut i: usize = 0;
        while i < N
            invariant
                i <= N,
                tasks.len() == i,
                forall|k: int| 0 <= k < i ==> tasks[k].is_none(),
            decreases N - i,
        {
            tasks.push(None);
            i = i + 1;
        }
        LocalExecutor { env, tasks, ready: ReadyMask::new(), polls: Ghost(Seq::empty()), passes: Ghost(0) }
    }

    /// The platform that the executor runs on.
    pub fn env(&self) -> (r: &E)
        ensures
            *r == self.env_spec(),
    {
        &self.env
    }

    /// Gives the platform back and drops the tasks that are left.
    pub fn into_env(self) -> (r: E)
        ensures
            r == self.env_spec(),
    {
        self.env
    }

    /// The ready mask as it stands.
    pub fn ready_mask(&self) -> (r: ReadyMask)
        ensures
            r@ == self@.ready,
    {
        self.ready
    }

    /// Whether slot `task_index` holds a task.
    pub fn is_live(&self, task_index: usize) -> (r: bool)
        requires
            self.wf(),
        ensures
            r == self@.live(task_index as int),
    {
        if task_index < N {
            self.tasks[task_index].is_some()
        } else {
            false
        }
    }

    /// Puts `task` into the lowest free slot and marks it runnable, so that the next pass
    /// polls it. Fails, and changes nothing, where no slot is free, or where the free slot
    /// has no bit in the ready mask.
    pub fn spawn(&mut self, task: T) -> (r: Result<(), ExecutorError>)
        requires
            old(self).wf(),
        ensures
            final(self).wf(),
            final(self).env_spec() == old(self).env_spec(),
            final(self).passes() == old(self).passes(),
            old(self)@.first_free() >= N ==> r == Err::<(), ExecutorError>(
                ExecutorError::SlotCapacityExceeded,
            ) && final(self)@ == old(self)@,
            MASK_WIDTH <= old(self)@.first_free() < N ==> r == Err::<(), ExecutorError>(
                ExecutorError::TaskIndexOutOfRange,
            ) && final(self)@ == old(self)@,
            old(self)@.first_free() < N && old(self)@.first_free() < MASK_WIDTH ==> r == Ok::<
                (),
                ExecutorError,
            >(()) && final(self)@ == old(self)@.with_task(old(self)@.first_free(), task),
    {
        let mut i: usize = 0;
        while i < N && self.tasks[i].is_some()
            invariant
                i <= N,
                self.tasks.len() == N,
                *self == *old(self),
                self@.first_free() == self@.first_free_from(i as int),
            decreases N - i,
        {
            i = i + 1;
        }
        if i >= N {
            return Err(ExecutorError::SlotCapacityExceeded);
        }
        let mut ready = self.ready;
        match WakerInfo::new(i, &mut ready) {
            Err(e) => Err(e),
            Ok(waker) => {
                self.ready = ready;
                self.tasks[i] = Some(TaskInfo { task, waker, sleep_until: None });
                proof {
                    assert(self@.slots =~= old(self)@.with_task(i as int, task).slots);
                }
                Ok(())
            },
        }
    }

    /// What the run loop does next, from the slots and the ready mask as they stand.
    pub fn next_requirement(&self) -> (r: RunResult)
        requires
            self.wf(),
        ensures
            r == self@.requirement(),
    {
        let mut result = RunResult::NoMoreTasks;
        let mut i: usize = 0;
        while i < N
            invariant
                i <= N,
                self.wf(),
                result == self@.requirement_upto(i as int),
            decreases N - i,
        {
            let state = self.task_state(i);
            result = result.min_of(RunResult::from_task_state(state));
            i = i + 1;
        }
        result
    }

    /// The state of the task in slot `task_index`; `None` for a free slot.
    pub fn task_state(&self, task_index: usize) -> (r: Option<TaskState>)
        requires
            self.wf(),
        ensures
            r == self@.state(task_index as int),
    {
        if task_index >= N {
            return None;
        }
        match &self.tasks[task_index] {
            None => None,
            Some(info) => {
                if info.waker.is_runnable(&self.ready) {
                    Some(TaskState::Runnable)
                } else {
                    Some(TaskState::Waiting(info.sleep_until))
                }
            },
        }
    }

    /// Gives slot `task_index` its turn at the reading `now` of the clock: polls its task
    /// once if it is due, frees the slot if the task is done, and says what the slot then
    /// asks of the run loop. The platform is not touched.
    pub fn run_task_at<S>(&mut self, task_index: usize, now: Instant, shared: &mut S) -> (r:
        RunResult) where T: Task<S>
        requires
            old(self).wf(),
            task_index < N,
        ensures
            final(self).wf(),
            final(self).env_spec() == old(self).env_spec(),
            final(self).passes() == old(self).passes(),
            old(self)@.turn(final(self)@, task_index as int, now, *old(shared), *final(shared)),
            r == RunResult::of_state(final(self)@.state(task_index as int)),
    {
        let ghost pre = old(self)@;
        let mut slot: Option<TaskInfo<T>> = None;
        core::mem::swap(&mut slot, &mut self.tasks[task_index]);
        match slot {
            None => {
                match crate::waker::from_waker(task_index) {
                    Some(stale) => {
                        stale.take_runnable(&mut self.ready);
                    },
                    None => {
                        proof {
                            self.ready.lemma_view_bounds();
                            assert(self.ready@ =~= self.ready@.remove(task_index as int));
                        }
                    },
                }
                proof {
                    assert(self@.slots =~= pre.slots);
                }
            },
            Some(mut info) => {
                let ghost held = info;
                let outcome = poll_if_due(
                    &mut info.task,
                    info.waker,
                    &mut info.sleep_until,
                    &mut self.ready,
                    now,
                    shared,
                );
                match outcome {
                    None => {
                        self.tasks[task_index] = Some(info);
                        proof {
                            assert(self@.slots =~= pre.slots);
                        }
                    },
                    Some(polled_outcome) => {
                        self.polls = Ghost(self.polls@.push(task_index as int));
                        let ghost step = choose|step: PollStep<T, S, T::Output>|
                            #![trigger step.outcome]
                            {
                                &&& polled(
                                    held.task,
                                    held.waker,
                                    now,
                                    pre.ready,
                                    self.ready@,
                                    *old(shared),
                                    step,
                                )
                                &&& step.outcome == polled_outcome
                                &&& step.task_after == info.task
                                &&& step.shared_after == *shared
                                &&& step.cx_after.deadline() == info.sleep_until
                            };
                        match polled_outcome {
                            Poll::Ready(_) => {},
                            Poll::Pending => {
                                self.tasks[task_index] = Some(info);
                            },
                        }
                        proof {
                            let after = pre.after_poll(
                                task_index as int,
                                step.task_after,
                                step.cx_after.woken(),
                                step.cx_after.deadline(),
                                step.outcome is Ready,
                            );
                            assert(self@.slots =~= after.slots);
                            assert(self@.ready =~= after.ready);
                            assert(self@ == after);
                            assert(pre.polled_by(
                                self@,
                                task_index as int,
                                now,
                                *old(shared),
                                *shared,
                                step,
                            ));
                        }
                    },
                }
            },
        }
        proof {
            assert(pre.turn(self@, task_index as int, now, *old(shared), *shared));
        }
        let state = self.task_state(task_index);
        RunResult::from_task_state(state)
    }

    /// Gives slot `task_index` its turn at the time that the clock gives: reads the clock,
    /// then does as `run_task_at` does with that reading.
    pub fn run_task<S>(&mut self, task_index: usize, shared: &mut S) -> (r: RunResult) where
        T: Task<S>,

        requires
            old(self).wf(),
            task_index < N,
        ensures
            final(self).wf(),
            final(self).env_spec().executor_entered() == old(self).env_spec().executor_entered(),
            final(self).passes() == old(self).passes(),
            exists|now: Instant|
                old(self).env_spec().clock() <= now@ <= final(self).env_spec().clock() && #[trigger] old(
                    self,
                )@.turn(final(self)@, task_index as int, now, *old(shared), *final(shared)),
            r == RunResult::of_state(final(self)@.state(task_index as int)),
    {
        let now = self.env.ticks();
        proof {
            assert(self@.slots =~= old(self)@.slots);
            assert(self@ == old(self)@);
        }
        self.run_task_at(task_index, now, shared)
    }

    /// One pass: registers with the platform, gives every slot its turn in the order of
    /// the indices, ends the registration, and says what the run loop does next.
    pub fn run_once<S>(&mut self, shared: &mut S) -> (r: RunResult) where T: Task<S>
        requires
            old(self).wf(),
            !old(self).env_spec().executor_entered(),
        ensures
            final(self).wf(),
            !final(self).env_spec().executor_entered(),
            old(self).env_spec().clock() <= final(self).env_spec().clock(),
            exists|turns: Seq<TurnRecord<T, S>>|
                    old(self)@.is_pass(
                    final(self)@,
                    *old(shared),
                    *final(shared),
                    turns,
                    old(self).env_spec().clock(),
                    final(self).env_spec().clock(),
                ),
            old(self)@.pass_upto(final(self)@, N as int, old(self).env_spec().clock()),
            final(self).passes() == old(self).passes() + 1,
            r == final(self)@.requirement(),
    {
        let ghost pre = self@;
        let ghost clock = self.env.clock();
        self.env.enter_executor();
        proof {
            assert(self@.slots =~= pre.slots);
            assert(self@.polls.subrange(0, pre.polls.len() as int) =~= pre.polls);
            assert(self@ == pre);
        }
        let ghost mut turns: Seq<TurnRecord<T, S>> = Seq::empty();
        let ghost mut last_now: int = clock;
        let mut i: usize = 0;
        proof {
            reveal(ExecutorModel::turns_upto);
        }
        while i < N
            invariant
                i <= N,
                self.wf(),
                self.env.executor_entered(),
                clock <= last_now <= self.env.clock(),
                pre.slots.len() == N,
                self.passes() == old(self).passes(),
                pre.pass_upto(self@, i as int, clock),
                pre.turns_upto(*old(shared), turns, i as int, clock, last_now),
                i > 0 ==> turns.last().now@ <= last_now,
                self@ == if i == 0 {
                    pre
                } else {
                    turns.last().model
                },
                *shared == if i == 0 {
                    *old(shared)
                } else {
                    turns.last().shared
                },
            decreases N - i,
        {
            let ghost mid = self@;
            let ghost mid_shared = *shared;
            let ghost mid_clock = self.env.clock();
            let ghost before = turns;
            let _ = self.run_task(i, shared);
            proof {
                let now = choose|now: Instant|
                    mid_clock <= now@ <= self.env.clock() && #[trigger] mid.turn(
                        self@,
                        i as int,
                        now,
                        mid_shared,
                        *shared,
                    );
                reveal(ExecutorModel::turns_upto);
                mid.lemma_turn_outline(self@, i as int, now, mid_shared, *shared);
                ExecutorModel::lemma_pass_step(pre, mid, self@, i as int, clock, now@);
                turns = before.push(TurnRecord { now, model: self@, shared: *shared });
                assert forall|k: int| 0 <= k < i implies turns[k] == before[k] by {}
                last_now = self.env.clock();
            }
            i = i + 1;
        }
        let ghost last = self@;
        self.env.leave_executor();
        self.passes = Ghost(self.passes@ + 1);
        proof {
            assert(self@.slots =~= last.slots);
            assert(self@ == last);
            reveal(ExecutorModel::turns_upto);
            assert(pre.is_pass(
                self@,
                *old(shared),
                *shared,
                turns,
                clock,
                self.env.clock(),
            ));
        }
        assert(old(self)@.is_pass(
            self@,
            *old(shared),
            *shared,
            turns,
            old(self).env_spec().clock(),
            self.env_spec().clock(),
        ));
        self.next_requirement()
    }

    /// The earliest deadline of the tasks that are held, if one of them has a deadline.
    pub fn next_deadline(&self) -> (r: Option<Instant>)
        requires
            self.wf(),
        ensures
            r == self@.earliest_deadline(),
    {
        let mut earliest: Option<Instant> = None;
        let mut i: usize = 0;
        while i < N
            invariant
                i <= N,
                self.wf(),
                earliest == self@.earliest_deadline_upto(i as int),
            decreases N - i,
        {
            match &self.tasks[i] {
                Some(info) => {
                    match info.sleep_until {
                        Some(t) => {
                            earliest = crate::task::lower_deadline(earliest, t);
                        },
                        None => {},
                    }
                },
                None => {},
            }
            i = i + 1;
        }
        earliest
    }

    /// Runs passes until no task is left or `max_passes` passes were made. After every
    /// pass but the last it hands the ready mask and the earliest deadline of the tasks
    /// to the platform's idle wait. The result is what the slots ask for after the last
    /// pass: `NoMoreTasks` exactly when every slot is free on return. With no task held
    /// the platform is not touched.
    pub fn run<S>(&mut self, shared: &mut S, max_passes: usize) -> (r: RunResult) where T: Task<S>
        requires
            old(self).wf(),
            !old(self).env_spec().executor_entered(),
        ensures
            final(self).wf(),
            !final(self).env_spec().executor_entered(),
            old(self).env_spec().clock() <= final(self).env_spec().clock(),
            exists|passes: Seq<PassRecord<E, T, S>>|
                old(self)@.is_run(
                    final(self)@,
                    *old(shared),
                    *final(shared),
                    passes,
                    max_passes as int,
                    old(self).env_spec().clock(),
                    final(self).env_spec().clock(),
                    r,
                ) && final(self).passes() == old(self).passes() + passes.len(),
            old(self)@.progress(final(self)@),
            (r is NoMoreTasks) <==> !final(self)@.busy(),
            !(r is NoMoreTasks) ==> final(self).passes() == old(self).passes() + max_passes,
            max_passes == 0 || !old(self)@.busy() ==> {
                &&& final(self)@ == old(self)@
                &&& final(self).env_spec() == old(self).env_spec()
                &&& *final(shared) == *old(shared)
            },
    {
        let ghost pre = self@;
        let ghost clock = self.env.clock();
        let mut result = self.next_requirement();
        let mut left = max_passes;
        let ghost mut passes: Seq<PassRecord<E, T, S>> = Seq::empty();
        let ghost mut going: bool = left > 0 && !(result is NoMoreTasks);
        proof {
            self@.lemma_requirement(N as int);
            ExecutorModel::lemma_progress_refl(pre);
            pre.lemma_requirement_idle(pre);
        }
        while left > 0 && !result.is_done()
            invariant
                self.wf(),
                !self.env.executor_entered(),
                clock <= self.env.clock(),
                pre.slots.len() == N,
                pre.progress(self@),
                left <= max_passes,
                passes.len() == max_passes - left,
                self.passes() == old(self).passes() + passes.len(),
                (result is NoMoreTasks) <==> !self@.busy(),
                result == if passes.len() == 0 {
                    pre.requirement()
                } else {
                    passes.last().after.requirement()
                },
                passes.len() == 0 ==> self.env == old(self).env,
                passes.len() > 0 ==> pre.busy(),
                self@ == if passes.len() == 0 {
                    pre
                } else {
                    passes.last().next
                },
                *shared == if passes.len() == 0 {
                    *old(shared)
                } else {
                    passes.last().shared_after
                },
                passes.len() > 0 ==> passes.last().clock_after <= self.env.clock(),
                forall|p: int|
                    0 <= p < passes.len() ==> #[trigger] pre.pass_in_run(
                        *old(shared),
                        passes,
                        p,
                        clock,
                        going,
                    ),
                going == (left > 0 && !(result is NoMoreTasks)),
            decreases left,
        {
            proof {
                assert(going == true);
            }
            left = left - 1;
            let ghost mid = self@;
            let ghost mid_shared = *shared;
            let ghost mid_clock = self.env.clock();
            let ghost earlier = passes;
            result = self.run_once(shared);
            let ghost turns = choose|turns: Seq<TurnRecord<T, S>>|
                mid.is_pass(self@, mid_shared, *shared, turns, mid_clock, self.env.clock());
            let ghost after = self@;
            let ghost shared_after = *shared;
            let ghost pass_clock = self.env.clock();
            proof {
                self@.lemma_requirement_idle(self@);
                mid.lemma_requirement_idle(mid);
                ExecutorModel::lemma_pass_progress(mid, self@, mid_clock);
                ExecutorModel::lemma_progress_trans(pre, mid, self@);
            }
            let ghost mut idle: Option<IdleRecord<E>> = None;
            if left > 0 && !result.is_done() {
                let tick = self.next_deadline();
                let ghost env_before = self.env;
                let ghost ready_before = self.ready;
                self.env.wait_for_event_with_deadline(&mut self.ready, tick);
                proof {
                    idle = Some(
                        IdleRecord {
                            env_before,
                            env_after: self.env,
                            ready_before,
                            ready_after: self.ready,
                            tick,
                        },
                    );
                    assert(self@.slots =~= after.slots);
                    assert(self@ == (ExecutorModel { ready: self.ready@, ..after }));
                    ExecutorModel::lemma_progress_idle(pre, after, self@);
                    assert forall|k: int| self@.live(k) == after.live(k) by {}
                    assert(self@.busy() == after.busy());
                    after.lemma_requirement_idle(self@);
                }
            }
            proof {
                let pass = PassRecord {
                    before: mid,
                    shared_before: mid_shared,
                    clock_before: mid_clock,
                    clock_after: pass_clock,
                    turns,
                    after,
                    shared_after,
                    idle,
                    next: self@,
                };
                going = left > 0 && !(result is NoMoreTasks);
                pre.lemma_extend_run(*old(shared), earlier, pass, clock, going);
                passes = earlier.push(pass);
                pre.lemma_first_pass(*old(shared), passes, clock, going);
            }
        }
        proof {
            assert(going == false);
            if passes.len() > 0 {
                pre.lemma_last_pass(*old(shared), passes, clock);
            }
        }
        assert(old(self)@.is_run(
            self@,
            *old(shared),
            *shared,
            passes,
            max_passes as int,
            old(self).env_spec().clock(),
            self.env_spec().clock(),
            result,
        ) && self.passes() == old(self).passes() + passes.len());
        result
    }

    /// Reads the platform's clock.
    pub fn current_time(&mut self) -> (now: Instant)
        ensures
            old(self).env_spec().clock() <= now@ <= final(self).env_spec().clock(),
            final(self).env_spec().executor_entered() == old(self).env_spec().executor_entered(),
            final(self)@ == old(self)@,
            final(self).passes() == old(self).passes(),
            old(self).wf() ==> final(self).wf(),
    {
        let now = self.env.ticks();
        proof {
            assert(self@.slots =~= old(self)@.slots);
        }
        now
    }

    /// Asks for a wake of the task in slot `task_index` no later than `time`. Once the
    /// clock has reached `time` the answer is `Ready` and the slot is left alone. Before
    /// that the answer is `Pending`, and the slot's deadline is lowered to `time` where it
    /// was later or absent: it is never raised.
    pub fn wakeup_task_at(&mut self, task_index: usize, time: Instant) -> (r: Poll<()>)
        requires
            old(self).wf(),
            old(self)@.live(task_index as int),
        ensures
            final(self).wf(),
            final(self).passes() == old(self).passes(),
            final(self).env_spec().executor_entered() == old(self).env_spec().executor_entered(),
            exists|now: int|
                old(self).env_spec().clock() <= now <= final(self).env_spec().clock() && #[trigger] old(
                    self,
                )@.deadline_asked(final(self)@, task_index as int, time, now, r),
    {
        let now = self.env.ticks();
        let ghost pre = old(self)@;
        proof {
            assert(self@.slots =~= pre.slots);
        }
        if now.ticks() >= time.ticks() {
            proof {
                assert(self@ == pre);
                assert(pre.deadline_asked(self@, task_index as int, time, now@, Poll::Ready(())));
            }
            return Poll::Ready(());
        }
        let mut slot: Option<TaskInfo<T>> = None;
        core::mem::swap(&mut slot, &mut self.tasks[task_index]);
        match slot {
            None => {},
            Some(mut info) => {
                info.sleep_until = crate::task::lower_deadline(info.sleep_until, time);
                self.tasks[task_index] = Some(info);
            },
        }
        proof {
            assert(self@.slots =~= pre.slots.update(
                task_index as int,
                Slot::Live(
                    pre.slots[task_index as int]->Live_0,
                    Some(crate::task::earliest(pre.slots[task_index as int]->Live_1, time)),
                ),
            ));
            assert(pre.deadline_asked(self@, task_index as int, time, now@, Poll::Pending));
        }
        Poll::Pending
    }

    /// A wake for slot `task_index`. Where the slot holds a task, its ready bit is set and
    /// the next pass polls the task. Where the slot is free, or there is no such slot, the
    /// wake is stale and nothing changes.
    pub fn set_task_runnable(&mut self, task_index: usize)
        requires
            old(self).wf(),
        ensures
            final(self).wf(),
            final(self).passes() == old(self).passes(),
            final(self).env_spec() == old(self).env_spec(),
            final(self)@ == if old(self)@.live(task_index as int) {
                ExecutorModel { ready: old(self)@.ready.insert(task_index as int), ..old(self)@ }
            } else {
                old(self)@
            },
    {
        let ghost pre = self@;
        if task_index < N {
            match &self.tasks[task_index] {
                None => {},
                Some(info) => {
                    let waker = info.waker;
                    waker.wake_task(&mut self.ready);
                },
            }
        }
        proof {
            assert(self@.slots =~= pre.slots);
        }
    }

    /// What the invariant says of the model: there are `N` slots, and a slot that holds a
    /// task has a bit in the ready mask.
    pub proof fn lemma_wf(self)
        requires
            self.wf(),
        ensures
            self@.slots.len() == N,
            forall|i: int| #[trigger] self@.live(i) ==> i < MASK_WIDTH,
    {
        assert forall|i: int| #[trigger] self@.live(i) implies i < MASK_WIDTH by {
            assert(self.tasks[i] is Some);
        }
    }
}

impl<T> ExecutorModel<T> {
    /// A pass that has given `i` slots their turn, followed by the turn of slot `i`, is a
    /// pass that has given `i + 1` slots their turn.
    pub proof fn lemma_pass_step(
        pre: ExecutorModel<T>,
        mid: ExecutorModel<T>,
        post: ExecutorModel<T>,
        i: int,
        clock: int,
        now: int,
    )
        requires
            0 <= i < pre.slots.len(),
            pre.pass_upto(mid, i, clock),
            mid.turn_outline(post, i, now),
            clock <= now,
        ensures
            pre.pass_upto(post, i + 1, clock),
    {
        let from = pre.polls.len() as int;
        assert(mid.slots[i] == pre.slots[i]);
        assert(post.polls.subrange(0, from) =~= pre.polls) by {
            assert(mid.polls.subrange(0, from) == pre.polls);
            assert forall|j: int| 0 <= j < from implies post.polls[j] == pre.polls[j] by {
                assert(mid.polls.subrange(0, from)[j] == mid.polls[j]);
            }
        }
        assert forall|k: int| 0 <= k < i + 1 && !pre.live(k) implies !#[trigger] post.live(k) by {
            if k < i {
                assert(!mid.live(k));
                assert(post.slots[k] == mid.slots[k]);
            } else {
                assert(!mid.due(i, now));
            }
        }
        assert forall|k: int| i + 1 <= k && pre.ready.contains(k) implies #[trigger] post.ready.contains(
            k,
        ) by {
            assert(mid.ready.contains(k));
            assert(mid.ready.remove(i).contains(k));
        }
        assert forall|k: int| 0 <= k < i + 1 && #[trigger] pre.due(k, clock) implies post.polled_since(
            from,
            k,
        ) by {
            if k < i {
                assert(mid.polled_since(from, k));
                let j = choose|j: int| from <= j < mid.polls.len() && mid.polls[j] == k;
                assert(post.polls[j] == k);
            } else {
                if pre.ready.contains(i) {
                    assert(mid.ready.contains(i));
                }
                assert(mid.due(i, now));
                assert(post.polls[mid.polls.len() as int] == i);
            }
        }
    }

    /// What the soonest requirement of the first `n` slots says of them.
    ///
    /// - `NoMoreTasks`: none of them holds a task.
    /// - `RunAgain`: one of them holds a task whose ready bit is set.
    /// - `WaitForTick(t)`: no ready bit of a task is set, a task sleeps until `t`, and no
    ///   task sleeps until an earlier instant.
    /// - `WaitForEvent`: a task is held, no ready bit of a task is set, and no task has a
    ///   deadline.
    pub proof fn lemma_requirement(self, n: int)
        requires
            0 <= n <= self.slots.len(),
        ensures
            (self.requirement_upto(n) is NoMoreTasks) <==> (forall|k: int|
                0 <= k < n ==> !#[trigger] self.live(k)),
            (self.requirement_upto(n) is RunAgain) <==> (exists|k: int|
                0 <= k < n && #[trigger] self.state(k) == Some(TaskState::Runnable)),
            self.requirement_upto(n) matches RunResult::WaitForTick(t) ==> {
                &&& forall|k: int| 0 <= k < n ==> #[trigger] self.state(k) != Some(TaskState::Runnable)
                &&& exists|k: int|
                    0 <= k < n && #[trigger] self.state(k) == Some(TaskState::Waiting(Some(t)))
                &&& forall|k: int|
                    0 <= k < n ==> (#[trigger] self.state(k) matches Some(
                        TaskState::Waiting(Some(u)),
                    ) ==> t@ <= u@)
            },
            (self.requirement_upto(n) is WaitForEvent) <==> {
                &&& exists|k: int| 0 <= k < n && #[trigger] self.live(k)
                &&& forall|k: int|
                    0 <= k < n && self.live(k) ==> #[trigger] self.state(k) == Some(
                        TaskState::Waiting(None),
                    )
            },
        decreases n,
    {
        if n > 0 {
            self.lemma_requirement(n - 1);
            let before = self.requirement_upto(n - 1);
            let last = RunResult::of_state(self.state(n - 1));
            let all = self.requirement_upto(n);
            assert(all == before.sooner(last));
            if all is RunAgain {
                if before is RunAgain {
                    let k = choose|k: int|
                        0 <= k < n - 1 && #[trigger] self.state(k) == Some(TaskState::Runnable);
                    assert(0 <= k < n && self.state(k) == Some(TaskState::Runnable));
                } else {
                    assert(self.state(n - 1) == Some(TaskState::Runnable));
                }
            }
            if all is WaitForTick {
                let t = all->WaitForTick_0;
                if before == all {
                    let k = choose|k: int|
                        0 <= k < n - 1 && #[trigger] self.state(k) == Some(
                            TaskState::Waiting(Some(t)),
                        );
                    assert(0 <= k < n && self.state(k) == Some(TaskState::Waiting(Some(t))));
                } else {
                    assert(self.state(n - 1) == Some(TaskState::Waiting(Some(t))));
                }
            }
            if all is WaitForEvent {
                if before is WaitForEvent {
                    let k = choose|k: int| 0 <= k < n - 1 && #[trigger] self.live(k);
                    assert(0 <= k < n && self.live(k));
                } else {
                    assert(self.live(n - 1));
                }
            }
            if exists|k: int| 0 <= k < n && #[trigger] self.state(k) == Some(TaskState::Runnable) {
                let k = choose|k: int|
                    0 <= k < n && #[trigger] self.state(k) == Some(TaskState::Runnable);
                if k < n - 1 {
                    assert(before is RunAgain);
                }
            }
            if (exists|k: int| 0 <= k < n && #[trigger] self.live(k)) && (forall|k: int|
                0 <= k < n && self.live(k) ==> #[trigger] self.state(k) == Some(
                    TaskState::Waiting(None),
                )) {
                let k = choose|k: int| 0 <= k < n && #[trigger] self.live(k);
                assert(self.state(k) == Some(TaskState::Waiting(None)));
                if k < n - 1 {
                    assert(before is WaitForEvent);
                }
            }
        }
    }

    /// Nothing done is progress.
    pub proof fn lemma_progress_refl(pre: ExecutorModel<T>)
        ensures
            pre.progress(pre),
    {
        assert(pre.polls.subrange(0, pre.polls.len() as int) =~= pre.polls);
    }

    /// A whole pass is progress.
    pub proof fn lemma_pass_progress(pre: ExecutorModel<T>, post: ExecutorModel<T>, clock: int)
        requires
            pre.pass_upto(post, pre.slots.len() as int, clock),
        ensures
            pre.progress(post),
    {
    }

    /// Progress after progress is progress.
    pub proof fn lemma_progress_trans(pre: ExecutorModel<T>, mid: ExecutorModel<T>, post: ExecutorModel<T>)
        requires
            pre.progress(mid),
            mid.progress(post),
        ensures
            pre.progress(post),
    {
        let from = pre.polls.len() as int;
        let mid_from = mid.polls.len() as int;
        assert forall|j: int| 0 <= j < mid_from implies post.polls[j] == mid.polls[j] by {
            assert(post.polls.subrange(0, mid_from)[j] == post.polls[j]);
        }
        assert forall|j: int| 0 <= j < from implies mid.polls[j] == pre.polls[j] by {
            assert(mid.polls.subrange(0, from)[j] == mid.polls[j]);
        }
        assert(post.polls.subrange(0, from) =~= pre.polls);
        assert forall|k: int| !pre.live(k) implies !#[trigger] post.live(k) by {
            assert(!mid.live(k));
        }
        assert forall|j: int| from <= j < post.polls.len() implies pre.live(
            #[trigger] post.polls[j],
        ) by {
            if j < mid_from {
                assert(pre.live(mid.polls[j]));
            } else {
                assert(mid.live(post.polls[j]));
                if !pre.live(post.polls[j]) {
                    assert(!mid.live(post.polls[j]));
                }
            }
        }
    }

    /// Progress is kept while only ready bits change.
    pub proof fn lemma_progress_idle(pre: ExecutorModel<T>, mid: ExecutorModel<T>, post: ExecutorModel<T>)
        requires
            pre.progress(mid),
            post.slots == mid.slots,
            post.polls == mid.polls,
        ensures
            pre.progress(post),
    {
        assert forall|k: int| !pre.live(k) implies !#[trigger] post.live(k) by {
            assert(!mid.live(k));
        }
    }

    /// The lowest free slot at or after `k` is free, lies at or after `k`, and every slot
    /// between `k` and it holds a task. Where it is the number of slots, none is free.
    pub proof fn lemma_first_free(self, k: int)
        requires
            0 <= k <= self.slots.len(),
        ensures
            k <= self.first_free_from(k) <= self.slots.len(),
            forall|j: int| k <= j < self.first_free_from(k) ==> #[trigger] self.live(j),
            self.first_free_from(k) < self.slots.len() ==> !self.live(self.first_free_from(k)),
        decreases self.slots.len() - k,
    {
        if k < self.slots.len() && self.live(k) {
            self.lemma_first_free(k + 1);
        }
    }

    /// A run that goes on makes one more pass: where `earlier` are passes of a run that
    /// goes on after them, and `pass` begins with what they left and is followed by an
    /// idle wait exactly where the run goes on after it, `earlier` with `pass` are
    /// passes of that run.
    pub proof fn lemma_extend_run<E: Environment, S>(
        self,
        shared_before: S,
        earlier: Seq<PassRecord<E, T, S>>,
        pass: PassRecord<E, T, S>,
        clock_before: int,
        more: bool,
    ) where T: Task<S>
        requires
            forall|p: int|
                0 <= p < earlier.len() ==> #[trigger] self.pass_in_run(
                    shared_before,
                    earlier,
                    p,
                    clock_before,
                    true,
                ),
            pass.before == if earlier.len() == 0 {
                self
            } else {
                earlier.last().next
            },
            pass.shared_before == if earlier.len() == 0 {
                shared_before
            } else {
                earlier.last().shared_after
            },
            pass.clock_before >= if earlier.len() == 0 {
                clock_before
            } else {
                earlier.last().clock_after
            },
            pass.clock_before <= pass.clock_after,
            pass.before.busy(),
            pass.before.is_pass(
                pass.after,
                pass.shared_before,
                pass.shared_after,
                pass.turns,
                pass.clock_before,
                pass.clock_after,
            ),
            match pass.idle {
                Some(idle) => {
                    &&& more
                    &&& idle.tick == pass.after.earliest_deadline()
                    &&& idle.ready_before@ == pass.after.ready
                    &&& idle.ready_before@.subset_of(idle.ready_after@)
                    &&& E::wait_spec(idle)
                    &&& pass.next == (ExecutorModel { ready: idle.ready_after@, ..pass.after })
                },
                None => !more && pass.next == pass.after,
            },
        ensures
            forall|p: int|
                0 <= p < earlier.len() + 1 ==> #[trigger] self.pass_in_run(
                    shared_before,
                    earlier.push(pass),
                    p,
                    clock_before,
                    more,
                ),
    {
        reveal(ExecutorModel::pass_in_run);
        let passes = earlier.push(pass);
        assert forall|p: int| 0 <= p < earlier.len() + 1 implies #[trigger] self.pass_in_run(
            shared_before,
            passes,
            p,
            clock_before,
            more,
        ) by {
            if p < earlier.len() {
                assert(passes[p] == earlier[p]);
                assert(self.pass_in_run(shared_before, earlier, p, clock_before, true));
                if p > 0 {
                    assert(passes[p - 1] == earlier[p - 1]);
                }
            } else {
                if p > 0 {
                    assert(passes[p - 1] == earlier.last());
                }
            }
        }
    }

    /// No idle wait follows the last pass of a run, so the run leaves the executor as
    /// that pass left it.
    pub proof fn lemma_last_pass<E: Environment, S>(
        self,
        shared_before: S,
        passes: Seq<PassRecord<E, T, S>>,
        clock_before: int,
    ) where T: Task<S>
        requires
            passes.len() > 0,
            self.pass_in_run(shared_before, passes, passes.len() - 1, clock_before, false),
        ensures
            passes.last().idle is None,
            passes.last().next == passes.last().after,
            passes[0].before == self || passes.len() > 1,
    {
        reveal(ExecutorModel::pass_in_run);
    }

    /// The first pass of a run begins with what the run was given, which holds a task.
    pub proof fn lemma_first_pass<E: Environment, S>(
        self,
        shared_before: S,
        passes: Seq<PassRecord<E, T, S>>,
        clock_before: int,
        more: bool,
    ) where T: Task<S>
        requires
            passes.len() > 0,
            self.pass_in_run(shared_before, passes, 0, clock_before, more),
        ensures
            passes[0].before == self,
            self.busy(),
    {
        reveal(ExecutorModel::pass_in_run);
    }

    /// What is handed to the idle wait is the least deadline of the tasks that are held:
    /// none where no task has a deadline, else the deadline of a task, than which no
    /// task has an earlier one.
    pub proof fn lemma_earliest_deadline(self, n: int)
        requires
            0 <= n <= self.slots.len(),
        ensures
            (self.earliest_deadline_upto(n) is None) <==> (forall|k: int|
                0 <= k < n && #[trigger] self.live(k) ==> self.slots[k]->Live_1 is None),
            self.earliest_deadline_upto(n) matches Some(t) ==> {
                &&& exists|k: int|
                    0 <= k < n && #[trigger] self.live(k) && self.slots[k]->Live_1 == Some(t)
                &&& forall|k: int|
                    0 <= k < n && #[trigger] self.live(k) ==> (self.slots[k]->Live_1 matches Some(u)
                        ==> t@ <= u@)
            },
        decreases n,
    {
        if n > 0 {
            self.lemma_earliest_deadline(n - 1);
            let before = self.earliest_deadline_upto(n - 1);
            let all = self.earliest_deadline_upto(n);
            if all is Some {
                let t = all->Some_0;
                if self.live(n - 1) && self.slots[n - 1]->Live_1 == Some(t) {
                    assert(self.live(n - 1));
                } else {
                    assert(before == Some(t));
                    let k = choose|k: int|
                        0 <= k < n - 1 && #[trigger] self.live(k) && self.slots[k]->Live_1 == Some(t);
                    assert(0 <= k < n && self.live(k) && self.slots[k]->Live_1 == Some(t));
                }
            }
        }
    }

    /// The idle wait changes ready bits only. Where no ready bit of a task was set it
    /// leaves what the slots ask for as long as it sets none; whether a task is held it
    /// never changes.
    pub proof fn lemma_requirement_idle(self, post: ExecutorModel<T>)
        requires
            post.slots == self.slots,
        ensures
            post.busy() == self.busy(),
            (post.requirement() is NoMoreTasks) == (self.requirement() is NoMoreTasks),
            (self.requirement() is NoMoreTasks) == !self.busy(),
    {
        self.lemma_requirement(self.slots.len() as int);
        post.lemma_requirement(self.slots.len() as int);
        assert forall|k: int| post.live(k) == self.live(k) by {}
        if self.busy() {
            let k = choose|k: int| #[trigger] self.live(k);
            assert(post.live(k));
        }
        if post.busy() {
            let k = choose|k: int| #[trigger] post.live(k);
            assert(self.live(k));
        }
    }

    /// Capacity: with a task in every slot there is no free slot, so a spawn fails with
    /// `SlotCapacityExceeded`; with one slot free there is one, so a spawn does not.
    pub proof fn lemma_capacity(self)
        ensures
            (forall|j: int| 0 <= j < self.slots.len() ==> #[trigger] self.live(j))
                <==> self.first_free() >= self.slots.len(),
    {
        self.lemma_first_free(0);
    }

    /// When the task in slot `i` is done at its turn, the slot is free, and the next
    /// spawn finds a free slot at `i` or before it.
    pub proof fn lemma_spawn_after_completion(self, post: ExecutorModel<T>, i: int, now: int)
        requires
            0 <= i < self.slots.len(),
            self.turn_outline(post, i, now),
            post.slots[i] is Free,
        ensures
            post.first_free() <= i,
            post.first_free() < post.slots.len(),
    {
        post.lemma_first_free(0);
        if post.first_free() > i {
            assert(post.live(i));
        }
    }

    /// A free slot is not polled at its turn and stays free, whatever its ready bit was:
    /// a stale wake signal is consumed without a poll.
    pub proof fn lemma_free_slot_turn(self, post: ExecutorModel<T>, i: int, now: int)
        requires
            !self.live(i),
            self.turn_outline(post, i, now),
        ensures
            post.polls == self.polls,
            !post.live(i),
            !post.ready.contains(i),
    {
    }

    /// A task that sleeps, with its ready bit clear, is not polled at a turn that comes
    /// before its deadline, and keeps its deadline.
    pub proof fn lemma_sleeper_turn(self, post: ExecutorModel<T>, i: int, now: int, until: Instant)
        requires
            0 <= i < self.slots.len(),
            self.live(i),
            self.slots[i]->Live_1 == Some(until),
            !self.ready.contains(i),
            now < until@,
            self.turn_outline(post, i, now),
        ensures
            post.polls == self.polls,
            post.slots[i] == self.slots[i],
    {
    }

    /// A slot that is free is never polled, over any number of passes and idle waits,
    /// whatever wake signals arrive for it, and it stays free.
    pub proof fn lemma_free_slot_never_polled(self, post: ExecutorModel<T>, k: int)
        requires
            !self.live(k),
            self.progress(post),
        ensures
            !post.live(k),
            !post.polled_since(self.polls.len() as int, k),
    {
        if post.polled_since(self.polls.len() as int, k) {
            let j = choose|j: int| self.polls.len() <= j < post.polls.len() && post.polls[j] == k;
            assert(self.live(post.polls[j]));
        }
    }

    /// In a whole pass every slot is polled at most once.
    pub proof fn lemma_pass_polls_once(self, post: ExecutorModel<T>, clock: int, a: int, b: int)
        requires
            self.pass_upto(post, self.slots.len() as int, clock),
            self.polls.len() <= a < post.polls.len(),
            self.polls.len() <= b < post.polls.len(),
            post.polls[a] == post.polls[b],
        ensures
            a == b,
    {
        if a < b {
            assert(post.polls[a] < post.polls[b]);
        }
        if b < a {
            assert(post.polls[b] < post.polls[a]);
        }
    }
}

/// The executor that `block_on` stands for: one slot, which holds `task` with the deadline
/// `sleep_until`, the ready bits `ready`, and the record of polls `polls`.
pub open spec fn solo<T>(
    task: T,
    sleep_until: Option<Instant>,
    ready: Set<int>,
    polls: Seq<int>,
) -> ExecutorModel<T> {
    ExecutorModel { slots: seq![Slot::Live(task, sleep_until)], ready, polls }
}

/// Whether `r` is what `block_on` returns after the passes `passes`, which left the
/// executor as `post`: the value that the task yielded in the poll of the last pass,
/// where that poll was done, and `None` where the task is still held.
pub open spec fn yielded<E, S, T: Task<S>>(
    passes: Seq<PassRecord<E, T, S>>,
    post: ExecutorModel<T>,
    r: Option<T::Output>,
) -> bool {
    match r {
        Some(value) => {
            &&& passes.len() > 0
            &&& !post.busy()
            &&& exists|step: PollStep<T, S, T::Output>|
                #![trigger step.outcome]
                passes.last().before.polled_by(
                    passes.last().after,
                    0,
                    passes.last().turns[0].now,
                    passes.last().shared_before,
                    passes.last().shared_after,
                    step,
                ) && step.outcome == Poll::Ready(value)
        },
        None => post.busy(),
    }
}

/// Runs the one task `task` on the platform `env` until it is done or `max_passes` passes
/// were made, and returns what it yielded; `None` when the passes ran out first. It does
/// what `LocalExecutor::run` does with an executor of one slot that holds the task,
/// runnable: a pass polls the task when it is due, and after every pass but the last the
/// platform idles with the task's deadline.
pub fn block_on<E: Environment, S, T: Task<S>>(
    env: &mut E,
    task: T,
    shared: &mut S,
    max_passes: usize,
) -> (r: Option<T::Output>)
    requires
        !old(env).executor_entered(),
    ensures
        !final(env).executor_entered(),
        old(env).clock() <= final(env).clock(),
        max_passes == 0 ==> r.is_none() && *final(env) == *old(env) && *final(shared) == *old(shared),
        exists|passes: Seq<PassRecord<E, T, S>>, post: ExecutorModel<T>|
            #![trigger yielded(passes, post, r)]
            solo(task, None, set![0int], Seq::empty()).is_run(
                post,
                *old(shared),
                *final(shared),
                passes,
                max_passes as int,
                old(env).clock(),
                final(env).clock(),
                post.requirement(),
            ) && yielded(passes, post, r),
{
    let mut running = task;
    let mut ready = ReadyMask::new();
    let waker = match WakerInfo::new(0, &mut ready) {
        Ok(w) => w,
        Err(_) => {
            proof {
                assert(false);
            }
            return None;
        },
    };
    let mut sleep_until: Option<Instant> = None;
    let mut left = max_passes;
    let ghost start = solo(task, None, set![0int], Seq::empty());
    let ghost mut polls: Seq<int> = Seq::empty();
    let ghost mut passes: Seq<PassRecord<E, T, S>> = Seq::empty();
    let ghost clock = env.clock();
    let ghost mut going: bool = left > 0;
    proof {
        assert(ready@ =~= set![0int]);
        assert(start.live(0));
    }
    while left > 0
        invariant
            !env.executor_entered(),
            clock == old(env).clock(),
            clock <= env.clock(),
            left <= max_passes,
            left == max_passes ==> *env == *old(env) && *shared == *old(shared),
            waker.index() == 0,
            passes.len() == max_passes - left,
            start == solo(task, None, set![0int], Seq::empty()),
            solo(running, sleep_until, ready@, polls) == if passes.len() == 0 {
                start
            } else {
                passes.last().next
            },
            *shared == if passes.len() == 0 {
                *old(shared)
            } else {
                passes.last().shared_after
            },
            passes.len() > 0 ==> passes.last().clock_after <= env.clock(),
            going == (left > 0),
            forall|p: int|
                0 <= p < passes.len() ==> #[trigger] start.pass_in_run(
                    *old(shared),
                    passes,
                    p,
                    clock,
                    going,
                ),
        decreases left,
    {
        proof {
            assert(going == true);
        }
        left = left - 1;
        let ghost mid = solo(running, sleep_until, ready@, polls);
        let ghost mid_shared = *shared;
        let ghost mid_clock = env.clock();
        let ghost earlier = passes;
        env.enter_executor();
        let now = env.ticks();
        let ghost held = running;
        let polled_outcome = poll_if_due(
            &mut running,
            waker,
            &mut sleep_until,
            &mut ready,
            now,
            shared,
        );
        let mut outcome = Poll::Pending;
        let ghost mut after = ExecutorModel { ready: ready@, ..mid };
        proof {
            assert(mid.live(0));
        }
        match polled_outcome {
            None => {
                proof {
                    assert(!mid.due(0, now@));
                }
            },
            Some(made) => {
                let ghost step = choose|step: PollStep<T, S, T::Output>|
                    #![trigger step.outcome]
                    {
                        &&& polled(held, waker, now, mid.ready, ready@, mid_shared, step)
                        &&& step.outcome == made
                        &&& step.task_after == running
                        &&& step.shared_after == *shared
                        &&& step.cx_after.deadline() == sleep_until
                    };
                proof {
                    polls = polls.push(0);
                    after = mid.after_poll(
                        0,
                        running,
                        step.cx_after.woken(),
                        step.cx_after.deadline(),
                        made is Ready,
                    );
                    assert(mid.due(0, now@));
                    assert(mid.polled_by(after, 0, now, mid_shared, *shared, step));
                    if made is Pending {
                        assert(after.slots =~= solo(running, sleep_until, ready@, polls).slots);
                        assert(after.ready =~= ready@);
                    }
                }
                outcome = made;
            },
        }
        env.leave_executor();
        let ghost pass_clock = env.clock();
        let ghost turns = seq![TurnRecord { now, model: after, shared: *shared }];
        proof {
            reveal(ExecutorModel::turns_upto);
            assert(mid.turn(after, 0, now, mid_shared, *shared));
            assert(mid.is_pass(after, mid_shared, *shared, turns, mid_clock, pass_clock));
            after.lemma_requirement_idle(after);
        }
        match outcome {
            Poll::Ready(value) => {
                proof {
                    let pass = PassRecord {
                        before: mid,
                        shared_before: mid_shared,
                        clock_before: mid_clock,
                        clock_after: pass_clock,
                        turns,
                        after,
                        shared_after: *shared,
                        idle: None,
                        next: after,
                    };
                    start.lemma_extend_run(*old(shared), earlier, pass, clock, false);
                    passes = earlier.push(pass);
                    assert(!after.live(0));
                    assert(!after.busy()) by {
                        if after.busy() {
                            let k = choose|k: int| #[trigger] after.live(k);
                            assert(k == 0);
                        }
                    }
                }
                assert(solo(task, None, set![0int], Seq::empty()).is_run(
                    after,
                    *old(shared),
                    *shared,
                    passes,
                    max_passes as int,
                    old(env).clock(),
                    env.clock(),
                    after.requirement(),
                ) && yielded(passes, after, Some(value)));
                return Some(value);
            },
            Poll::Pending => {},
        }
        let ghost mut idle: Option<IdleRecord<E>> = None;
        proof {
            assert(after == solo(running, sleep_until, ready@, polls)) by {
                assert(after.slots =~= solo(running, sleep_until, ready@, polls).slots);
                assert(after.ready =~= ready@);
            }
        }
        if left > 0 {
            let ghost env_before = *env;
            let ghost ready_before = ready;
            proof {
                reveal_with_fuel(ExecutorModel::earliest_deadline_upto, 2);
                assert(after.live(0));
                assert(after.earliest_deadline() == sleep_until);
            }
            env.wait_for_event_with_deadline(&mut ready, sleep_until);
            proof {
                idle = Some(
                    IdleRecord {
                        env_before,
                        env_after: *env,
                        ready_before,
                        ready_after: ready,
                        tick: sleep_until,
                    },
                );
            }
        }
        proof {
            let next = solo(running, sleep_until, ready@, polls);
            assert(next == (ExecutorModel { ready: ready@, ..after }));
            let pass = PassRecord {
                before: mid,
                shared_before: mid_shared,
                clock_before: mid_clock,
                clock_after: pass_clock,
                turns,
                after,
                shared_after: *shared,
                idle,
                next,
            };
            going = left > 0;
            start.lemma_extend_run(*old(shared), earlier, pass, clock, going);
            passes = earlier.push(pass);
        }
    }
    let ghost post = solo(running, sleep_until, ready@, polls);
    proof {
        assert(going == false);
        assert(post.live(0));
        assert(post.busy());
        if passes.len() > 0 {
            start.lemma_last_pass(*old(shared), passes, clock);
        }
    }
    assert(solo(task, None, set![0int], Seq::empty()).is_run(
        post,
        *old(shared),
        *shared,
        passes,
        max_passes as int,
        old(env).clock(),
        env.clock(),
        post.requirement(),
    ) && yielded(passes, post, None::<T::Output>));
    None
}

} // verus!
