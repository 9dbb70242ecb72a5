use coop_executor::executor::block_on;
use coop_executor::executor::poll_if_due;
use coop_executor::executor::Environment;
use coop_executor::executor::LocalExecutor;
use coop_executor::executor::RunResult;
use coop_executor::executor::TaskState;
use coop_executor::sleep::Sleep;
use coop_executor::task::lower_deadline;
use coop_executor::task::Context;
use coop_executor::task::Poll;
use coop_executor::task::Task;
use coop_executor::test_environment::TestEnvironment;
use coop_executor::time::Duration;
use coop_executor::time::Instant;
use coop_executor::waker::ExecutorError;
use coop_executor::waker::ReadyMask;
use coop_executor::waker::WakerInfo;
use coop_executor::yield_now::Yield;

/// A task made of a closure that is called at every poll.
struct FnTask<'a, S, O>(Box<dyn FnMut(&mut Context, &mut S) -> Poll<O> + 'a>);

impl<'a, S, O> FnTask<'a, S, O> {
    fn new(f: impl FnMut(&mut Context, &mut S) -> Poll<O> + 'a) -> Self {
        FnTask(Box::new(f))
    }
}

impl<'a, S, O> Task<S> for FnTask<'a, S, O> {
    type Output = O;

    fn poll(&mut self, cx: &mut Context, shared: &mut S) -> Poll<O> {
        (self.0)(cx, shared)
    }
}

/// A platform whose idle wait raises the ready bits it was told to raise.
struct StaleWakes {
    inner: TestEnvironment,
    bits: u32,
    waits: usize,
}

impl Environment for StaleWakes {
    fn ticks(&mut self) -> Instant {
        self.inner.ticks()
    }

    fn wait_for_event_with_deadline(&mut self, event: &mut ReadyMask, _tick: Option<Instant>) {
        self.waits += 1;
        event.merge(ReadyMask::from_bits(self.bits));
    }

    fn enter_executor(&mut self) {
        self.inner.enter_executor()
    }

    fn leave_executor(&mut self) {
        self.inner.leave_executor()
    }

    fn current_executor(&self) -> bool {
        self.inner.current_executor()
    }
}

/// The clock's tick after the run, read without advancing it.
fn tick_of(executor: &LocalExecutor<TestEnvironment, FnTask<'_, Counters, ()>, 2>) -> i64 {
    executor.env().current_tick().ticks()
}

#[derive(Default)]
struct Counters {
    polls: [usize; 3],
    done: [bool; 3],
}

/// A task that counts its polls in slot `slot` of the counters, sleeps until `deadline`
/// where one is given, and is done at its `polls_needed`-th poll.
fn counting<'a>(slot: usize, polls_needed: usize, deadline: Option<i64>) -> FnTask<'a, Counters, ()> {
    FnTask::new(move |cx: &mut Context, counters: &mut Counters| {
        counters.polls[slot] += 1;
        if counters.polls[slot] >= polls_needed {
            counters.done[slot] = true;
            return Poll::Ready(());
        }
        match deadline {
            Some(t) => {
                let _ = cx.wakeup_task_at(Instant::new(t));
            }
            None => cx.set_task_runnable(),
        }
        Poll::Pending
    })
}

#[test]
fn test_spawn() {
    let mut v = 0;
    {
        let env = TestEnvironment::new();
        let mut executor: LocalExecutor<TestEnvironment, FnTask<i32, ()>, 1> =
            LocalExecutor::new(env);
        let task = FnTask::new(|_cx: &mut Context, ret: &mut i32| {
            *ret = 1 + 2;
            Poll::Ready(())
        });
        assert_eq!(executor.spawn(task), Ok(()));
        assert_eq!(executor.run(&mut v, 100), RunResult::NoMoreTasks);
    }
    // Check that task was actually run
    assert_eq!(v, 3);
}

#[test]
fn sleep_and_wake() {
    let env = TestEnvironment::new();
    let mut executor: LocalExecutor<TestEnvironment, FnTask<(), ()>, 1> = LocalExecutor::new(env);
    let mut start_tick = Instant::new(0);
    let mut rounds = 0;
    let mut current: Option<Sleep> = None;
    let task = FnTask::new(move |cx: &mut Context, unit: &mut ()| {
        loop {
            if current.is_none() {
                if rounds == 10 {
                    return Poll::Ready(());
                }
                current = Some(coop_executor::sleep(cx, Duration::new(10)));
            }
            let mut sleep = current.take().unwrap();
            match sleep.poll(cx, unit) {
                Poll::Pending => {
                    current = Some(sleep);
                    return Poll::Pending;
                }
                Poll::Ready(()) => {
                    let now = coop_executor::now(cx);
                    println!("sleep enter {}, exit {}", start_tick.to_text(), now.to_text());
                    assert!(now - start_tick >= Duration::new(10));
                    start_tick = now;
                    rounds += 1;
                }
            }
        }
    });
    assert_eq!(executor.spawn(task), Ok(()));
    assert_eq!(executor.run(&mut (), 10_000), RunResult::NoMoreTasks);
    assert!(executor.env().current_tick() - Instant::new(0) >= Duration::new(100));
}

#[test]
fn sleeping_ten_times_ten_ticks_yields_42_after_100_ticks() {
    let mut env = TestEnvironment::new();
    let mut rounds = 0;
    let mut current: Option<Sleep> = None;
    let task = FnTask::new(move |cx: &mut Context, unit: &mut ()| {
        loop {
            if current.is_none() {
                if rounds == 10 {
                    return Poll::Ready(42);
                }
                current = Some(coop_executor::sleep(cx, Duration::new(10)));
            }
            let mut sleep = current.take().unwrap();
            match sleep.poll(cx, unit) {
                Poll::Pending => {
                    current = Some(sleep);
                    return Poll::Pending;
                }
                Poll::Ready(()) => rounds += 1,
            }
        }
    });
    assert_eq!(block_on(&mut env, task, &mut (), 10_000), Some(42));
    assert!(env.current_tick().ticks() >= 100);
}

#[test]
fn yield_and_wake() {
    let mut env = TestEnvironment::new();
    let mut rounds = 0;
    let mut current: Option<Yield> = None;
    let task = FnTask::new(move |cx: &mut Context, unit: &mut ()| {
        loop {
            if current.is_none() {
                if rounds == 10 {
                    return Poll::Ready(42);
                }
                println!("iter enter");
                current = Some(coop_executor::yield_executor());
            }
            let mut yielding = current.take().unwrap();
            match yielding.poll(cx, unit) {
                Poll::Pending => {
                    current = Some(yielding);
                    return Poll::Pending;
                }
                Poll::Ready(()) => {
                    println!("iter exit");
                    rounds += 1;
                }
            }
        }
    });
    let v = block_on(&mut env, task, &mut (), 1000);

    assert_eq!(v, Some(42));
}

#[test]
fn yield_is_pending_once_and_marks_its_own_slot() {
    let mut mask = ReadyMask::new();
    let waker = WakerInfo::new(3, &mut mask).unwrap();
    let mut cx = Context::new(waker, Instant::new(0));
    let mut y = Yield::new();
    assert_eq!(y.poll(&mut cx, &mut ()), Poll::Pending);
    assert_eq!(cx.wake_requests().to_bits(), 1 << 3);
    assert_eq!(cx.sleep_request(), None);
    assert_eq!(y.poll(&mut cx, &mut ()), Poll::Ready(()));
    assert_eq!(y.poll(&mut cx, &mut ()), Poll::Ready(()));
}

#[test]
fn block_on_without_passes_polls_nothing() {
    let mut env = TestEnvironment::new();
    let mut polls = 0;
    let task = FnTask::new(|_cx: &mut Context, polls: &mut i32| {
        *polls += 1;
        Poll::Ready(7)
    });
    assert_eq!(block_on(&mut env, task, &mut polls, 0), None);
    assert_eq!(polls, 0);
    assert_eq!(env.current_tick(), Instant::new(0));
}

#[test]
fn block_on_gives_up_when_the_passes_run_out() {
    let mut env = TestEnvironment::new();
    let mut polls = 0;
    let task = FnTask::new(|cx: &mut Context, polls: &mut i32| {
        *polls += 1;
        cx.set_task_runnable();
        Poll::<i32>::Pending
    });
    assert_eq!(block_on(&mut env, task, &mut polls, 5), None);
    assert_eq!(polls, 5);
    assert!(!env.current_executor());
}

#[test]
fn sleep_is_ready_exactly_from_its_deadline_on() {
    let mut mask = ReadyMask::new();
    let waker = WakerInfo::new(0, &mut mask).unwrap();
    let mut sleep = Sleep::new(Instant::new(20));

    let mut before = Context::new(waker, Instant::new(19));
    assert_eq!(sleep.poll(&mut before, &mut ()), Poll::Pending);
    assert_eq!(before.sleep_request(), Some(Instant::new(20)));
    assert!(before.wake_requests().is_empty());

    let mut at = Context::new(waker, Instant::new(20));
    assert_eq!(sleep.poll(&mut at, &mut ()), Poll::Ready(()));
    assert_eq!(at.sleep_request(), None);

    let mut after = Context::new(waker, Instant::new(21));
    assert_eq!(sleep.poll(&mut after, &mut ()), Poll::Ready(()));
}

#[test]
fn sleep_counts_from_the_time_of_the_poll() {
    let mut mask = ReadyMask::new();
    let waker = WakerInfo::new(0, &mut mask).unwrap();
    let cx = Context::new(waker, Instant::new(7));
    assert_eq!(coop_executor::sleep(&cx, Duration::new(10)), Sleep::new(Instant::new(17)));
    assert_eq!(coop_executor::now(&cx), Instant::new(7));
    assert_eq!(cx.task_index(), 0);
    assert_eq!(cx.waker(), waker);
}

#[test]
fn a_deadline_is_lowered_and_never_raised() {
    let mut mask = ReadyMask::new();
    let waker = WakerInfo::new(0, &mut mask).unwrap();
    let mut cx = Context::new(waker, Instant::new(0));
    assert_eq!(cx.wakeup_task_at(Instant::new(50)), Poll::Pending);
    assert_eq!(cx.sleep_request(), Some(Instant::new(50)));
    assert_eq!(cx.wakeup_task_at(Instant::new(30)), Poll::Pending);
    assert_eq!(cx.sleep_request(), Some(Instant::new(30)));
    assert_eq!(cx.wakeup_task_at(Instant::new(40)), Poll::Pending);
    assert_eq!(cx.sleep_request(), Some(Instant::new(30)));
    assert_eq!(cx.wakeup_task_at(Instant::new(0)), Poll::Ready(()));
    assert_eq!(cx.sleep_request(), Some(Instant::new(30)));
}

#[test]
fn context_wakes_other_tasks() {
    let mut mask = ReadyMask::new();
    let me = WakerInfo::new(1, &mut mask).unwrap();
    let other = WakerInfo::new(4, &mut mask).unwrap();
    let mut cx = Context::new(me, Instant::new(0));
    assert!(cx.wake_requests().is_empty());
    cx.wake(&other);
    assert_eq!(cx.wake_requests().to_bits(), 1 << 4);
    cx.set_task_runnable();
    assert_eq!(cx.wake_requests().to_bits(), (1 << 4) | (1 << 1));
}

#[test]
fn task_state_is_due_when_runnable_or_past_its_deadline() {
    assert!(TaskState::Runnable.is_runnable(Instant::new(0)));
    assert!(TaskState::Waiting(Some(Instant::new(5))).is_runnable(Instant::new(5)));
    assert!(TaskState::Waiting(Some(Instant::new(5))).is_runnable(Instant::new(6)));
    assert!(!TaskState::Waiting(Some(Instant::new(5))).is_runnable(Instant::new(4)));
    assert!(!TaskState::Waiting(None).is_runnable(Instant::max_value()));
}

#[test]
fn run_result_of_each_task_state() {
    assert_eq!(RunResult::from_task_state(Some(TaskState::Runnable)), RunResult::RunAgain);
    assert_eq!(
        RunResult::from_task_state(Some(TaskState::Waiting(Some(Instant::new(9))))),
        RunResult::WaitForTick(Instant::new(9))
    );
    assert_eq!(
        RunResult::from_task_state(Some(TaskState::Waiting(None))),
        RunResult::WaitForEvent
    );
    assert_eq!(RunResult::from_task_state(None), RunResult::NoMoreTasks);
}

#[test]
fn the_sooner_run_result_wins() {
    let all = [
        RunResult::RunAgain,
        RunResult::WaitForTick(Instant::new(-3)),
        RunResult::WaitForTick(Instant::new(8)),
        RunResult::WaitForEvent,
        RunResult::NoMoreTasks,
    ];
    for (i, a) in all.iter().enumerate() {
        for (j, b) in all.iter().enumerate() {
            let expected = if i <= j { *a } else { *b };
            assert_eq!(a.min_of(*b), expected);
            assert_eq!(a.min_of(*b), std::cmp::min(*a, *b));
        }
    }
    assert!(RunResult::NoMoreTasks.is_done());
    assert!(!RunResult::WaitForEvent.is_done());
}

#[test]
fn a_new_executor_has_nothing_to_do() {
    let mut executor: LocalExecutor<TestEnvironment, FnTask<Counters, ()>, 2> =
        LocalExecutor::new(TestEnvironment::new());
    let mut counters = Counters::default();
    assert_eq!(executor.next_requirement(), RunResult::NoMoreTasks);
    assert!(executor.ready_mask().is_empty());
    assert!(!executor.is_live(0));
    assert!(!executor.is_live(1));
    assert!(!executor.is_live(2));
    assert_eq!(executor.task_state(0), None);
    assert_eq!(executor.run(&mut counters, 10), RunResult::NoMoreTasks);
    assert_eq!(tick_of(&executor), 0);
}

#[test]
fn a_spawned_task_is_runnable_in_the_lowest_free_slot() {
    let mut executor: LocalExecutor<TestEnvironment, FnTask<Counters, ()>, 2> =
        LocalExecutor::new(TestEnvironment::new());
    assert_eq!(executor.spawn(counting(0, 1, None)), Ok(()));
    assert!(executor.is_live(0));
    assert!(!executor.is_live(1));
    assert_eq!(executor.ready_mask().to_bits(), 0b01);
    assert_eq!(executor.task_state(0), Some(TaskState::Runnable));
    assert_eq!(executor.next_requirement(), RunResult::RunAgain);
    assert_eq!(executor.spawn(counting(1, 1, None)), Ok(()));
    assert!(executor.is_live(1));
    assert_eq!(executor.ready_mask().to_bits(), 0b11);
}

#[test]
fn spawning_beyond_the_capacity_fails_and_a_freed_slot_is_taken_again() {
    let mut executor: LocalExecutor<TestEnvironment, FnTask<Counters, ()>, 2> =
        LocalExecutor::new(TestEnvironment::new());
    let mut counters = Counters::default();
    assert_eq!(executor.spawn(counting(0, 1, None)), Ok(()));
    assert_eq!(executor.spawn(counting(1, 3, None)), Ok(()));
    assert_eq!(
        executor.spawn(counting(2, 1, None)),
        Err(ExecutorError::SlotCapacityExceeded)
    );
    // The tasks that are there are as they were.
    assert!(executor.is_live(0));
    assert!(executor.is_live(1));
    assert_eq!(executor.ready_mask().to_bits(), 0b11);
    assert_eq!(executor.task_state(0), Some(TaskState::Runnable));
    assert_eq!(executor.task_state(1), Some(TaskState::Runnable));

    // One pass: the first task is done, the second is not.
    assert_eq!(executor.run_once(&mut counters), RunResult::RunAgain);
    assert_eq!(counters.polls, [1, 1, 0]);
    assert!(!executor.is_live(0));
    assert!(executor.is_live(1));

    // The freed slot takes the next task.
    assert_eq!(executor.spawn(counting(2, 1, None)), Ok(()));
    assert!(executor.is_live(0));
    assert_eq!(executor.run(&mut counters, 100), RunResult::NoMoreTasks);
    assert_eq!(counters.polls, [1, 3, 1]);
    assert_eq!(counters.done, [true, true, true]);
}

#[test]
fn a_slot_beyond_the_mask_is_out_of_range() {
    let mut executor: LocalExecutor<TestEnvironment, FnTask<(), ()>, 33> =
        LocalExecutor::new(TestEnvironment::new());
    for _ in 0..32 {
        let task = FnTask::new(|_cx: &mut Context, _unit: &mut ()| Poll::Pending);
        assert_eq!(executor.spawn(task), Ok(()));
    }
    let task = FnTask::new(|_cx: &mut Context, _unit: &mut ()| Poll::Pending);
    assert_eq!(executor.spawn(task), Err(ExecutorError::TaskIndexOutOfRange));
    assert!(!executor.is_live(32));
    assert_eq!(executor.ready_mask().to_bits(), u32::MAX);
}

#[test]
fn a_pass_polls_each_due_task_once_in_slot_order() {
    let mut order: Vec<usize> = Vec::new();
    {
        let mut executor: LocalExecutor<TestEnvironment, FnTask<Vec<usize>, ()>, 3> =
            LocalExecutor::new(TestEnvironment::new());
        for slot in 0..3 {
            let task = FnTask::new(move |cx: &mut Context, order: &mut Vec<usize>| {
                assert_eq!(cx.task_index(), slot);
                order.push(slot);
                cx.set_task_runnable();
                Poll::Pending
            });
            assert_eq!(executor.spawn(task), Ok(()));
        }
        assert_eq!(executor.run_once(&mut order), RunResult::RunAgain);
        assert_eq!(executor.run_once(&mut order), RunResult::RunAgain);
    }
    assert_eq!(order, vec![0, 1, 2, 0, 1, 2]);
}

#[test]
fn a_task_woken_by_an_earlier_task_is_polled_in_the_same_pass_and_not_twice() {
    let mut order: Vec<usize> = Vec::new();
    let mut executor: LocalExecutor<TestEnvironment, FnTask<Vec<usize>, ()>, 2> =
        LocalExecutor::new(TestEnvironment::new());
    // Slot 0 wakes slot 1 at every poll; slot 1 wakes slot 0 at every poll.
    for slot in 0..2usize {
        let task = FnTask::new(move |cx: &mut Context, order: &mut Vec<usize>| {
            order.push(slot);
            let mut scratch = ReadyMask::new();
            let other = WakerInfo::new(1 - slot, &mut scratch).unwrap();
            cx.wake(&other);
            Poll::Pending
        });
        assert_eq!(executor.spawn(task), Ok(()));
    }
    assert_eq!(executor.run_once(&mut order), RunResult::RunAgain);
    assert_eq!(order, vec![0, 1]);
    // Slot 0 was woken by slot 1 after its turn: it is polled in the next pass.
    assert_eq!(executor.task_state(0), Some(TaskState::Runnable));
    assert_eq!(executor.task_state(1), Some(TaskState::Waiting(None)));
    assert_eq!(executor.run_once(&mut order), RunResult::RunAgain);
    assert_eq!(order, vec![0, 1, 0, 1]);
}

#[test]
fn the_requirement_is_the_earliest_deadline() {
    let mut executor: LocalExecutor<TestEnvironment, FnTask<Counters, ()>, 2> =
        LocalExecutor::new(TestEnvironment::new());
    let mut counters = Counters::default();
    assert_eq!(executor.spawn(counting(0, 2, Some(500))), Ok(()));
    assert_eq!(executor.spawn(counting(1, 2, Some(300))), Ok(()));
    assert_eq!(executor.run_once(&mut counters), RunResult::WaitForTick(Instant::new(300)));
    assert_eq!(executor.task_state(0), Some(TaskState::Waiting(Some(Instant::new(500)))));
    assert_eq!(executor.task_state(1), Some(TaskState::Waiting(Some(Instant::new(300)))));
    assert_eq!(counters.polls, [1, 1, 0]);
    // Neither deadline has come: the next pass polls nothing.
    assert_eq!(executor.run_once(&mut counters), RunResult::WaitForTick(Instant::new(300)));
    assert_eq!(counters.polls, [1, 1, 0]);
}

#[test]
fn a_task_without_deadline_or_wake_waits_for_an_event() {
    let mut executor: LocalExecutor<TestEnvironment, FnTask<(), ()>, 1> =
        LocalExecutor::new(TestEnvironment::new());
    let task = FnTask::new(|_cx: &mut Context, _unit: &mut ()| Poll::Pending);
    assert_eq!(executor.spawn(task), Ok(()));
    assert_eq!(executor.run_once(&mut ()), RunResult::WaitForEvent);
    assert_eq!(executor.task_state(0), Some(TaskState::Waiting(None)));
    assert_eq!(executor.run(&mut (), 3), RunResult::WaitForEvent);
    assert!(executor.is_live(0));
}

#[test]
fn run_without_passes_changes_nothing() {
    let mut executor: LocalExecutor<TestEnvironment, FnTask<Counters, ()>, 2> =
        LocalExecutor::new(TestEnvironment::new());
    let mut counters = Counters::default();
    assert_eq!(executor.spawn(counting(0, 1, None)), Ok(()));
    assert_eq!(executor.run(&mut counters, 0), RunResult::RunAgain);
    assert_eq!(counters.polls, [0, 0, 0]);
    assert!(executor.is_live(0));
    assert_eq!(tick_of(&executor), 0);
}

#[test]
fn the_executor_lowers_a_deadline_and_never_raises_it() {
    let mut executor: LocalExecutor<TestEnvironment, FnTask<(), ()>, 1> =
        LocalExecutor::new(TestEnvironment::new());
    let task = FnTask::new(|_cx: &mut Context, _unit: &mut ()| Poll::Pending);
    assert_eq!(executor.spawn(task), Ok(()));
    assert_eq!(executor.run_once(&mut ()), RunResult::WaitForEvent);
    assert_eq!(executor.wakeup_task_at(0, Instant::new(90)), Poll::Pending);
    assert_eq!(executor.task_state(0), Some(TaskState::Waiting(Some(Instant::new(90)))));
    assert_eq!(executor.wakeup_task_at(0, Instant::new(60)), Poll::Pending);
    assert_eq!(executor.task_state(0), Some(TaskState::Waiting(Some(Instant::new(60)))));
    assert_eq!(executor.wakeup_task_at(0, Instant::new(70)), Poll::Pending);
    assert_eq!(executor.task_state(0), Some(TaskState::Waiting(Some(Instant::new(60)))));
    // The clock was read four times by now: tick 0 is in the past.
    assert_eq!(executor.wakeup_task_at(0, Instant::new(0)), Poll::Ready(()));
    assert_eq!(executor.task_state(0), Some(TaskState::Waiting(Some(Instant::new(60)))));
    assert_eq!(executor.next_requirement(), RunResult::WaitForTick(Instant::new(60)));
    executor.set_task_runnable(0);
    assert_eq!(executor.task_state(0), Some(TaskState::Runnable));
    assert_eq!(executor.next_requirement(), RunResult::RunAgain);
    assert_eq!(executor.current_time(), Instant::new(5));
}

#[test]
fn a_finished_task_is_not_polled_again_by_stale_wakes() {
    let env = StaleWakes { inner: TestEnvironment::new(), bits: 0b01, waits: 0 };
    let mut executor: LocalExecutor<StaleWakes, FnTask<Counters, ()>, 2> = LocalExecutor::new(env);
    let mut counters = Counters::default();
    // Slot 0 is done at its first poll; slot 1 goes on for a while.
    assert_eq!(executor.spawn(counting(0, 1, None)), Ok(()));
    assert_eq!(executor.spawn(counting(1, 6, None)), Ok(()));
    assert_eq!(executor.run(&mut counters, 100), RunResult::NoMoreTasks);
    // Every idle wait raised the bit of slot 0 again.
    assert!(executor.env().waits >= 5);
    assert_eq!(counters.polls, [1, 6, 0]);
    assert!(!executor.is_live(0));
    assert_eq!(executor.task_state(0), None);

    // With nothing left, a stale bit neither polls nor keeps the executor busy.
    assert_eq!(executor.run_once(&mut counters), RunResult::NoMoreTasks);
    assert_eq!(counters.polls, [1, 6, 0]);
    assert!(executor.ready_mask().is_empty());
    assert!(!executor.into_env().current_executor());
}

#[test]
fn the_test_environment_counts_its_readings() {
    let mut env = TestEnvironment::new();
    assert_eq!(env.current_tick(), Instant::new(0));
    assert_eq!(env.ticks(), Instant::new(0));
    assert_eq!(env.ticks(), Instant::new(1));
    assert_eq!(env.current_tick(), Instant::new(2));
    let mut mask = ReadyMask::new();
    env.wait_for_event_with_deadline(&mut mask, Some(Instant::new(100)));
    assert!(mask.is_empty());
    assert_eq!(env.current_tick(), Instant::new(2));
    assert!(!env.current_executor());
    env.enter_executor();
    assert!(env.current_executor());
    env.leave_executor();
    assert!(!env.current_executor());
    assert_eq!(TestEnvironment::default().current_tick(), Instant::new(0));
}

/// A platform that keeps what is handed to its idle wait.
struct Recorder {
    inner: TestEnvironment,
    handed: Vec<Option<Instant>>,
}

impl Environment for Recorder {
    fn ticks(&mut self) -> Instant {
        self.inner.ticks()
    }

    fn wait_for_event_with_deadline(&mut self, _event: &mut ReadyMask, tick: Option<Instant>) {
        self.handed.push(tick);
    }

    fn enter_executor(&mut self) {
        self.inner.enter_executor()
    }

    fn leave_executor(&mut self) {
        self.inner.leave_executor()
    }

    fn current_executor(&self) -> bool {
        self.inner.current_executor()
    }
}

#[test]
fn a_stale_wake_for_a_free_slot_changes_nothing() {
    let mut executor: LocalExecutor<TestEnvironment, FnTask<Counters, ()>, 2> =
        LocalExecutor::new(TestEnvironment::new());
    let mut counters = Counters::default();
    assert_eq!(executor.spawn(counting(0, 1, None)), Ok(()));
    assert_eq!(executor.run(&mut counters, 10), RunResult::NoMoreTasks);
    assert_eq!(counters.polls, [1, 0, 0]);
    // Slot 0 is free now, slot 1 never held a task, and there is no slot 2.
    executor.set_task_runnable(0);
    executor.set_task_runnable(1);
    executor.set_task_runnable(2);
    executor.set_task_runnable(usize::MAX);
    assert!(executor.ready_mask().is_empty());
    assert!(!executor.is_live(0));
    assert_eq!(executor.next_requirement(), RunResult::NoMoreTasks);
    assert_eq!(executor.run(&mut counters, 10), RunResult::NoMoreTasks);
    assert_eq!(counters.polls, [1, 0, 0]);
}

#[test]
fn a_turn_is_made_at_the_reading_that_it_is_given() {
    let mut executor: LocalExecutor<TestEnvironment, FnTask<Counters, ()>, 2> =
        LocalExecutor::new(TestEnvironment::new());
    let mut counters = Counters::default();
    assert_eq!(executor.spawn(counting(0, 3, Some(50))), Ok(()));
    // Runnable from the start: polled, and then asleep until tick 50.
    assert_eq!(
        executor.run_task_at(0, Instant::new(7), &mut counters),
        RunResult::WaitForTick(Instant::new(50))
    );
    assert_eq!(counters.polls, [1, 0, 0]);
    // One tick before the deadline: not polled.
    assert_eq!(
        executor.run_task_at(0, Instant::new(49), &mut counters),
        RunResult::WaitForTick(Instant::new(50))
    );
    assert_eq!(counters.polls, [1, 0, 0]);
    // At the deadline: polled. The deadline was cleared before the poll, and a wake at
    // tick 50 that is asked for at tick 50 is not recorded.
    assert_eq!(executor.run_task_at(0, Instant::new(50), &mut counters), RunResult::WaitForEvent);
    assert_eq!(counters.polls, [2, 0, 0]);
    assert_eq!(executor.run_task_at(0, Instant::new(60), &mut counters), RunResult::WaitForEvent);
    assert_eq!(counters.polls, [2, 0, 0]);
    // A wake makes it due; the third poll is the last one.
    executor.set_task_runnable(0);
    assert_eq!(executor.run_task_at(0, Instant::new(60), &mut counters), RunResult::NoMoreTasks);
    assert_eq!(counters.polls, [3, 0, 0]);
    assert!(!executor.is_live(0));
    // A free slot has nothing to do at its turn.
    assert_eq!(executor.run_task_at(1, Instant::new(60), &mut counters), RunResult::NoMoreTasks);
    // The platform was not read.
    assert_eq!(tick_of(&executor), 0);
}

#[test]
fn the_idle_wait_is_handed_the_earliest_deadline() {
    let env = Recorder { inner: TestEnvironment::new(), handed: Vec::new() };
    let mut executor: LocalExecutor<Recorder, FnTask<Counters, ()>, 3> = LocalExecutor::new(env);
    let mut counters = Counters::default();
    assert_eq!(executor.next_deadline(), None);
    // Slot 0 sleeps until 500, slot 1 until 300, slot 2 yields at every poll.
    assert_eq!(executor.spawn(counting(0, 9, Some(500))), Ok(()));
    assert_eq!(executor.spawn(counting(1, 9, Some(300))), Ok(()));
    assert_eq!(executor.spawn(counting(2, 3, None)), Ok(()));
    assert_eq!(executor.run(&mut counters, 4), RunResult::WaitForTick(Instant::new(300)));
    assert_eq!(executor.next_deadline(), Some(Instant::new(300)));
    // Three waits between four passes, each with the earliest deadline, also while
    // slot 2 was runnable.
    assert_eq!(
        executor.env().handed,
        vec![Some(Instant::new(300)), Some(Instant::new(300)), Some(Instant::new(300))]
    );
    assert_eq!(counters.polls, [1, 1, 3]);
}

#[test]
fn no_idle_wait_follows_the_last_pass() {
    let env = Recorder { inner: TestEnvironment::new(), handed: Vec::new() };
    let mut executor: LocalExecutor<Recorder, FnTask<Counters, ()>, 1> = LocalExecutor::new(env);
    let mut counters = Counters::default();
    assert_eq!(executor.spawn(counting(0, 3, None)), Ok(()));
    assert_eq!(executor.run(&mut counters, 100), RunResult::NoMoreTasks);
    assert_eq!(counters.polls, [3, 0, 0]);
    assert_eq!(executor.env().handed, vec![None, None]);
    // With no task held the platform is not touched.
    let ticks_before = executor.env().inner.current_tick();
    assert_eq!(executor.run(&mut counters, 100), RunResult::NoMoreTasks);
    assert_eq!(executor.env().inner.current_tick(), ticks_before);
    assert_eq!(executor.env().handed.len(), 2);
}

#[test]
fn block_on_idles_with_the_deadline_of_its_task() {
    let mut env = Recorder { inner: TestEnvironment::new(), handed: Vec::new() };
    let mut polls = 0;
    let task = FnTask::new(|cx: &mut Context, polls: &mut i32| {
        *polls += 1;
        if *polls == 3 {
            return Poll::Ready(*polls);
        }
        cx.set_task_runnable();
        let _ = cx.wakeup_task_at(Instant::new(40));
        Poll::Pending
    });
    assert_eq!(block_on(&mut env, task, &mut polls, 10), Some(3));
    assert_eq!(env.handed, vec![Some(Instant::new(40)), Some(Instant::new(40))]);
}

#[test]
fn a_task_that_yields_ten_times_is_done_at_its_eleventh_poll() {
    let mut env = TestEnvironment::new();
    let mut polls = 0;
    let task = FnTask::new(|cx: &mut Context, polls: &mut i32| {
        *polls += 1;
        if *polls <= 10 {
            cx.set_task_runnable();
            Poll::Pending
        } else {
            Poll::Ready(42)
        }
    });
    assert_eq!(block_on(&mut env, task, &mut polls, 11), Some(42));
    assert_eq!(polls, 11);
}

#[test]
fn the_earlier_deadline_is_kept() {
    assert_eq!(lower_deadline(None, Instant::new(5)), Some(Instant::new(5)));
    assert_eq!(lower_deadline(Some(Instant::new(3)), Instant::new(5)), Some(Instant::new(3)));
    assert_eq!(lower_deadline(Some(Instant::new(9)), Instant::new(5)), Some(Instant::new(5)));
    assert_eq!(lower_deadline(Some(Instant::new(5)), Instant::new(5)), Some(Instant::new(5)));
}

#[test]
fn a_task_is_polled_when_its_bit_is_set_or_its_deadline_has_come() {
    let mut ready = ReadyMask::new();
    let waker = WakerInfo::new(2, &mut ready).unwrap();
    let other = WakerInfo::new(5, &mut ReadyMask::new()).unwrap();
    let mut polls = 0;
    let mut task = FnTask::new(move |cx: &mut Context, polls: &mut i32| {
        *polls += 1;
        cx.wake(&other);
        let _ = cx.wakeup_task_at(Instant::new(30));
        if *polls == 3 {
            Poll::Ready(*polls)
        } else {
            Poll::Pending
        }
    });
    let mut sleep_until = None;

    // The bit is set: polled, the bit is consumed, the wake and the deadline are kept.
    let first = poll_if_due(&mut task, waker, &mut sleep_until, &mut ready, Instant::new(0), &mut polls);
    assert_eq!(first, Some(Poll::Pending));
    assert_eq!(ready.to_bits(), 1 << 5);
    assert_eq!(sleep_until, Some(Instant::new(30)));
    assert_eq!(polls, 1);

    // Neither the bit nor the deadline: left alone.
    let second = poll_if_due(&mut task, waker, &mut sleep_until, &mut ready, Instant::new(29), &mut polls);
    assert_eq!(second, None);
    assert_eq!(ready.to_bits(), 1 << 5);
    assert_eq!(sleep_until, Some(Instant::new(30)));
    assert_eq!(polls, 1);

    // The deadline has come: polled, and the deadline is consumed.
    let third = poll_if_due(&mut task, waker, &mut sleep_until, &mut ready, Instant::new(30), &mut polls);
    assert_eq!(third, Some(Poll::Pending));
    assert_eq!(sleep_until, None);
    assert_eq!(polls, 2);

    waker.mark_runnable(&mut ready);
    let last = poll_if_due(&mut task, waker, &mut sleep_until, &mut ready, Instant::new(31), &mut polls);
    assert_eq!(last, Some(Poll::Ready(3)));
    assert_eq!(ready.to_bits(), 1 << 5);
}
