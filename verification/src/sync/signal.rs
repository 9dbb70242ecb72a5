//! Wake flags that any context can raise, and the platform wrapper that hands them to
//! the executor.

use crate::executor::Environment;
use crate::time::Instant;
use crate::waker::ReadyMask;
use crate::waker::WakerInfo;
use core::sync::atomic::Ordering;
use portable_atomic::AtomicU32;
use vstd::prelude::*;

verus! {

/// `AtomicU32` of portable_atomic, as a type whose inside is not looked into.
#[verifier::external_type_specification]
#[verifier::external_body]
pub struct ExAtomicU32(AtomicU32);

/// `AtomicU32::new` of portable_atomic: a new atomic word that holds `bits`. The word is
/// opaque here, so nothing is claimed of it.
#[verifier::external_body]
fn atomic_new(bits: u32) -> AtomicU32 {
    AtomicU32::new(bits)
}

/// `AtomicU32::fetch_or` of portable_atomic, with acquire-release ordering: sets the
/// bits of `bits` in the word in one step and returns what the word held before. What it
/// held depends on the other contexts, so nothing is claimed of the result.
#[verifier::external_body]
fn atomic_fetch_or(word: &AtomicU32, bits: u32) -> u32 {
    word.fetch_or(bits, Ordering::AcqRel)
}

/// `AtomicU32::swap` of portable_atomic, with acquire-release ordering: stores `bits` in
/// the word in one step and returns what the word held before. What it held depends on
/// the other contexts, so nothing is claimed of the result.
#[verifier::external_body]
fn atomic_swap(word: &AtomicU32, bits: u32) -> u32 {
    word.swap(bits, Ordering::AcqRel)
}

/// `AtomicU32::load` of portable_atomic, with acquire ordering: what the word holds at
/// the time of the call. That depends on the other contexts, so nothing is claimed of
/// the result.
#[verifier::external_body]
fn atomic_load(word: &AtomicU32) -> u32 {
    word.load(Ordering::Acquire)
}

/// Wake flags, one per task slot, that can be raised from any context: an interrupt
/// handler, another thread, another task. The executor's platform takes them over into
/// the ready mask.
pub struct SharedMask {
    word: AtomicU32,
}

impl SharedMask {
    /// Flags that are all down.
    pub fn new() -> Self {
        SharedMask { word: atomic_new(0) }
    }

    /// Raises the flag of the slot of `waker`, in one atomic step.
    pub fn mark_runnable(&self, waker: &WakerInfo) {
        let bit: u32 = 1u32 << (waker.task_index() as u32);
        let _ = atomic_fetch_or(&self.word, bit);
    }

    /// Whether a flag was up when the word was read.
    pub fn is_raised(&self) -> bool {
        atomic_load(&self.word) != 0
    }

    /// Takes the flags that are up, in one atomic step that leaves them all down, and
    /// returns them; `ready` gets exactly their bits on top of the bits that it had.
    pub fn deliver(&self, ready: &mut ReadyMask) -> (taken: ReadyMask)
        ensures
            final(ready)@ == old(ready)@.union(taken@),
    {
        let taken = ReadyMask::from_bits(atomic_swap(&self.word, 0));
        ready.merge(taken);
        taken
    }
}

/// The platform `E`, with the flags of a `SharedMask` handed over at every idle wait.
pub struct Delivering<'a, E> {
    inner: E,
    signal: &'a SharedMask,
}

impl<'a, E> Delivering<'a, E> {
    /// The platform that is wrapped.
    pub closed spec fn inner_spec(self) -> E {
        self.inner
    }
}

impl<'a, E: Environment> Delivering<'a, E> {
    /// The platform `inner`, with the wake flags of `signal` handed over at every idle
    /// wait.
    pub fn new(inner: E, signal: &'a SharedMask) -> (r: Self)
        ensures
            r.inner_spec() == inner,
    {
        Delivering { inner, signal }
    }

    /// The platform that is wrapped.
    pub fn inner(&self) -> (r: &E)
        ensures
            *r == self.inner_spec(),
    {
        &self.inner
    }

    /// Gives the wrapped platform back.
    pub fn into_inner(self) -> (r: E)
        ensures
            r == self.inner_spec(),
    {
        self.inner
    }
}

impl<'a, E: Environment> Environment for Delivering<'a, E> {
    open spec fn clock(&self) -> int {
        self.inner_spec().clock()
    }

    open spec fn executor_entered(&self) -> bool {
        self.inner_spec().executor_entered()
    }

    fn ticks(&mut self) -> (now: Instant) {
        self.inner.ticks()
    }

    /// Takes the wake flags over into `event`, then idles as the wrapped platform does.
    fn wait_for_event_with_deadline(&mut self, event: &mut ReadyMask, tick: Option<Instant>) {
        let _ = self.signal.deliver(event);
        self.inner.wait_for_event_with_deadline(event, tick);
    }

    fn enter_executor(&mut self) {
        self.inner.enter_executor();
    }

    fn leave_executor(&mut self) {
        self.inner.leave_executor();
    }

    fn current_executor(&self) -> (r: bool) {
        self.inner.current_executor()
    }
}

} // verus!
