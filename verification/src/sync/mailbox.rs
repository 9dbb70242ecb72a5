//! A mailbox that can be posted to from another context than the one that reads it.

use crate::mailbox::MailboxFuture;
use crate::mailbox::MailboxModel;
use crate::mailbox::Reply;
use crate::mailbox::Request;
use crate::sync::signal::SharedMask;
use crate::task::Context;
use crate::task::Poll;
use crate::task::Task;
use crate::waker::WakerInfo;
use core::cell::RefCell;
use critical_section::Mutex;
use vstd::prelude::*;

pub use crate::mailbox::Error;

verus! {

/// `Mutex` of critical_section, as a type whose inside is not looked into.
#[verifier::external_type_specification]
#[verifier::external_body]
#[verifier::reject_recursive_types(T)]
pub struct ExMutex<T>(Mutex<T>);

/// `RefCell` of std, as a type whose inside is not looked into.
#[verifier::external_type_specification]
#[verifier::external_body]
#[verifier::reject_recursive_types(T)]
pub struct ExRefCell<T: ?Sized>(RefCell<T>);

/// `Mutex::new` of critical_section: a mutex around `value`. The mutex is opaque here,
/// so nothing is claimed of it.
pub assume_specification<T>[ Mutex::<T>::new ](value: T) -> Mutex<T>;

/// `RefCell::new` of std: a cell around `value`. The cell is opaque here, so nothing is
/// claimed of it.
pub assume_specification<T>[ RefCell::<T>::new ](value: T) -> RefCell<T>;

/// `critical_section::with`: runs its closure inside a critical section and returns
/// what the closure returns. The closure borrows the mailbox that the mutex guards and
/// has it serve `request`. What the mailbox holds when the request meets it depends on
/// the other contexts; the reply is what a mailbox that holds something gives to the
/// request.
#[verifier::external_body]
fn locked<T>(cell: &Mutex<RefCell<crate::mailbox::Mailbox<T>>>, request: Request<T>) -> (reply:
    Reply<T>)
    ensures
        exists|held: MailboxModel<T>| reply == #[trigger] held.reply_to(request),
{
    critical_section::with(|cs| cell.borrow_ref_mut(cs).serve(request))
}

/// Mailbox that holds one value and lets one reader wait for it. The value and the
/// registered reader are only touched inside a critical section, so that a post may
/// come from an interrupt handler or another thread.
#[derive(Debug)]
#[verifier::reject_recursive_types(T)]
pub struct Mailbox<T> {
    cell: Mutex<RefCell<crate::mailbox::Mailbox<T>>>,
}

impl<T> Default for Mailbox<T> {
    fn default() -> Self {
        Mailbox::new()
    }
}

impl<T> Mailbox<T> {
    /// What follows of a reply from its being the reply of some mailbox to `request`.
    proof fn lemma_answers(reply: Reply<T>, request: Request<T>)
        requires
            exists|held: MailboxModel<T>| reply == #[trigger] held.reply_to(request),
        ensures
            reply.answers(request),
            request matches Request::BeginRead(reader) ==> (reply matches Reply::ReadBegun(Ok(f))
                ==> f.reader() == reader),
    {
        let held = choose|held: MailboxModel<T>| reply == #[trigger] held.reply_to(request);
        held.lemma_reply_answers(request);
    }

    /// Creates an empty mailbox.
    pub fn new() -> Self {
        Mailbox { cell: Mutex::new(RefCell::new(crate::mailbox::Mailbox::new())) }
    }

    /// What a post returns and whom it wakes, from the reply that the mailbox gave inside
    /// the critical section: the value that was overwritten is returned, and the flag of
    /// the reader that waited is raised in `wake`. This runs after the critical section.
    pub fn finish_post(reply: Reply<T>, wake: &SharedMask) -> (r: Option<T>)
        requires
            reply is Posted,
        ensures
            r == reply->Posted_0,
    {
        let (old_value, waiter) = reply.into_posted();
        match waiter {
            Some(w) => wake.mark_runnable(&w),
            None => {},
        }
        old_value
    }

    /// Puts `value` into the mailbox and raises the wake flag of the reader that waits.
    /// Returns the value that was there and is now lost to readers. The flag is raised
    /// after the critical section has ended.
    pub fn post(&self, value: T, wake: &SharedMask) -> (r: Option<T>) {
        let reply = locked(&self.cell, Request::Post(value));
        proof {
            Mailbox::lemma_answers(reply, Request::Post(value));
        }
        Mailbox::finish_post(reply, wake)
    }

    /// Begins a read for the task of `reader`. It is refused when a reader is registered
    /// already; the check and the registration are one step inside the critical
    /// section.
    pub fn begin_read(&self, reader: WakerInfo) -> (r: Result<MailboxFuture, Error>)
        ensures
            r matches Ok(f) ==> f.reader() == reader,
    {
        let reply = locked(&self.cell, Request::BeginRead(reader));
        proof {
            Mailbox::lemma_answers(reply, Request::BeginRead(reader));
        }
        reply.into_read_begun()
    }

    /// Begins a read for the task that is being polled.
    pub fn read(&self, cx: &Context) -> (r: Result<MailboxFuture, Error>)
        ensures
            r matches Ok(f) ==> f.reader() == cx.waker_spec(),
    {
        self.begin_read(cx.waker())
    }

    /// Takes the value if there is one, without waiting. It is refused when a reader is
    /// registered.
    pub fn try_read(&self) -> (r: Result<Option<T>, Error>) {
        let reply = locked(&self.cell, Request::TryRead);
        proof {
            Mailbox::lemma_answers(reply, Request::TryRead);
        }
        reply.into_tried()
    }

    /// One poll of the read of `reader`: takes the value if there is one, else registers
    /// `reader` as the one to wake.
    pub fn poll_read(&self, reader: WakerInfo) -> (r: Poll<T>) {
        let reply = locked(&self.cell, Request::PollRead(reader));
        proof {
            Mailbox::lemma_answers(reply, Request::PollRead(reader));
        }
        reply.into_polled()
    }

    /// Gives up the read of `reader`: its registration ends.
    pub fn cancel_read(&self, reader: WakerInfo) {
        let _ = locked(&self.cell, Request::CancelRead(reader));
    }
}

impl<T> Task<Mailbox<T>> for MailboxFuture {
    type Output = T;

    /// Polls the read on the mailbox; the context stays as it is.
    fn poll(&mut self, cx: &mut Context, shared: &mut Mailbox<T>) -> (r: Poll<T>)
        ensures
            *final(self) == *old(self),
            *final(cx) == *old(cx),
    {
        shared.poll_read(self.waker())
    }

    /// A poll of the read leaves the read and the context alone. Its outcome is what
    /// the mailbox holds when the poll reaches it, which the other contexts decide.
    open spec fn poll_spec(step: crate::task::PollStep<Self, Mailbox<T>, T>) -> bool {
        &&& step.task_after == step.task_before
        &&& step.cx_after == step.cx_before
    }
}

} // verus!
