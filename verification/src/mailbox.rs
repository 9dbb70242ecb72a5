//! A mailbox for one value, with at most one reader waiting for it.

use crate::task::Context;
use crate::task::Poll;
use crate::task::Task;
use crate::waker::WakerInfo;
use vstd::prelude::*;

verus! {

/// Why a mailbox refuses a read.
#[derive(Debug, Clone, Copy, Eq, PartialEq, Structural, Ord, PartialOrd)]
pub enum Error {
    /// A reader is already waiting for this mailbox: it takes one reader at a time.
    AlreadyWaiting,
}

/// What a mailbox holds.
pub struct MailboxModel<T> {
    /// The value that was posted and not read yet.
    pub value: Option<T>,
    /// The wake handle of the reader that waits for a value.
    pub waiter: Option<WakerInfo>,
}

impl<T> MailboxModel<T> {
    /// The mailbox after `value` was posted: it holds the value, and the reader that
    /// waited is no longer registered, because it was woken.
    pub open spec fn posted(self, value: T) -> MailboxModel<T> {
        MailboxModel { value: Some(value), waiter: None }
    }

    /// The mailbox after `reader` began a read that was accepted.
    pub open spec fn reading(self, reader: WakerInfo) -> MailboxModel<T> {
        MailboxModel { value: self.value, waiter: Some(reader) }
    }

    /// The mailbox after the read of `reader` was polled.
    pub open spec fn polled(self, reader: WakerInfo) -> MailboxModel<T> {
        match self.value {
            Some(_) => MailboxModel {
                value: None,
                waiter: if self.waiter == Some(reader) {
                    None
                } else {
                    self.waiter
                },
            },
            None => MailboxModel { value: None, waiter: Some(reader) },
        }
    }

    /// The mailbox after the read of `reader` was given up.
    pub open spec fn cancelled(self, reader: WakerInfo) -> MailboxModel<T> {
        MailboxModel {
            value: self.value,
            waiter: if self.waiter == Some(reader) {
                None
            } else {
                self.waiter
            },
        }
    }

    /// The slots that a post wakes: that of the waiting reader, if there is one.
    pub open spec fn woken_by_post(self) -> Set<int> {
        match self.waiter {
            Some(w) => set![w.index()],
            None => Set::<int>::empty(),
        }
    }

    /// A value that is posted before the read begins is what the read yields, at its
    /// first poll, and the mailbox is then empty and free for the next reader.
    pub proof fn lemma_post_then_read(self, value: T, reader: WakerInfo)
        requires
            self.waiter.is_none(),
        ensures
            self.posted(value).reading(reader).value == Some(value),
            self.posted(value).reading(reader).polled(reader) == (MailboxModel::<T> {
                value: None,
                waiter: None,
            }),
    {
    }

    /// A read that finds no value registers its reader; the post that follows wakes that
    /// reader, and the next poll of the read yields the posted value.
    pub proof fn lemma_read_then_post(self, value: T, reader: WakerInfo)
        requires
            self.value.is_none(),
            self.waiter.is_none(),
        ensures
            self.reading(reader).polled(reader).waiter == Some(reader),
            self.reading(reader).polled(reader).woken_by_post() == set![reader.index()],
            self.reading(reader).polled(reader).posted(value).value == Some(value),
            self.reading(reader).polled(reader).posted(value).polled(reader) == (MailboxModel::<T> {
                value: None,
                waiter: None,
            }),
    {
    }

    /// A post on top of a value that was not read hands that value back and keeps the
    /// new one.
    pub proof fn lemma_post_overwrites(self, first: T, second: T)
        ensures
            self.posted(first).value == Some(first),
            self.posted(first).reply_to(Request::Post(second)) == Reply::Posted(Some(first), None),
            self.posted(first).posted(second).value == Some(second),
    {
    }

    /// A read that is given up leaves the mailbox free for the next reader.
    pub proof fn lemma_cancel_frees(self, reader: WakerInfo)
        requires
            self.waiter.is_none(),
        ensures
            self.reading(reader).cancelled(reader).waiter.is_none(),
            self.reading(reader).polled(reader).cancelled(reader).waiter.is_none(),
    {
    }
}

/// Mailbox for the tasks of one executor: it holds one value, and one reader can wait
/// for it.
#[derive(Debug)]
pub struct Mailbox<T> {
    value: Option<T>,
    waker: Option<WakerInfo>,
}

impl<T> View for Mailbox<T> {
    type V = MailboxModel<T>;

    closed spec fn view(&self) -> MailboxModel<T> {
        MailboxModel { value: self.value, waiter: self.waker }
    }
}

impl<T> Default for Mailbox<T> {
    fn default() -> (r: Self)
        ensures
            r@.value.is_none(),
            r@.waiter.is_none(),
    {
        Mailbox::new()
    }
}

impl<T> Mailbox<T> {
    /// Creates an empty mailbox.
    pub fn new() -> (r: Self)
        ensures
            r@.value.is_none(),
            r@.waiter.is_none(),
    {
        Mailbox { value: None, waker: None }
    }

    /// Stores `value`, on top of a value that was not read, and takes the reader that
    /// waits, if there is one. Hands both back: the old value, and the reader for the
    /// caller to wake.
    pub fn swap_in(&mut self, value: T) -> (r: (Option<T>, Option<WakerInfo>))
        ensures
            final(self)@ == old(self)@.posted(value),
            r.0 == old(self)@.value,
            r.1 == old(self)@.waiter,
    {
        let mut old_value = Some(value);
        core::mem::swap(&mut old_value, &mut self.value);
        let mut waiter = None;
        core::mem::swap(&mut waiter, &mut self.waker);
        (old_value, waiter)
    }

    /// Puts `value` into the mailbox and wakes the reader that waits for it. Returns the
    /// value that was there and is now lost to readers.
    pub fn post(&mut self, value: T, cx: &mut Context) -> (r: Option<T>)
        ensures
            final(self)@ == old(self)@.posted(value),
            r == old(self)@.value,
            final(cx).waker_spec() == old(cx).waker_spec(),
            final(cx).now() == old(cx).now(),
            final(cx).deadline() == old(cx).deadline(),
            final(cx).woken() == old(cx).woken().union(old(self)@.woken_by_post()),
    {
        let (old_value, waiter) = self.swap_in(value);
        match waiter {
            Some(w) => {
                cx.wake(&w);
                proof {
                    assert(old(cx).woken().insert(w.index()) =~= old(cx).woken().union(
                        old(self)@.woken_by_post(),
                    ));
                }
            },
            None => {
                proof {
                    assert(old(cx).woken() =~= old(cx).woken().union(old(self)@.woken_by_post()));
                }
            },
        }
        old_value
    }

    /// Begins a read for the task of `reader`. It is refused, and the mailbox is left as
    /// it is, exactly when a reader is registered already. Otherwise `reader` is
    /// registered, and the read is to be polled with this mailbox as the shared state.
    pub fn begin_read(&mut self, reader: WakerInfo) -> (r: Result<MailboxFuture, Error>)
        ensures
            old(self)@.waiter.is_some() ==> r == Err::<MailboxFuture, Error>(Error::AlreadyWaiting)
                && final(self)@ == old(self)@,
            old(self)@.waiter.is_none() ==> (r matches Ok(f) && f.reader() == reader) && final(self)@ == old(self)@.reading(reader),
    {
        if self.waker.is_some() {
            return Err(Error::AlreadyWaiting);
        }
        self.waker = Some(reader);
        Ok(MailboxFuture { reader })
    }

    /// Begins a read for the task that is being polled.
    pub fn read(&mut self, cx: &Context) -> (r: Result<MailboxFuture, Error>)
        ensures
            old(self)@.waiter.is_some() ==> r == Err::<MailboxFuture, Error>(Error::AlreadyWaiting)
                && final(self)@ == old(self)@,
            old(self)@.waiter.is_none() ==> (r matches Ok(f) && f.reader() == cx.waker_spec())
                && final(self)@ == old(self)@.reading(cx.waker_spec()),
    {
        self.begin_read(cx.waker())
    }

    /// Takes the value if there is one, without waiting. It is refused, and the mailbox
    /// is left as it is, exactly when a reader is registered.
    pub fn try_read(&mut self) -> (r: Result<Option<T>, Error>)
        ensures
            old(self)@.waiter.is_some() ==> r == Err::<Option<T>, Error>(Error::AlreadyWaiting)
                && final(self)@ == old(self)@,
            old(self)@.waiter.is_none() ==> r == Ok::<Option<T>, Error>(old(self)@.value) && final(self)@ == (MailboxModel::<T> { value: None, waiter: None }),
    {
        if self.waker.is_some() {
            return Err(Error::AlreadyWaiting);
        }
        let mut value = None;
        core::mem::swap(&mut value, &mut self.value);
        Ok(value)
    }

    /// One poll of the read of `reader`: takes the value if there is one, and ends the
    /// registration of `reader`; else registers `reader` as the one to wake.
    pub fn poll_read(&mut self, reader: WakerInfo) -> (r: Poll<T>)
        ensures
            final(self)@ == old(self)@.polled(reader),
            match old(self)@.value {
                Some(v) => r == Poll::Ready(v),
                None => r == Poll::<T>::Pending,
            },
    {
        let mut value = None;
        core::mem::swap(&mut value, &mut self.value);
        match value {
            Some(v) => {
                let ours = match self.waker {
                    Some(w) => w.task_index() == reader.task_index(),
                    None => false,
                };
                if ours {
                    self.waker = None;
                }
                proof {
                    reader.lemma_index_injective(self.waker);
                    reader.lemma_index_injective(old(self).waker);
                }
                Poll::Ready(v)
            },
            None => {
                self.waker = Some(reader);
                Poll::Pending
            },
        }
    }

    /// Gives up the read of `reader`: its registration ends, so that the mailbox takes
    /// the next reader.
    pub fn cancel_read(&mut self, reader: WakerInfo)
        ensures
            final(self)@ == old(self)@.cancelled(reader),
    {
        let ours = match self.waker {
            Some(w) => w.task_index() == reader.task_index(),
            None => false,
        };
        if ours {
            self.waker = None;
        }
        proof {
            reader.lemma_index_injective(self.waker);
            reader.lemma_index_injective(old(self).waker);
        }
    }
}

/// One operation on a mailbox, as a value: what is handed to a mailbox that can only be
/// reached inside a critical section.
pub enum Request<T> {
    /// `swap_in` of the value.
    Post(T),
    /// `begin_read` for the reader.
    BeginRead(WakerInfo),
    /// `try_read`.
    TryRead,
    /// `poll_read` for the reader.
    PollRead(WakerInfo),
    /// `cancel_read` for the reader.
    CancelRead(WakerInfo),
}

/// What an operation on a mailbox gave back.
pub enum Reply<T> {
    /// The value that was overwritten, and the reader to wake.
    Posted(Option<T>, Option<WakerInfo>),
    /// The read that was begun, or why it was refused.
    ReadBegun(Result<MailboxFuture, Error>),
    /// The value that was taken, or why the attempt was refused.
    Tried(Result<Option<T>, Error>),
    /// The outcome of the poll.
    Polled(Poll<T>),
    /// The read was given up.
    Cancelled,
}

impl<T> Reply<T> {
    /// What a post gave back: the value that was overwritten, and the reader to wake.
    pub fn into_posted(self) -> (r: (Option<T>, Option<WakerInfo>))
        requires
            self is Posted,
        ensures
            self == Reply::Posted(r.0, r.1),
    {
        match self {
            Reply::Posted(value, waiter) => (value, waiter),
            _ => (None, None),
        }
    }

    /// What the begin of a read gave back: the read, or why it was refused.
    pub fn into_read_begun(self) -> (r: Result<MailboxFuture, Error>)
        requires
            self is ReadBegun,
        ensures
            self == Reply::<T>::ReadBegun(r),
    {
        match self {
            Reply::ReadBegun(outcome) => outcome,
            _ => Err(Error::AlreadyWaiting),
        }
    }

    /// What an attempt to read gave back: the value that was taken, or why the attempt
    /// was refused.
    pub fn into_tried(self) -> (r: Result<Option<T>, Error>)
        requires
            self is Tried,
        ensures
            self == Reply::Tried(r),
    {
        match self {
            Reply::Tried(outcome) => outcome,
            _ => Err(Error::AlreadyWaiting),
        }
    }

    /// What the poll of a read gave back.
    pub fn into_polled(self) -> (r: Poll<T>)
        requires
            self is Polled,
        ensures
            self == Reply::Polled(r),
    {
        match self {
            Reply::Polled(outcome) => outcome,
            _ => Poll::Pending,
        }
    }

    /// Whether the reply is of the kind that answers `request`.
    pub open spec fn answers(self, request: Request<T>) -> bool {
        match request {
            Request::Post(_) => self is Posted,
            Request::BeginRead(_) => self is ReadBegun,
            Request::TryRead => self is Tried,
            Request::PollRead(_) => self is Polled,
            Request::CancelRead(_) => self is Cancelled,
        }
    }
}

impl<T> MailboxModel<T> {
    /// The mailbox after `request` was served.
    pub open spec fn served(self, request: Request<T>) -> MailboxModel<T> {
        match request {
            Request::Post(value) => self.posted(value),
            Request::BeginRead(reader) => if self.waiter.is_some() {
                self
            } else {
                self.reading(reader)
            },
            Request::TryRead => if self.waiter.is_some() {
                self
            } else {
                MailboxModel { value: None, waiter: None }
            },
            Request::PollRead(reader) => self.polled(reader),
            Request::CancelRead(reader) => self.cancelled(reader),
        }
    }

    /// The reply that serving `request` gives.
    pub open spec fn reply_to(self, request: Request<T>) -> Reply<T> {
        match request {
            Request::Post(_) => Reply::Posted(self.value, self.waiter),
            Request::BeginRead(reader) => Reply::ReadBegun(
                if self.waiter.is_some() {
                    Err(Error::AlreadyWaiting)
                } else {
                    Ok(MailboxFuture::of(reader))
                },
            ),
            Request::TryRead => Reply::Tried(
                if self.waiter.is_some() {
                    Err(Error::AlreadyWaiting)
                } else {
                    Ok(self.value)
                },
            ),
            Request::PollRead(_) => Reply::Polled(
                match self.value {
                    Some(v) => Poll::Ready(v),
                    None => Poll::Pending,
                },
            ),
            Request::CancelRead(_) => Reply::Cancelled,
        }
    }
}

impl<T> MailboxModel<T> {
    /// While a read is pending, a second read is refused with `AlreadyWaiting`, and the
    /// first reader stays registered: the post that follows wakes it.
    pub proof fn lemma_second_read_refused(self, first: WakerInfo, second: WakerInfo)
        requires
            self.waiter.is_none(),
        ensures
            self.reading(first).reply_to(Request::BeginRead(second)) == Reply::<T>::ReadBegun(
                Err(Error::AlreadyWaiting),
            ),
            self.reading(first).served(Request::BeginRead(second)) == self.reading(first),
            self.reading(first).woken_by_post() == set![first.index()],
    {
    }

    /// A post always hands back the value that it overwrites.
    pub proof fn lemma_post_returns_prior(self, value: T)
        ensures
            self.reply_to(Request::Post(value)) == Reply::Posted(self.value, self.waiter),
            self.served(Request::Post(value)).value == Some(value),
    {
    }
}

impl<T> MailboxModel<T> {
    /// Whatever a mailbox holds, its reply is of the kind that answers the request, and
    /// a read that it begins is the read of the reader that asked.
    pub proof fn lemma_reply_answers(self, request: Request<T>)
        ensures
            self.reply_to(request).answers(request),
            request matches Request::BeginRead(reader) ==> (self.reply_to(
                request,
            ) matches Reply::ReadBegun(Ok(f)) ==> f.reader() == reader),
    {
        match request {
            Request::BeginRead(reader) => {
                MailboxFuture::lemma_reader_of(reader);
            },
            _ => {},
        }
    }
}

impl<T> Mailbox<T> {
    /// Does the one operation that `request` names, and gives back what it returned.
    pub fn serve(&mut self, request: Request<T>) -> (reply: Reply<T>)
        ensures
            final(self)@ == old(self)@.served(request),
            reply == old(self)@.reply_to(request),
    {
        match request {
            Request::Post(value) => {
                let (old_value, waiter) = self.swap_in(value);
                Reply::Posted(old_value, waiter)
            },
            Request::BeginRead(reader) => Reply::ReadBegun(self.begin_read(reader)),
            Request::TryRead => Reply::Tried(self.try_read()),
            Request::PollRead(reader) => Reply::Polled(self.poll_read(reader)),
            Request::CancelRead(reader) => {
                self.cancel_read(reader);
                Reply::Cancelled
            },
        }
    }
}

/// A read of a mailbox that was begun and did not yield its value yet.
#[derive(Debug)]
pub struct MailboxFuture {
    reader: WakerInfo,
}

impl MailboxFuture {
    /// The wake handle of the task that reads.
    pub closed spec fn reader(self) -> WakerInfo {
        self.reader
    }

    /// The read of `reader`.
    pub closed spec fn of(reader: WakerInfo) -> MailboxFuture {
        MailboxFuture { reader }
    }

    /// A read is known by its reader.
    pub proof fn lemma_of_reader(self)
        ensures
            self == MailboxFuture::of(self.reader()),
    {
    }

    /// The read of `reader` has `reader` as its reader.
    pub proof fn lemma_reader_of(reader: WakerInfo)
        ensures
            MailboxFuture::of(reader).reader() == reader,
    {
    }

    /// The read of `reader`, for a mailbox that has registered it.
    pub fn new(reader: WakerInfo) -> (r: Self)
        ensures
            r == MailboxFuture::of(reader),
            r.reader() == reader,
    {
        MailboxFuture { reader }
    }

    /// The wake handle of the task that reads.
    pub fn waker(&self) -> (r: WakerInfo)
        ensures
            r == self.reader(),
    {
        self.reader
    }

    /// Gives the read up before it is done.
    pub fn cancel<T>(self, mailbox: &mut Mailbox<T>)
        ensures
            final(mailbox)@ == old(mailbox)@.cancelled(self.reader()),
    {
        mailbox.cancel_read(self.reader)
    }
}

impl<T> Task<Mailbox<T>> for MailboxFuture {
    type Output = T;

    /// Takes the value if there is one; else registers the reader and is pending.
    fn poll(&mut self, cx: &mut Context, shared: &mut Mailbox<T>) -> (r: Poll<T>)
        ensures
            *final(self) == *old(self),
            *final(cx) == *old(cx),
            final(shared)@ == old(shared)@.polled(old(self).reader()),
            match old(shared)@.value {
                Some(v) => r == Poll::Ready(v),
                None => r == Poll::<T>::Pending,
            },
    {
        shared.poll_read(self.reader)
    }

    /// A poll of the read takes the value if the mailbox holds one, and is done with it;
    /// else it registers the reader and is pending. It leaves the read and the context
    /// alone.
    open spec fn poll_spec(step: crate::task::PollStep<Self, Mailbox<T>, T>) -> bool {
        &&& step.task_after == step.task_before
        &&& step.cx_after == step.cx_before
        &&& step.shared_after@ == step.shared_before@.polled(step.task_before.reader())
        &&& step.outcome == match step.shared_before@.value {
            Some(v) => Poll::Ready(v),
            None => Poll::Pending,
        }
    }
}

} // verus!
