use crate::poll::Poll;
use futures_core::task::__internal::AtomicWaker;
use std::sync::atomic::AtomicBool;
use std::sync::Arc;
use vstd::prelude::*;

verus! {

#[verifier::external_type_specification]
#[verifier::external_body]
pub struct ExAtomicWaker(AtomicWaker);

#[verifier::external_type_specification]
#[verifier::external_body]
pub struct ExWaker(core::task::Waker);

/// Creates an empty `AtomicWaker` (`AtomicWaker::new`). Nothing is claimed
/// of the cell's contents.
#[verifier::external_body]
fn new_atomic_waker() -> AtomicWaker {
    AtomicWaker::new()
}

/// Registers `waker` to be woken by the next `wake` (`AtomicWaker::register`).
/// The call changes only the cell's contents, of which nothing is claimed.
#[verifier::external_body]
fn register_waker(cell: &AtomicWaker, waker: &core::task::Waker) {
    cell.register(waker)
}

/// Wakes the waker registered last, if any (`AtomicWaker::wake`).
/// The call changes only the cell's contents, of which nothing is claimed.
#[verifier::external_body]
fn wake_registered(cell: &AtomicWaker) {
    cell.wake()
}

/// The state that an `AbortHandle`, its `AbortRegistration` and the
/// `Abortable` task built from it have in common: the waker to wake on abort,
/// and whether an abort was requested.
#[derive(Debug)]
pub struct AbortInner {
    waker: AtomicWaker,
    aborted: AtomicBool,
}

/// The text with which `Aborted` describes itself.
pub open spec fn aborted_message() -> Seq<char> {
    "`Abortable` future has been aborted"@
}

/// Indicator that the `Abortable` task was aborted.
#[derive(Clone, Copy, Debug, PartialEq, Eq, Structural)]
pub struct Aborted;

impl Aborted {
    /// The human readable description of the error.
    pub fn message(&self) -> (r: &'static str)
        ensures
            r@ == aborted_message(),
    {
        "`Abortable` future has been aborted"
    }
}

/// A future or stream which can be remotely short-circuited using an
/// `AbortHandle`.
#[derive(Debug, Clone)]
pub struct Abortable<T> {
    task: T,
    inner: Arc<AbortInner>,
}

/// A registration handle for an `Abortable` task. Values of this type are
/// acquired from `AbortHandle::new_pair` and are used in `Abortable::new`.
#[derive(Debug)]
pub struct AbortRegistration {
    inner: Arc<AbortInner>,
}

/// A handle to an `Abortable` task.
#[derive(Debug, Clone)]
pub struct AbortHandle {
    inner: Arc<AbortInner>,
}

/// What polling an `Abortable` asks of its caller next.
#[derive(Debug, PartialEq, Eq)]
pub enum TryPollStep<I> {
    /// Poll the wrapped task, then hand its result to `after_task_poll`.
    PollTask,
    /// The poll is over, with this result.
    Complete(Poll<Result<I, Aborted>>),
}

/// The first decision of a poll: an abort observed before the task is
/// polled completes the poll with `Aborted`.
pub open spec fn begin_outcome<I>(aborted: bool) -> TryPollStep<I> {
    if aborted {
        TryPollStep::Complete(Poll::Ready(Err(Aborted)))
    } else {
        TryPollStep::PollTask
    }
}

/// The last decision of a poll whose task is still pending, once the waker
/// is registered: an abort observed now completes the poll with `Aborted`,
/// else the poll is pending.
pub open spec fn pending_outcome<I>(aborted: bool) -> Poll<Result<I, Aborted>> {
    if aborted {
        Poll::Ready(Err(Aborted))
    } else {
        Poll::Pending
    }
}

/// What a poll of an abortable stream yields for the result of the inner
/// poll: an abort ends the stream, and otherwise the item passes through.
pub open spec fn stream_outcome<I>(r: Poll<Result<Option<I>, Aborted>>) -> Poll<Option<I>> {
    match r {
        Poll::Ready(Ok(item)) => Poll::Ready(item),
        Poll::Ready(Err(_)) => Poll::Ready(None),
        Poll::Pending => Poll::Pending,
    }
}

/// The decision of `begin_outcome`, computed.
pub fn decide_begin<I>(aborted: bool) -> (r: TryPollStep<I>)
    ensures
        r == begin_outcome::<I>(aborted),
{
    if aborted {
        TryPollStep::Complete(Poll::Ready(Err(Aborted)))
    } else {
        TryPollStep::PollTask
    }
}

/// The decision of `pending_outcome`, computed.
pub fn decide_pending<I>(aborted: bool) -> (r: Poll<Result<I, Aborted>>)
    ensures
        r == pending_outcome::<I>(aborted),
{
    if aborted {
        Poll::Ready(Err(Aborted))
    } else {
        Poll::Pending
    }
}

/// Turns the result of polling an abortable stream's inner stream into the
/// item that the abortable stream yields.
pub fn abortable_stream_item<I>(r: Poll<Result<Option<I>, Aborted>>) -> (out: Poll<Option<I>>)
    ensures
        out == stream_outcome(r),
{
    match r {
        Poll::Ready(Ok(item)) => Poll::Ready(item),
        Poll::Ready(Err(_)) => Poll::Ready(None),
        Poll::Pending => Poll::Pending,
    }
}

impl<T> Abortable<T> {
    /// The wrapped future or stream.
    pub closed spec fn task(&self) -> T {
        self.task
    }

    /// Shared abort flag and waker.
    pub closed spec fn state(&self) -> AbortInner {
        *self.inner
    }

    /// Creates a new `Abortable` future or stream using an existing
    /// `AbortRegistration`. When `abort` is called on a handle tied to `reg`,
    /// or if `abort` has already been called, the task completes immediately
    /// without making any further progress.
    pub fn new(task: T, reg: AbortRegistration) -> (r: Self)
        ensures
            r.task() == task,
            r.state() == reg.state(),
    {
        Abortable { task, inner: reg.inner }
    }

    /// Checks whether the task has been aborted: whether `AbortHandle::abort`
    /// was called on a handle associated with it. The flag is read once,
    /// with relaxed ordering; any thread holding a handle may set it at any
    /// time, so no clause fixes the value read.
    pub fn is_aborted(&self) -> bool {
        self.inner.aborted.load(std::sync::atomic::Ordering::Relaxed)
    }

    /// The wrapped task, to be polled in place.
    pub fn task_mut(&mut self) -> (t: &mut T)
        ensures
            *t == old(self).task(),
            final(self).task() == *final(t),
            final(self).state() == old(self).state(),
    {
        &mut self.task
    }

    /// Starts a poll: completes it with `Aborted` when the task has been
    /// aborted, and otherwise asks for the wrapped task to be polled. Which
    /// of the two rests on the abort flag read here, of which nothing is
    /// known; `decide_begin` states the decision for each value of it.
    pub fn poll_begin<I>(&self) -> (r: TryPollStep<I>)
        ensures
            r == begin_outcome::<I>(true) || r == begin_outcome::<I>(false),
    {
        let aborted = self.is_aborted();
        decide_begin(aborted)
    }

    /// Finishes a poll, given what polling the wrapped task gave. A ready
    /// task completes the poll with its value. A pending one has `waker`
    /// registered to be woken by an abort, and the abort flag is checked
    /// again, so that an abort between the two checks is not missed.
    pub fn after_task_poll<I>(&self, polled: Poll<I>, waker: &core::task::Waker) -> (r: Poll<
        Result<I, Aborted>,
    >)
        ensures
            polled matches Poll::Ready(x) ==> r == Poll::Ready(Ok::<I, Aborted>(x)),
            polled is Pending ==> (r == pending_outcome::<I>(true) || r == pending_outcome::<I>(
                false,
            )),
    {
        match polled {
            Poll::Ready(x) => Poll::Ready(Ok(x)),
            Poll::Pending => {
                register_waker(&self.inner.waker, waker);
                let aborted = self.is_aborted();
                decide_pending(aborted)
            },
        }
    }
}

impl AbortRegistration {
    /// The abort state this registration shares with its handles.
    pub closed spec fn state(&self) -> AbortInner {
        *self.inner
    }

    /// Creates an `AbortHandle` from this registration. The created handle
    /// is functionally the same as any other handle associated with this
    /// registration, such as the one created by `AbortHandle::new_pair`.
    pub fn handle(&self) -> (h: AbortHandle)
        ensures
            h.state() == self.state(),
    {
        AbortHandle { inner: self.inner.clone() }
    }
}

impl AbortHandle {
    /// The abort state this handle shares with its registration.
    pub closed spec fn state(&self) -> AbortInner {
        *self.inner
    }

    /// Creates an (`AbortHandle`, `AbortRegistration`) pair which can be
    /// used to abort a running future or stream.
    pub fn new_pair() -> (pair: (AbortHandle, AbortRegistration))
        ensures
            pair.0.state() == pair.1.state(),
    {
        let inner = Arc::new(
            AbortInner { waker: new_atomic_waker(), aborted: AtomicBool::new(false) },
        );
        (AbortHandle { inner: inner.clone() }, AbortRegistration { inner })
    }

    /// Aborts the `Abortable` stream or future associated with this handle:
    /// sets the abort flag and wakes the task. A task being polled on another
    /// thread goes on until its poll returns.
    pub fn abort(&self) {
        self.inner.aborted.store(true, std::sync::atomic::Ordering::Relaxed);
        wake_registered(&self.inner.waker);
    }

    /// Checks whether `abort` was called on any handle associated with this
    /// one, including those linked with the same registration. The flag is
    /// read once, with relaxed ordering; any thread holding a handle may set
    /// it at any time, so no clause fixes the value read.
    pub fn is_aborted(&self) -> bool {
        self.inner.aborted.load(std::sync::atomic::Ordering::Relaxed)
    }
}

} // verus!
