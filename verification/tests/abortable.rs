use futures_util::abortable::{
    abortable_stream_item, decide_begin, decide_pending, AbortHandle, Abortable, Aborted,
    TryPollStep,
};
use futures_util::poll::Poll;
use std::sync::atomic::{AtomicUsize, Ordering};
use std::sync::Arc;
use std::task::{Wake, Waker};

struct CountingWake {
    wakes: AtomicUsize,
}

impl Wake for CountingWake {
    fn wake(self: Arc<Self>) {
        self.wakes.fetch_add(1, Ordering::SeqCst);
    }
    fn wake_by_ref(self: &Arc<Self>) {
        self.wakes.fetch_add(1, Ordering::SeqCst);
    }
}

fn counting_waker() -> (Arc<CountingWake>, Waker) {
    let counter = Arc::new(CountingWake { wakes: AtomicUsize::new(0) });
    let waker = Waker::from(counter.clone());
    (counter, waker)
}

#[test]
fn new_pair_is_not_aborted() {
    let (handle, reg) = AbortHandle::new_pair();
    assert!(!handle.is_aborted());
    let task = Abortable::new(7u32, reg);
    assert!(!task.is_aborted());
}

#[test]
fn abort_is_seen_by_every_associated_handle() {
    let (handle, reg) = AbortHandle::new_pair();
    let second = reg.handle();
    let cloned = handle.clone();
    let task = Abortable::new(2u8, reg);
    handle.abort();
    assert!(handle.is_aborted());
    assert!(second.is_aborted());
    assert!(cloned.is_aborted());
    assert!(task.is_aborted());
}

#[test]
fn abort_through_registration_handle() {
    let (handle, reg) = AbortHandle::new_pair();
    let second = reg.handle();
    let task = Abortable::new((), reg);
    second.abort();
    assert!(handle.is_aborted());
    assert!(task.is_aborted());
}

#[test]
fn unrelated_pairs_do_not_share_the_flag() {
    let (first, _reg1) = AbortHandle::new_pair();
    let (second, _reg2) = AbortHandle::new_pair();
    first.abort();
    assert!(first.is_aborted());
    assert!(!second.is_aborted());
}

#[test]
fn poll_of_aborted_task_completes_with_aborted() {
    let (handle, reg) = AbortHandle::new_pair();
    let task = Abortable::new(2u32, reg);
    handle.abort();
    let step: TryPollStep<u32> = task.poll_begin();
    assert_eq!(step, TryPollStep::Complete(Poll::Ready(Err(Aborted))));
}

#[test]
fn poll_of_live_task_asks_for_the_task() {
    let (_handle, reg) = AbortHandle::new_pair();
    let task = Abortable::new(2u32, reg);
    let step: TryPollStep<u32> = task.poll_begin();
    assert_eq!(step, TryPollStep::PollTask);
}

#[test]
fn ready_task_completes_with_its_value() {
    let (_handle, reg) = AbortHandle::new_pair();
    let task = Abortable::new((), reg);
    let r = task.after_task_poll(Poll::Ready(5i32), Waker::noop());
    assert_eq!(r, Poll::Ready(Ok(5)));
}

#[test]
fn ready_task_wins_over_late_abort() {
    let (handle, reg) = AbortHandle::new_pair();
    let task = Abortable::new((), reg);
    handle.abort();
    let r = task.after_task_poll(Poll::Ready(9i32), Waker::noop());
    assert_eq!(r, Poll::Ready(Ok(9)));
}

#[test]
fn pending_task_stays_pending_and_is_woken_by_abort() {
    let (handle, reg) = AbortHandle::new_pair();
    let task = Abortable::new((), reg);
    let (counter, waker) = counting_waker();
    let r = task.after_task_poll(Poll::<i32>::Pending, &waker);
    assert_eq!(r, Poll::Pending);
    assert_eq!(counter.wakes.load(Ordering::SeqCst), 0);
    handle.abort();
    assert_eq!(counter.wakes.load(Ordering::SeqCst), 1);
    let r2 = task.after_task_poll(Poll::<i32>::Pending, &waker);
    assert_eq!(r2, Poll::Ready(Err(Aborted)));
}

#[test]
fn abort_without_registered_waker_wakes_nothing() {
    let (handle, reg) = AbortHandle::new_pair();
    let _task = Abortable::new((), reg);
    handle.abort();
    handle.abort();
    assert!(handle.is_aborted());
}

#[test]
fn task_mut_reaches_the_task() {
    let (_handle, reg) = AbortHandle::new_pair();
    let mut task = Abortable::new(vec![1u8], reg);
    task.task_mut().push(2);
    assert_eq!(task.task_mut().clone(), vec![1u8, 2]);
}

#[test]
fn decisions_of_a_poll() {
    assert_eq!(decide_begin::<u8>(true), TryPollStep::Complete(Poll::Ready(Err(Aborted))));
    assert_eq!(decide_begin::<u8>(false), TryPollStep::PollTask);
    assert_eq!(decide_pending::<u8>(true), Poll::Ready(Err(Aborted)));
    assert_eq!(decide_pending::<u8>(false), Poll::Pending);
}

#[test]
fn abortable_stream_items() {
    assert_eq!(abortable_stream_item(Poll::Ready(Ok(Some(3u8)))), Poll::Ready(Some(3)));
    assert_eq!(abortable_stream_item::<u8>(Poll::Ready(Ok(None))), Poll::Ready(None));
    assert_eq!(abortable_stream_item::<u8>(Poll::Ready(Err(Aborted))), Poll::Ready(None));
    assert_eq!(abortable_stream_item::<u8>(Poll::Pending), Poll::Pending);
}

#[test]
fn aborted_message() {
    assert_eq!(Aborted.message(), "`Abortable` future has been aborted");
}
