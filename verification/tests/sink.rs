use futures_util::poll::Poll;
use futures_util::sink::{bounded_flush, SendError};

#[test]
fn disconnected_sender_counts_as_flushed() {
    assert_eq!(bounded_flush(Poll::Ready(Err(SendError::disconnected()))), Poll::Ready(Ok(())));
}

#[test]
fn full_channel_error_is_passed_on() {
    assert_eq!(
        bounded_flush(Poll::Ready(Err(SendError::full()))),
        Poll::Ready(Err(SendError::full()))
    );
}

#[test]
fn ready_and_pending_pass_through() {
    assert_eq!(bounded_flush(Poll::Ready(Ok(()))), Poll::Ready(Ok(())));
    assert_eq!(bounded_flush(Poll::Pending), Poll::Pending);
}

#[test]
fn send_error_kinds() {
    assert!(SendError::full().is_full());
    assert!(!SendError::full().is_disconnected());
    assert!(SendError::disconnected().is_disconnected());
    assert!(!SendError::disconnected().is_full());
}

#[test]
fn poll_queries() {
    assert!(Poll::Ready(1u8).is_ready());
    assert!(!Poll::Ready(1u8).is_pending());
    assert!(Poll::<u8>::Pending.is_pending());
    assert!(!Poll::<u8>::Pending.is_ready());
}
