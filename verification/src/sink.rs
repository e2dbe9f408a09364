use crate::poll::Poll;
use vstd::prelude::*;

verus! {

/// Why a send on a channel failed.
#[derive(Clone, Copy, Debug, PartialEq, Eq, Structural)]
pub enum SendErrorKind {
    /// The channel has no room for the message.
    Full,
    /// The receiving half of the channel is gone.
    Disconnected,
}

/// The error returned by a sender when a message cannot be sent.
#[derive(Clone, Copy, Debug, PartialEq, Eq, Structural)]
pub struct SendError {
    kind: SendErrorKind,
}

impl SendError {
    /// The kind of failure.
    pub closed spec fn kind(&self) -> SendErrorKind {
        self.kind
    }

    /// The error of a send on a full channel.
    pub fn full() -> (e: SendError)
        ensures
            e.kind() == SendErrorKind::Full,
    {
        SendError { kind: SendErrorKind::Full }
    }

    /// The error of a send on a channel whose receiver is gone.
    pub fn disconnected() -> (e: SendError)
        ensures
            e.kind() == SendErrorKind::Disconnected,
    {
        SendError { kind: SendErrorKind::Disconnected }
    }

    /// Whether the send failed because the channel was full.
    pub fn is_full(&self) -> (r: bool)
        ensures
            r == (self.kind() == SendErrorKind::Full),
    {
        match self.kind {
            SendErrorKind::Full => true,
            SendErrorKind::Disconnected => false,
        }
    }

    /// Whether the send failed because the receiver was gone.
    pub fn is_disconnected(&self) -> (r: bool)
        ensures
            r == (self.kind() == SendErrorKind::Disconnected),
    {
        match self.kind {
            SendErrorKind::Full => false,
            SendErrorKind::Disconnected => true,
        }
    }
}

/// What flushing a bounded sender gives, for what polling it for readiness
/// gave: a sender whose receiver is gone counts as flushed, and any other
/// result is passed on.
pub open spec fn flush_outcome(ready: Poll<Result<(), SendError>>) -> Poll<Result<(), SendError>> {
    match ready {
        Poll::Ready(Err(e)) => if e.kind() == SendErrorKind::Disconnected {
            Poll::Ready(Ok(()))
        } else {
            ready
        },
        _ => ready,
    }
}

/// The flush of a bounded sender, computed from the result of its
/// readiness poll (`Sink::poll_flush` of `Sender`).
pub fn bounded_flush(ready: Poll<Result<(), SendError>>) -> (r: Poll<Result<(), SendError>>)
    ensures
        r == flush_outcome(ready),
{
    match ready {
        Poll::Ready(Err(e)) => {
            if e.is_disconnected() {
                Poll::Ready(Ok(()))
            } else {
                Poll::Ready(Err(e))
            }
        },
        other => other,
    }
}

} // verus!
