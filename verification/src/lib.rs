//! Building blocks of asynchronous combinators: remotely abortable tasks,
//! the ready-to-run queue of an unordered set of futures, the state machine
//! of the `all` stream combinator and the flushing rule of channel senders.
#![allow(unused_imports)]

pub mod abortable;
pub mod all;
pub mod poll;
pub mod ready_to_run_queue;
pub mod sink;
