use futures_util::all::{All, AllStep};

/// Runs the `All` state machine over items whose predicate results are
/// `results`, the stream ending after them.
fn run(results: &[bool]) -> (bool, usize) {
    let mut all: All<Vec<bool>, bool, ()> = All::new(results.to_vec(), ());
    let mut next_item = 0usize;
    loop {
        assert!(!all.is_terminated());
        match all.next_step() {
            AllStep::PollFuture => {
                let res = all.future_mut().take().unwrap();
                *all.future_mut() = Some(res);
                if let Some(out) = all.future_ready(res) {
                    return (out, next_item);
                }
            }
            AllStep::PollStream => {
                if next_item < all.stream_mut().len() {
                    let item = all.stream_mut()[next_item];
                    next_item += 1;
                    all.item_future(item);
                } else {
                    return (all.stream_ended(), next_item);
                }
            }
        }
    }
}

#[test]
fn all_true_resolves_to_true() {
    assert_eq!(run(&[true, true, true]), (true, 3));
}

#[test]
fn empty_stream_resolves_to_true() {
    assert_eq!(run(&[]), (true, 0));
}

#[test]
fn first_false_stops_the_stream() {
    assert_eq!(run(&[true, false, true, true]), (false, 2));
    assert_eq!(run(&[false]), (false, 1));
}

#[test]
fn new_all_polls_the_stream() {
    let all: All<(), u8, ()> = All::new((), ());
    assert!(!all.is_terminated());
    assert_eq!(all.next_step(), AllStep::PollStream);
}

#[test]
fn item_puts_a_future_in_flight() {
    let mut all: All<(), u8, ()> = All::new((), ());
    all.item_future(4);
    assert_eq!(all.next_step(), AllStep::PollFuture);
    assert_eq!(*all.future_mut(), Some(4));
    assert_eq!(all.future_ready(true), None);
    assert_eq!(*all.future_mut(), None);
    assert!(!all.is_terminated());
    assert_eq!(all.next_step(), AllStep::PollStream);
}

#[test]
fn false_predicate_terminates() {
    let mut all: All<(), u8, ()> = All::new((), ());
    all.item_future(4);
    assert_eq!(all.future_ready(false), Some(false));
    assert!(all.is_terminated());
}

#[test]
fn stream_end_terminates_with_true() {
    let mut all: All<(), u8, u8> = All::new((), 3);
    assert!(all.stream_ended());
    assert!(all.is_terminated());
    assert_eq!(*all.predicate_mut(), 3);
}

#[test]
fn accessors_show_the_state() {
    let mut all: All<u8, u8, ()> = All::new(7, ());
    assert_eq!(*all.stream_ref(), 7);
    assert!(!all.is_done());
    assert_eq!(*all.future_ref(), None);
    all.item_future(2);
    assert_eq!(*all.future_ref(), Some(2));
    assert_eq!(all.future_ready(false), Some(false));
    assert!(all.is_done());
    assert_eq!(*all.future_ref(), None);
}
