use futures_util::ready_to_run_queue::{Dequeue, DequeueStart, ReadyToRunQueue};

#[test]
fn new_queue_is_empty() {
    let mut q = ReadyToRunQueue::new(4);
    assert_eq!(q.stub(), 4);
    assert_eq!(q.dequeue(), Dequeue::Empty);
    assert_eq!(q.dequeue(), Dequeue::Empty);
}

#[test]
fn tasks_come_out_in_order() {
    let mut q = ReadyToRunQueue::new(5);
    q.enqueue(3);
    q.enqueue(0);
    q.enqueue(4);
    assert_eq!(q.dequeue(), Dequeue::Data(3));
    assert_eq!(q.dequeue(), Dequeue::Data(0));
    assert_eq!(q.dequeue(), Dequeue::Data(4));
    assert_eq!(q.dequeue(), Dequeue::Empty);
}

#[test]
fn last_task_is_taken_and_queue_reused() {
    let mut q = ReadyToRunQueue::new(2);
    q.enqueue(1);
    assert_eq!(q.dequeue(), Dequeue::Data(1));
    assert_eq!(q.dequeue(), Dequeue::Empty);
    q.enqueue(1);
    q.enqueue(0);
    assert_eq!(q.dequeue(), Dequeue::Data(1));
    q.enqueue(1);
    assert_eq!(q.dequeue(), Dequeue::Data(0));
    assert_eq!(q.dequeue(), Dequeue::Data(1));
    assert_eq!(q.dequeue(), Dequeue::Empty);
}

#[test]
fn half_done_enqueue_makes_queue_inconsistent() {
    let mut q = ReadyToRunQueue::new(3);
    q.enqueue(1);
    let link = q.enqueue_begin(2);
    assert_eq!(link.task, 2);
    assert_eq!(link.prev, 1);
    assert_eq!(q.dequeue(), Dequeue::Inconsistent);
    assert_eq!(q.dequeue(), Dequeue::Inconsistent);
    q.enqueue_end(link);
    assert_eq!(q.dequeue(), Dequeue::Data(1));
    assert_eq!(q.dequeue(), Dequeue::Data(2));
    assert_eq!(q.dequeue(), Dequeue::Empty);
}

#[test]
fn half_done_first_enqueue_looks_empty() {
    let mut q = ReadyToRunQueue::new(3);
    let link = q.enqueue_begin(0);
    assert_eq!(link.prev, q.stub());
    assert_eq!(q.dequeue(), Dequeue::Empty);
    q.enqueue_end(link);
    assert_eq!(q.dequeue(), Dequeue::Data(0));
    assert_eq!(q.dequeue(), Dequeue::Empty);
}

#[test]
fn earlier_tasks_pass_a_later_half_done_enqueue() {
    let mut q = ReadyToRunQueue::new(4);
    q.enqueue(0);
    q.enqueue(1);
    let link = q.enqueue_begin(2);
    assert_eq!(q.dequeue(), Dequeue::Data(0));
    assert_eq!(q.dequeue(), Dequeue::Inconsistent);
    q.enqueue_end(link);
    assert_eq!(q.dequeue(), Dequeue::Data(1));
    assert_eq!(q.dequeue(), Dequeue::Data(2));
}

#[test]
fn clear_hands_back_the_tasks_in_order() {
    let mut q = ReadyToRunQueue::new(6);
    q.enqueue(5);
    q.enqueue(2);
    q.enqueue(0);
    assert_eq!(q.dequeue(), Dequeue::Data(5));
    q.enqueue(4);
    assert_eq!(q.clear(), vec![2, 0, 4]);
    assert_eq!(q.dequeue(), Dequeue::Empty);
    assert_eq!(q.clear(), Vec::<usize>::new());
}

#[test]
fn queue_with_no_tasks() {
    let mut q = ReadyToRunQueue::new(0);
    assert_eq!(q.stub(), 0);
    assert_eq!(q.dequeue(), Dequeue::Empty);
    assert_eq!(q.clear(), Vec::<usize>::new());
}

#[test]
fn producer_between_dequeue_parts_makes_queue_inconsistent() {
    let mut q = ReadyToRunQueue::new(3);
    q.enqueue(1);
    assert_eq!(q.dequeue_start(), DequeueStart::StubNeeded(1));
    let link = q.enqueue_begin(2);
    assert_eq!(link.prev, 1);
    assert_eq!(q.dequeue_finish(1), Dequeue::Inconsistent);
    q.enqueue_end(link);
    assert_eq!(q.dequeue(), Dequeue::Data(1));
    assert_eq!(q.dequeue(), Dequeue::Data(2));
    assert_eq!(q.dequeue(), Dequeue::Empty);
}

#[test]
fn finished_producer_between_dequeue_parts_is_passed() {
    let mut q = ReadyToRunQueue::new(3);
    q.enqueue(1);
    assert_eq!(q.dequeue_start(), DequeueStart::StubNeeded(1));
    q.enqueue(2);
    assert_eq!(q.dequeue_finish(1), Dequeue::Data(1));
    q.enqueue(0);
    assert_eq!(q.dequeue(), Dequeue::Data(2));
    assert_eq!(q.dequeue(), Dequeue::Data(0));
    assert_eq!(q.dequeue(), Dequeue::Empty);
}

#[test]
fn dequeue_start_takes_linked_front_task() {
    let mut q = ReadyToRunQueue::new(3);
    q.enqueue(0);
    q.enqueue(1);
    assert_eq!(q.dequeue_start(), DequeueStart::Done(Dequeue::Data(0)));
    assert_eq!(q.dequeue_start(), DequeueStart::StubNeeded(1));
    assert_eq!(q.dequeue_finish(1), Dequeue::Data(1));
    assert_eq!(q.dequeue_start(), DequeueStart::Done(Dequeue::Empty));
}

#[test]
fn interleaved_producers_lose_nothing() {
    let mut q = ReadyToRunQueue::new(6);
    let a = q.enqueue_begin(0);
    let b = q.enqueue_begin(3);
    q.enqueue_end(b);
    assert_eq!(q.dequeue(), Dequeue::Empty);
    q.enqueue_end(a);
    q.enqueue(5);
    assert_eq!(q.clear(), vec![0, 3, 5]);
}
