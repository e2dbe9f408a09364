use vstd::prelude::*;

verus! {

/// What taking a task out of the ready-to-run queue gave.
#[derive(Clone, Copy, Debug, PartialEq, Eq, Structural)]
pub enum Dequeue {
    /// The task at the front of the queue, now removed from it.
    Data(usize),
    /// No task can be taken.
    Empty,
    /// A producer has swapped itself in as the head but not yet linked its
    /// predecessor to itself; the caller should retry.
    Inconsistent,
}

/// What the first part of a dequeue gave.
#[derive(Clone, Copy, Debug, PartialEq, Eq, Structural)]
pub enum DequeueStart {
    /// The dequeue is over, with this result.
    Done(Dequeue),
    /// The given task is the only one in the list: the stub has to be put
    /// back behind it, by `dequeue_finish`, before it can be taken.
    StubNeeded(usize),
}

/// An enqueue that has swapped `task` in as the head of the queue and has
/// yet to link `prev`, the former head, to it.
#[derive(Clone, Copy, Debug, PartialEq, Eq, Structural)]
pub struct Link {
    pub prev: usize,
    pub task: usize,
}

/// One operation on the queue, as the laws below see it.
pub enum QueueStep {
    /// A whole enqueue of a task.
    Enqueue(usize),
    /// The first step of an enqueue, which gave this link.
    Begin(Link),
    /// The second step of an enqueue, with this link.
    End(Link),
    /// A whole dequeue, with this result.
    Take(Dequeue),
    /// The first part of a dequeue, with this result.
    TakeStart(DequeueStart),
    /// The second part of a dequeue: the task it was for, and its result.
    TakeFinish(usize, Dequeue),
}

/// The task a dequeue result hands out, if any.
pub open spec fn handed_out(r: Dequeue) -> Seq<usize> {
    match r {
        Dequeue::Data(t) => seq![t],
        _ => Seq::empty(),
    }
}

/// The tasks an operation puts into the queue.
pub open spec fn added(s: QueueStep) -> Seq<usize> {
    match s {
        QueueStep::Enqueue(t) => seq![t],
        QueueStep::Begin(l) => seq![l.task],
        _ => Seq::empty(),
    }
}

/// The tasks an operation takes out of the queue.
pub open spec fn taken(s: QueueStep) -> Seq<usize> {
    match s {
        QueueStep::Take(r) => handed_out(r),
        QueueStep::TakeStart(DequeueStart::Done(r)) => handed_out(r),
        QueueStep::TakeFinish(_, r) => handed_out(r),
        _ => Seq::empty(),
    }
}

/// All the tasks a run of operations puts in, in order.
pub open spec fn added_all(steps: Seq<QueueStep>) -> Seq<usize>
    decreases steps.len(),
{
    if steps.len() == 0 {
        Seq::empty()
    } else {
        added_all(steps.drop_last()) + added(steps.last())
    }
}

/// All the tasks a run of operations takes out, in order.
pub open spec fn taken_all(steps: Seq<QueueStep>) -> Seq<usize>
    decreases steps.len(),
{
    if steps.len() == 0 {
        Seq::empty()
    } else {
        taken_all(steps.drop_last()) + taken(steps.last())
    }
}

/// The items of a list of nodes, `spos` being the position of the stub in
/// it, or -1.
pub open spec fn items_of(o: Seq<usize>, spos: int) -> Seq<usize> {
    if spos >= 0 {
        o.remove(spos)
    } else {
        o
    }
}

/// The intrusive multi-producer, single-consumer queue into which the tasks
/// of an unordered set of futures are put whenever they are woken.
///
/// Tasks are named by their indices `0..n`, and index `n` is the stub task,
/// which keeps the list from ever being empty. `next[t]` is the link from
/// task `t` to the one enqueued after it. An enqueue is two steps: swap the
/// task in as the head, then link the former head to it; between the two
/// the list is broken, and a consumer that reaches the break sees the queue
/// as inconsistent. A dequeue that has to put the stub back is two parts
/// too, and producers may swap themselves in between them.
pub struct ReadyToRunQueue {
    next: Vec<Option<usize>>,
    head: usize,
    tail: usize,
    stub: usize,
    /// The nodes of the list, from the tail to the head, in the order in
    /// which they were swapped in.
    order: Ghost<Seq<usize>>,
    /// The position of the stub in `order`, or -1 when it is not there.
    spos: Ghost<int>,
}

/// When no enqueue is half done, taking from the queue gives its front task,
/// and `Empty` exactly when it holds none.
pub proof fn law_quiescent_dequeue(q: ReadyToRunQueue)
    requires
        q.wf(),
        q.quiescent(),
    ensures
        q.dequeue_outcome() == (if q.items().len() == 0 {
            Dequeue::Empty
        } else {
            Dequeue::Data(q.items()[0])
        }),
{
}

/// The queue is found inconsistent only while an enqueue is half done.
pub proof fn law_inconsistent_only_mid_enqueue(q: ReadyToRunQueue)
    requires
        q.wf(),
        q.dequeue_outcome() == Dequeue::Inconsistent,
    ensures
        !q.quiescent(),
{
}

/// The stub is never handed out as a task, and no task is in the queue
/// twice.
pub proof fn law_stub_never_dequeued(q: ReadyToRunQueue)
    requires
        q.wf(),
    ensures
        q.dequeue_outcome() != Dequeue::Data(q.stub_id()),
        forall|i: int| 0 <= i < q.items().len() ==> q.items()[i] != q.stub_id(),
        q.items().no_duplicates(),
{
    q.lemma_items();
}

/// The node swapped in last is the stub or the last task in the queue.
pub proof fn law_last_node(q: ReadyToRunQueue)
    requires
        q.wf(),
    ensures
        q.last_node() == q.stub_id() || (q.items().len() > 0 && q.last_node() == q.items().last()),
{
    q.lemma_items_index();
}

/// Under any interleaving of enqueues, their steps, and dequeues, no task is
/// lost or duplicated: what was taken out, followed by what is left, is what
/// was there, followed by what was put in, in the order it was put in. So
/// the tasks of each producer come out in the order that producer put them
/// in.
pub proof fn law_no_task_lost_or_duplicated(qs: Seq<ReadyToRunQueue>, steps: Seq<QueueStep>)
    requires
        qs.len() == steps.len() + 1,
        forall|i: int| 0 <= i < steps.len() ==> #[trigger] ReadyToRunQueue::step(qs[i], steps[i], qs[i + 1]),
    ensures
        taken_all(steps) + qs.last().items() == qs[0].items() + added_all(steps),
    decreases steps.len(),
{
    if steps.len() > 0 {
        let n = steps.len() - 1;
        law_no_task_lost_or_duplicated(qs.drop_last(), steps.drop_last());
        assert(ReadyToRunQueue::step(qs[n], steps[n], qs[n + 1]));
        assert(qs.drop_last().last() == qs[n]);
        assert(qs.drop_last()[0] == qs[0]);
        assert(steps.drop_last().len() == n);
        let a = taken_all(steps.drop_last());
        let b = added_all(steps.drop_last());
        assert(a + qs[n].items() == qs[0].items() + b);
        assert(taken(steps[n]) + qs[n + 1].items() == qs[n].items() + added(steps[n]));
        assert(taken_all(steps) == a + taken(steps[n]));
        assert(added_all(steps) == b + added(steps[n]));
        assert((a + taken(steps[n])) + qs[n + 1].items() =~= a + (taken(steps[n]) + qs[n + 1].items()));
        assert(a + (qs[n].items() + added(steps[n])) =~= (a + qs[n].items()) + added(steps[n]));
        assert((qs[0].items() + b) + added(steps[n]) =~= qs[0].items() + (b + added(steps[n])));
    }
}

/// First in, first out: in a run of whole enqueues and dequeues that starts
/// with no enqueue half done, none is ever half done, each dequeue gives the
/// task at the front of the queue, or `Empty` exactly when the queue holds
/// none, and the tasks come out in the order in which they went in.
pub proof fn law_fifo(qs: Seq<ReadyToRunQueue>, steps: Seq<QueueStep>)
    requires
        qs.len() == steps.len() + 1,
        qs[0].quiescent(),
        forall|i: int| 0 <= i < steps.len() ==> #[trigger] ReadyToRunQueue::step(qs[i], steps[i], qs[i + 1]),
        forall|i: int| 0 <= i < steps.len() ==> (#[trigger] steps[i] is Enqueue || steps[i] is Take),
    ensures
        forall|i: int| 0 <= i < qs.len() ==> (#[trigger] qs[i]).quiescent(),
        forall|i: int|
            0 <= i < steps.len() ==> (#[trigger] steps[i] matches QueueStep::Take(r) ==> r == (if qs[i].items().len() == 0 {
                Dequeue::Empty
            } else {
                Dequeue::Data(qs[i].items()[0])
            })),
        taken_all(steps) + qs.last().items() == qs[0].items() + added_all(steps),
    decreases steps.len(),
{
    law_no_task_lost_or_duplicated(qs, steps);
    if steps.len() > 0 {
        let n = steps.len() - 1;
        assert forall|i: int| 0 <= i < steps.drop_last().len() implies #[trigger] ReadyToRunQueue::step(
            qs.drop_last()[i],
            steps.drop_last()[i],
            qs.drop_last()[i + 1],
        ) by {
            assert(ReadyToRunQueue::step(qs[i], steps[i], qs[i + 1]));
        }
        assert forall|i: int| 0 <= i < steps.drop_last().len() implies (#[trigger] steps.drop_last()[i] is Enqueue
            || steps.drop_last()[i] is Take) by {
            assert(steps[i] is Enqueue || steps[i] is Take);
        }
        law_fifo(qs.drop_last(), steps.drop_last());
        assert(qs.drop_last()[n] == qs[n]);
        assert(qs[n].quiescent());
        assert(ReadyToRunQueue::step(qs[n], steps[n], qs[n + 1]));
        assert(steps[n] is Enqueue || steps[n] is Take);
        assert forall|p: usize, t: usize| !#[trigger] qs[n + 1].pending(p, t) by {
            assert(!qs[n].pending(p, t));
        }
        assert forall|i: int| 0 <= i < qs.len() implies (#[trigger] qs[i]).quiescent() by {
            if i < n + 1 {
                assert(qs.drop_last()[i] == qs[i]);
            }
        }
        assert forall|i: int|
            0 <= i < steps.len() implies (#[trigger] steps[i] matches QueueStep::Take(r) ==> r == (if qs[i].items().len() == 0 {
                Dequeue::Empty
            } else {
                Dequeue::Data(qs[i].items()[0])
            })) by {
            if i < n {
                assert(steps.drop_last()[i] == steps[i]);
                assert(qs.drop_last()[i] == qs[i]);
            } else {
                assert(ReadyToRunQueue::step(qs[i], steps[i], qs[i + 1]));
                law_quiescent_dequeue(qs[i]);
            }
        }
    }
}

impl ReadyToRunQueue {
    /// The index of the stub task.
    pub closed spec fn stub_id(&self) -> usize {
        self.stub
    }

    /// Whether `t` names a task of the queue other than the stub.
    pub open spec fn valid_task(&self, t: usize) -> bool {
        t < self.stub_id()
    }

    /// The tasks in the queue, from the one to be taken first to the one
    /// enqueued last.
    pub closed spec fn items(&self) -> Seq<usize> {
        items_of(self.order@, self.spos@)
    }

    /// The node swapped in last: the head of the list.
    pub closed spec fn last_node(&self) -> usize {
        self.head
    }

    /// Whether the stub is in the list.
    pub closed spec fn stub_queued(&self) -> bool {
        self.spos@ >= 0
    }

    /// Whether the stub is in the list behind some task.
    pub closed spec fn stub_behind_tasks(&self) -> bool {
        self.spos@ > 0
    }

    /// Whether an enqueue has swapped `task` in after `prev` and has not yet
    /// linked `prev` to it.
    pub closed spec fn pending(&self, prev: usize, task: usize) -> bool {
        exists|i: int|
            #![trigger self.order@[i]]
            0 <= i < self.order@.len() - 1 && self.order@[i] == prev && self.order@[i + 1] == task
                && self.next@[prev as int] is None
    }

    /// No enqueue is half done.
    pub open spec fn quiescent(&self) -> bool {
        forall|p: usize, t: usize| !self.pending(p, t)
    }

    /// The queue's internal consistency.
    pub closed spec fn wf(&self) -> bool {
        let o = self.order@;
        let s = self.spos@;
        &&& self.next.len() == self.stub + 1
        &&& o.len() >= 1
        &&& o[0] == self.tail
        &&& o.last() == self.head
        &&& o.no_duplicates()
        &&& forall|i: int| 0 <= i < o.len() ==> #[trigger] o[i] < self.next.len()
        &&& -1 <= s < o.len()
        &&& s >= 0 ==> o[s] == self.stub
        &&& s == -1 ==> forall|i: int| 0 <= i < o.len() ==> #[trigger] o[i] != self.stub
        &&& forall|i: int|
            0 <= i < o.len() - 1 ==> (#[trigger] self.next@[o[i] as int] == Some(o[i + 1])
                || self.next@[o[i] as int] is None)
        &&& forall|i: int|
            0 <= i < o.len() - 1 && #[trigger] o[i + 1] == self.stub ==> self.next@[o[i] as int]
                == Some(self.stub)
        &&& self.next@[self.head as int] is None
    }

    /// What `dequeue` gives in a given state.
    pub open spec fn dequeue_outcome(&self) -> Dequeue {
        let items = self.items();
        if items.len() == 0 {
            Dequeue::Empty
        } else if self.pending(self.stub_id(), items[0]) {
            Dequeue::Empty
        } else if items.len() > 1 && self.pending(items[0], items[1]) {
            Dequeue::Inconsistent
        } else {
            Dequeue::Data(items[0])
        }
    }

    /// The effect of one operation, from state `q` to state `q2`: what the
    /// operations below ensure, and the laws above rest on.
    pub open spec fn step(q: Self, s: QueueStep, q2: Self) -> bool {
        &&& q.wf()
        &&& q2.wf()
        &&& q2.stub_id() == q.stub_id()
        &&& taken(s) + q2.items() == q.items() + added(s)
        &&& match s {
            QueueStep::Enqueue(t) => q.valid_task(t) && !q.items().contains(t) && (forall|
                p: usize,
                x: usize,
            | #[trigger] q2.pending(p, x) <==> q.pending(p, x)),
            QueueStep::Begin(l) => q.valid_task(l.task) && !q.items().contains(l.task) && (forall|
                p: usize,
                x: usize,
            |
                #[trigger] q2.pending(p, x) <==> (q.pending(p, x) || (p == l.prev && x == l.task))),
            QueueStep::End(l) => q.pending(l.prev, l.task) && (forall|p: usize, x: usize|
                #[trigger] q2.pending(p, x) <==> (q.pending(p, x) && p != l.prev)),
            QueueStep::Take(r) => r == q.dequeue_outcome() && (forall|p: usize, x: usize|
                #[trigger] q2.pending(p, x) <==> q.pending(p, x)),
            QueueStep::TakeStart(d) => (match d {
                DequeueStart::Done(r) => r == q.dequeue_outcome(),
                DequeueStart::StubNeeded(t) => q.dequeue_outcome() == Dequeue::Data(t),
            }) && (forall|p: usize, x: usize| #[trigger] q2.pending(p, x) <==> q.pending(p, x)),
            QueueStep::TakeFinish(t, r) => q.items().len() >= 1 && q.items()[0] == t
                && !q.stub_queued() && r == q.dequeue_outcome() && (forall|p: usize, x: usize|
                #[trigger] q2.pending(p, x) <==> q.pending(p, x)),
        }
    }

    /// An empty queue for the tasks `0..n`, the stub being task `n`.
    pub fn new(n: usize) -> (q: Self)
        requires
            n < usize::MAX,
        ensures
            q.wf(),
            q.stub_id() == n,
            q.items() == Seq::<usize>::empty(),
            q.quiescent(),
            q.last_node() == n,
    {
        let mut next: Vec<Option<usize>> = Vec::new();
        let mut i: usize = 0;
        while i <= n
            invariant
                i <= n + 1,
                n < usize::MAX,
                next.len() == i,
                forall|j: int| 0 <= j < i ==> next@[j] is None,
            decreases n + 1 - i,
        {
            next.push(None);
            i = i + 1;
        }
        let order: Ghost<Seq<usize>> = Ghost(Seq::empty().push(n));
        let spos: Ghost<int> = Ghost(0int);
        let q = ReadyToRunQueue { next, head: n, tail: n, stub: n, order, spos };
        assert(q.items() =~= Seq::<usize>::empty());
        q
    }

    /// The index of the stub task.
    pub fn stub(&self) -> (s: usize)
        ensures
            s == self.stub_id(),
    {
        self.stub
    }

    /// First step of an enqueue: `task`'s link is cleared and `task` is
    /// swapped in as the head. The former head is linked to it by
    /// `enqueue_end` with the returned link.
    pub fn enqueue_begin(&mut self, task: usize) -> (link: Link)
        requires
            old(self).wf(),
            old(self).valid_task(task),
            !old(self).items().contains(task),
        ensures
            Self::step(*old(self), QueueStep::Begin(link), *final(self)),
            final(self).items() == old(self).items().push(task),
            final(self).stub_queued() == old(self).stub_queued(),
            final(self).stub_behind_tasks() == old(self).stub_behind_tasks(),
            link.task == task,
            link.prev == old(self).last_node(),
            final(self).last_node() == task,
            forall|t: usize| !old(self).pending(link.prev, t),
            forall|p: usize, t: usize|
                #[trigger] final(self).pending(p, t) <==> (old(self).pending(p, t) || (p
                    == link.prev && t == link.task)),
    {
        let ghost o = self.order@;
        let ghost s = self.spos@;
        let ghost old_q = *self;
        proof { old_q.lemma_items(); }
        self.next.set(task, None);
        let prev = self.head;
        self.head = task;
        self.order = Ghost(o.push(task));
        let ghost n = self.order@;
        assert(!o.contains(task)) by {
            if o.contains(task) {
                let k = choose|k: int| 0 <= k < o.len() && o[k] == task;
                assert(old_q.items().contains(o[k]));
            }
        }
        assert forall|i: int| 0 <= i < n.len() - 1 implies (#[trigger] self.next@[n[i] as int]
            == Some(n[i + 1]) || self.next@[n[i] as int] is None) by {
            if i < o.len() - 1 {
                assert(n[i] == o[i]);
                assert(old_q.next@[o[i] as int] == Some(o[i + 1]) || old_q.next@[o[i] as int] is None);
            }
        }
        assert forall|i: int| 0 <= i < n.len() - 1 && #[trigger] n[i + 1] == self.stub implies self.next@[n[i] as int]
            == Some(self.stub) by {
            if i < o.len() - 1 {
                assert(n[i] == o[i] && n[i + 1] == o[i + 1]);
            }
        }
        assert(self.items() =~= old_q.items().push(task));
        assert forall|p: usize, t: usize|
            #[trigger] self.pending(p, t) <==> (old_q.pending(p, t) || (p == prev && t == task)) by {
            if self.pending(p, t) {
                let i = choose|i: int|
                    #![trigger n[i]]
                    0 <= i < n.len() - 1 && n[i] == p && n[i + 1] == t && self.next@[p as int] is None;
                if i < o.len() - 1 {
                    assert(o[i] == p && o[i + 1] == t);
                    assert(old_q.pending(p, t));
                }
            }
            if old_q.pending(p, t) {
                let i = choose|i: int|
                    #![trigger o[i]]
                    0 <= i < o.len() - 1 && o[i] == p && o[i + 1] == t && old_q.next@[p as int] is None;
                assert(n[i] == p && n[i + 1] == t);
                assert(self.pending(p, t));
            }
            if p == prev && t == task {
                assert(n[o.len() - 1] == p);
                assert(self.pending(p, t));
            }
        }
        assert forall|t: usize| !old_q.pending(prev, t) by {
            if old_q.pending(prev, t) {
                let i = choose|i: int|
                    #![trigger o[i]]
                    0 <= i < o.len() - 1 && o[i] == prev && o[i + 1] == t && old_q.next@[prev as int] is None;
                assert(o[o.len() - 1] == prev);
            }
        }
        let link = Link { prev, task };
        assert(taken(QueueStep::Begin(link)) + self.items() =~= old_q.items() + added(QueueStep::Begin(link)));
        link
    }

    /// Second step of an enqueue: links the former head to the task that
    /// was swapped in after it.
    pub fn enqueue_end(&mut self, link: Link)
        requires
            old(self).wf(),
            old(self).pending(link.prev, link.task),
        ensures
            Self::step(*old(self), QueueStep::End(link), *final(self)),
            final(self).items() == old(self).items(),
            final(self).last_node() == old(self).last_node(),
            final(self).stub_queued() == old(self).stub_queued(),
            final(self).stub_behind_tasks() == old(self).stub_behind_tasks(),
            forall|p: usize, t: usize|
                #[trigger] final(self).pending(p, t) <==> (old(self).pending(p, t) && p
                    != link.prev),
    {
        let ghost o = self.order@;
        let ghost old_q = *self;
        let ghost k = choose|i: int|
            #![trigger o[i]]
            0 <= i < o.len() - 1 && o[i] == link.prev && o[i + 1] == link.task
                && old_q.next@[link.prev as int] is None;
        self.next.set(link.prev, Some(link.task));
        assert forall|i: int| 0 <= i < o.len() - 1 implies (#[trigger] self.next@[o[i] as int]
            == Some(o[i + 1]) || self.next@[o[i] as int] is None) by {
            if o[i] == link.prev {
                assert(i == k);
            } else {
                assert(old_q.next@[o[i] as int] == Some(o[i + 1]) || old_q.next@[o[i] as int] is None);
            }
        }
        assert forall|i: int| 0 <= i < o.len() - 1 && #[trigger] o[i + 1] == self.stub implies self.next@[o[i] as int]
            == Some(self.stub) by {
            if o[i] == link.prev {
                assert(i == k);
                assert(old_q.next@[o[i] as int] == Some(old_q.stub));
            }
        }
        assert forall|p: usize, t: usize|
            #[trigger] self.pending(p, t) <==> (old_q.pending(p, t) && p != link.prev) by {
            if self.pending(p, t) {
                let i = choose|i: int|
                    #![trigger o[i]]
                    0 <= i < o.len() - 1 && o[i] == p && o[i + 1] == t && self.next@[p as int] is None;
                assert(old_q.pending(p, t));
            }
            if old_q.pending(p, t) && p != link.prev {
                let i = choose|i: int|
                    #![trigger o[i]]
                    0 <= i < o.len() - 1 && o[i] == p && o[i + 1] == t && old_q.next@[p as int] is None;
                assert(self.next@[p as int] == old_q.next@[p as int]);
                assert(self.order@[i] == p);
                assert(self.pending(p, t));
            }
        }
        assert(taken(QueueStep::End(link)) + self.items() =~= old_q.items() + added(QueueStep::End(link)));
    }

    /// Puts `task` at the back of the queue: the enqueue function of the
    /// 1024cores intrusive MPSC queue, both of its steps.
    pub fn enqueue(&mut self, task: usize)
        requires
            old(self).wf(),
            old(self).valid_task(task),
            !old(self).items().contains(task),
        ensures
            Self::step(*old(self), QueueStep::Enqueue(task), *final(self)),
            final(self).items() == old(self).items().push(task),
            final(self).last_node() == task,
            final(self).stub_queued() == old(self).stub_queued(),
            final(self).stub_behind_tasks() == old(self).stub_behind_tasks(),
            forall|p: usize, t: usize| #[trigger] final(self).pending(p, t) <==> old(self).pending(p, t),
    {
        let ghost old_q = *self;
        let link = self.enqueue_begin(task);
        let ghost mid = *self;
        self.enqueue_end(link);
        assert forall|p: usize, t: usize| #[trigger] self.pending(p, t) <==> old_q.pending(p, t) by {
            assert(mid.pending(p, t) <==> (old_q.pending(p, t) || (p == link.prev && t == link.task)));
            assert(self.pending(p, t) <==> (mid.pending(p, t) && p != link.prev));
            if old_q.pending(p, t) && p == link.prev {
                assert(!old_q.pending(link.prev, t));
            }
        }
        assert(taken(QueueStep::Enqueue(task)) + self.items() =~= old_q.items() + added(QueueStep::Enqueue(task)));
    }

    /// First part of a dequeue, the dequeue function of the 1024cores
    /// intrusive MPSC queue up to the point where the stub has to be put
    /// back: the stub at the front is skipped, and the task at the front is
    /// taken if it is linked to a successor. When it is the only task left,
    /// the stub has to be put back behind it first, by `dequeue_finish`.
    pub fn dequeue_start(&mut self) -> (r: DequeueStart)
        requires
            old(self).wf(),
        ensures
            Self::step(*old(self), QueueStep::TakeStart(r), *final(self)),
            final(self).last_node() == old(self).last_node(),
            r matches DequeueStart::Done(d) ==> d == old(self).dequeue_outcome(),
            r matches DequeueStart::StubNeeded(t) ==> old(self).dequeue_outcome() == Dequeue::Data(t)
                && old(self).items() == seq![t] && final(self).items() == old(self).items()
                && !final(self).stub_queued(),
            (r is StubNeeded) <==> (old(self).dequeue_outcome() is Data && old(self).items().len() == 1
                && !old(self).stub_behind_tasks()),
            r matches DequeueStart::Done(Dequeue::Data(_)) ==> final(self).items() == old(self).items().drop_first(),
            !(r matches DequeueStart::Done(Dequeue::Data(_))) ==> final(self).items() == old(self).items(),
            forall|p: usize, t: usize| #[trigger] final(self).pending(p, t) <==> old(self).pending(p, t),
    {
        let ghost old_q = *self;
        let ghost o = self.order@;
        let ghost s = self.spos@;
        proof { old_q.lemma_items_index(); }
        let mut tail = self.tail;
        let mut next = self.next[tail];
        if tail == self.stub {
            match next {
                None => {
                    assert(old_q.items().len() == 0 || old_q.pending(old_q.stub, old_q.items()[0])) by {
                        if o.len() > 1 {
                            assert(o[0] == old_q.stub && o[1] == old_q.items()[0]);
                        }
                    }
                    let r = DequeueStart::Done(Dequeue::Empty);
                    assert(taken(QueueStep::TakeStart(r)) + self.items() =~= old_q.items() + added(QueueStep::TakeStart(r)));
                    return r;
                },
                Some(n) => {
                    assert(o.len() > 1);
                    assert(!old_q.pending(old_q.stub, old_q.items()[0])) by {
                        if old_q.pending(old_q.stub, old_q.items()[0]) {
                            let i = choose|i: int|
                                #![trigger o[i]]
                                0 <= i < o.len() - 1 && o[i] == old_q.stub && o[i + 1] == old_q.items()[0]
                                    && old_q.next@[old_q.stub as int] is None;
                        }
                    }
                    self.tail = n;
                    tail = n;
                    next = self.next[n];
                    self.order = Ghost(o.drop_first());
                    self.spos = Ghost(-1int);
                },
            }
        } else {
            assert(s != 0);
            assert(old_q.items().len() == 0 || !old_q.pending(old_q.stub, old_q.items()[0])) by {
                if old_q.items().len() > 0 && old_q.pending(old_q.stub, old_q.items()[0]) {
                    let i = choose|i: int|
                        #![trigger o[i]]
                        0 <= i < o.len() - 1 && o[i] == old_q.stub && o[i + 1] == old_q.items()[0]
                            && old_q.next@[old_q.stub as int] is None;
                    assert(old_q.items()[0] == o[0]);
                    assert(o[i + 1] == o[0]);
                }
            }
        }
        let ghost m = self.order@;
        let ghost ms = self.spos@;
        let ghost k: int = if o[0] == old_q.stub { 1 } else { 0 };
        assert(m =~= o.skip(k));
        assert(items_of(m, ms) =~= old_q.items()) by {
            if k == 1 {
                assert(s == 0);
                o.remove_ensures(0);
            } else if s > 0 {
                o.remove_ensures(s);
            }
        }
        assert(m[0] != old_q.stub);
        assert(old_q.items().len() > 0 && old_q.items()[0] == m[0]);
        if let Some(n) = next {
            // the front task is linked to its successor
            assert(m.len() > 1);
            assert(old_q.items().len() == 1 || !old_q.pending(m[0], old_q.items()[1])) by {
                if old_q.items().len() > 1 && old_q.pending(m[0], old_q.items()[1]) {
                    let i = choose|i: int|
                        #![trigger o[i]]
                        0 <= i < o.len() - 1 && o[i] == m[0] && o[i + 1] == old_q.items()[1]
                            && old_q.next@[m[0] as int] is None;
                }
            }
            self.tail = n;
            self.order = Ghost(m.drop_first());
            self.spos = Ghost(if ms > 0 { ms - 1 } else { -1 });
            proof {
                assert(self.order@ =~= o.skip(k + 1));
                self.lemma_pending_suffix(old_q, k + 1);
                if ms > 0 {
                    m.remove_ensures(ms);
                    m.drop_first().remove_ensures(ms - 1);
                    assert(self.items() =~= old_q.items().drop_first());
                } else {
                    assert(self.items() =~= old_q.items().drop_first());
                }
            }
            let r = DequeueStart::Done(Dequeue::Data(tail));
            assert(taken(QueueStep::TakeStart(r)) + self.items() =~= old_q.items() + added(QueueStep::TakeStart(r)));
            return r;
        }
        if self.head != tail {
            assert(m.len() > 1);
            assert(m[1] != old_q.stub);
            assert(ms != 1);
            assert(old_q.items().len() > 1 && old_q.items()[1] == m[1]) by {
                if ms > 1 {
                    m.remove_ensures(ms);
                }
            }
            assert(old_q.pending(m[0], m[1])) by {
                assert(o[k] == m[0] && o[k + 1] == m[1]);
            }
            proof {
                self.lemma_pending_suffix(old_q, k);
            }
            let r = DequeueStart::Done(Dequeue::Inconsistent);
            assert(taken(QueueStep::TakeStart(r)) + self.items() =~= old_q.items() + added(QueueStep::TakeStart(r)));
            return r;
        }
        assert(m.len() == 1);
        assert(ms == -1);
        proof {
            self.lemma_pending_suffix(old_q, k);
        }
        assert(old_q.items() =~= seq![tail]);
        let r = DequeueStart::StubNeeded(tail);
        assert(taken(QueueStep::TakeStart(r)) + self.items() =~= old_q.items() + added(QueueStep::TakeStart(r)));
        r
    }

    /// Second part of a dequeue that found `t` the only task left: the stub
    /// is put back behind the head, both steps of an enqueue, and `t` is
    /// taken if it is now linked to a successor. Producers that swapped
    /// themselves in since the first part and have not yet linked `t` to
    /// their task make the queue inconsistent.
    pub fn dequeue_finish(&mut self, t: usize) -> (r: Dequeue)
        requires
            old(self).wf(),
            old(self).items().len() >= 1,
            old(self).items()[0] == t,
            !old(self).stub_queued(),
        ensures
            Self::step(*old(self), QueueStep::TakeFinish(t, r), *final(self)),
            r == old(self).dequeue_outcome(),
            r is Data ==> r == Dequeue::Data(t) && final(self).items() == old(self).items().drop_first(),
            !(r is Data) ==> final(self).items() == old(self).items(),
            final(self).stub_queued(),
            final(self).last_node() == old(self).stub_id(),
            forall|p: usize, x: usize| #[trigger] final(self).pending(p, x) <==> old(self).pending(p, x),
    {
        let ghost old_q = *self;
        let ghost o = self.order@;
        proof { old_q.lemma_items_index(); }
        assert(o[0] == t);
        assert(!old_q.pending(old_q.stub, t)) by {
            if old_q.pending(old_q.stub, t) {
                let i = choose|i: int|
                    #![trigger o[i]]
                    0 <= i < o.len() - 1 && o[i] == old_q.stub && o[i + 1] == t
                        && old_q.next@[old_q.stub as int] is None;
            }
        }
        let stub = self.stub;
        self.next.set(stub, None);
        let prev = self.head;
        self.head = stub;
        self.next.set(prev, Some(stub));
        self.order = Ghost(o.push(stub));
        self.spos = Ghost(o.len() as int);
        let ghost n = self.order@;
        let ghost x = *self;
        assert forall|i: int| 0 <= i < n.len() - 1 implies (#[trigger] self.next@[n[i] as int]
            == Some(n[i + 1]) || self.next@[n[i] as int] is None) by {
            if i < o.len() - 1 {
                assert(n[i] == o[i] && n[i + 1] == o[i + 1]);
                assert(old_q.next@[o[i] as int] == Some(o[i + 1]) || old_q.next@[o[i] as int] is None);
            }
        }
        assert forall|p: usize, y: usize| #[trigger] x.pending(p, y) <==> old_q.pending(p, y) by {
            if x.pending(p, y) {
                let i = choose|i: int|
                    #![trigger n[i]]
                    0 <= i < n.len() - 1 && n[i] == p && n[i + 1] == y && x.next@[p as int] is None;
                assert(i < o.len() - 1);
                assert(o[i] == p && o[i + 1] == y);
            }
            if old_q.pending(p, y) {
                let i = choose|i: int|
                    #![trigger o[i]]
                    0 <= i < o.len() - 1 && o[i] == p && o[i + 1] == y && old_q.next@[p as int] is None;
                assert(n[i] == p && n[i + 1] == y);
            }
        }
        assert(x.wf());
        assert(items_of(n, o.len() as int) =~= o) by {
            n.remove_ensures(o.len() as int);
        }
        let next = self.next[t];
        match next {
            Some(nx) => {
                assert(o.len() == 1 || !old_q.pending(t, o[1])) by {
                    if o.len() > 1 {
                        assert(x.next@[t as int] == old_q.next@[t as int]);
                    }
                }
                self.tail = nx;
                self.order = Ghost(n.drop_first());
                self.spos = Ghost(o.len() - 1);
                proof {
                    assert(self.order@ =~= n.skip(1));
                    self.lemma_pending_suffix(x, 1);
                    n.drop_first().remove_ensures(o.len() - 1);
                    assert(self.items() =~= old_q.items().drop_first());
                }
                let r = Dequeue::Data(t);
                assert(taken(QueueStep::TakeFinish(t, r)) + self.items() =~= old_q.items() + added(QueueStep::TakeFinish(t, r)));
                r
            },
            None => {
                assert(o.len() > 1);
                assert(old_q.pending(t, o[1])) by {
                    assert(x.next@[t as int] == old_q.next@[t as int]);
                    assert(o[0] == t);
                }
                let r = Dequeue::Inconsistent;
                assert(taken(QueueStep::TakeFinish(t, r)) + self.items() =~= old_q.items() + added(QueueStep::TakeFinish(t, r)));
                r
            },
        }
    }

    /// Takes the task at the front of the queue: the dequeue function of the
    /// 1024cores intrusive MPSC queue, both of its parts. The stub is
    /// skipped, and put back when the last task is taken, so that the list
    /// never becomes empty.
    pub fn dequeue(&mut self) -> (r: Dequeue)
        requires
            old(self).wf(),
        ensures
            Self::step(*old(self), QueueStep::Take(r), *final(self)),
            r == old(self).dequeue_outcome(),
            final(self).last_node() == (if r is Data && old(self).items().len() == 1
                && !old(self).stub_behind_tasks() {
                old(self).stub_id()
            } else {
                old(self).last_node()
            }),
            r matches Dequeue::Data(_) ==> final(self).items() == old(self).items().drop_first(),
            !(r is Data) ==> final(self).items() == old(self).items(),
            forall|p: usize, t: usize| #[trigger] final(self).pending(p, t) <==> old(self).pending(p, t),
    {
        let ghost old_q = *self;
        match self.dequeue_start() {
            DequeueStart::Done(d) => {
                assert(taken(QueueStep::Take(d)) =~= taken(QueueStep::TakeStart(DequeueStart::Done(d))));
                d
            },
            DequeueStart::StubNeeded(t) => {
                let ghost mid = *self;
                proof { mid.lemma_items_index(); }
                let r = self.dequeue_finish(t);
                assert(mid.pending(mid.stub_id(), t) == old_q.pending(old_q.stub_id(), t));
                assert(mid.dequeue_outcome() == old_q.dequeue_outcome());
                assert(taken(QueueStep::Take(r)) + self.items() =~= old_q.items() + added(QueueStep::Take(r)));
                r
            },
        }
    }

    /// Empties the queue, handing back the tasks it held in the order in
    /// which they would have been taken, so that the caller can release
    /// them. The caller has the queue to itself, so no enqueue is half done
    /// and the queue is never found inconsistent.
    pub fn clear(&mut self) -> (released: Vec<usize>)
        requires
            old(self).wf(),
            old(self).quiescent(),
        ensures
            final(self).wf(),
            final(self).stub_id() == old(self).stub_id(),
            final(self).quiescent(),
            final(self).items() == Seq::<usize>::empty(),
            released@ == old(self).items(),
    {
        let ghost all = self.items();
        let mut released: Vec<usize> = Vec::new();
        loop
            invariant
                self.wf(),
                self.stub_id() == old(self).stub_id(),
                self.quiescent(),
                all == released@ + self.items(),
            ensures
                self.wf(),
                self.stub_id() == old(self).stub_id(),
                self.quiescent(),
                self.items() == Seq::<usize>::empty(),
                released@ == all,
            decreases self.items().len(),
        {
            let ghost before = self.items();
            match self.dequeue() {
                Dequeue::Empty => {
                    assert(before.len() == 0 || self.pending(self.stub_id(), before[0]));
                    assert(released@ + before =~= released@);
                    break;
                },
                Dequeue::Inconsistent => {
                    assert(before.len() > 1 && self.pending(before[0], before[1]));
                    assert(false);
                    break;
                },
                Dequeue::Data(t) => {
                    released.push(t);
                    assert(released@ + self.items() =~= all) by {
                        assert(self.items() =~= before.drop_first());
                    }
                },
            }
        }
        released
    }

    /// Dropping from the front of the list nodes whose links are published
    /// leaves the half-done enqueues as they were.
    proof fn lemma_pending_suffix(&self, old_q: Self, k: int)
        requires
            0 <= k < old_q.order@.len(),
            self.order@ == old_q.order@.skip(k),
            self.next@ == old_q.next@,
            forall|i: int| 0 <= i < k ==> (#[trigger] old_q.next@[old_q.order@[i] as int]) is Some,
        ensures
            forall|p: usize, t: usize| #[trigger] self.pending(p, t) <==> old_q.pending(p, t),
    {
        let o = old_q.order@;
        let n = self.order@;
        assert forall|p: usize, t: usize| #[trigger] self.pending(p, t) <==> old_q.pending(p, t) by {
            if self.pending(p, t) {
                let i = choose|i: int|
                    #![trigger n[i]]
                    0 <= i < n.len() - 1 && n[i] == p && n[i + 1] == t && self.next@[p as int] is None;
                assert(o[i + k] == p && o[i + k + 1] == t);
            }
            if old_q.pending(p, t) {
                let i = choose|i: int|
                    #![trigger o[i]]
                    0 <= i < o.len() - 1 && o[i] == p && o[i + 1] == t && old_q.next@[p as int] is None;
                if i < k {
                    assert(old_q.next@[o[i] as int] is Some);
                }
                assert(n[i - k] == p && n[i - k + 1] == t);
            }
        }
    }

    proof fn lemma_items_index(&self)
        requires
            self.wf(),
        ensures
            self.spos@ >= 0 ==> self.items().len() == self.order@.len() - 1,
            self.spos@ < 0 ==> self.items() == self.order@,
            forall|j: int|
                0 <= j < self.items().len() ==> #[trigger] self.items()[j] == (if self.spos@ >= 0 && j
                    >= self.spos@ {
                    self.order@[j + 1]
                } else {
                    self.order@[j]
                }),
    {
        if self.spos@ >= 0 {
            self.order@.remove_ensures(self.spos@);
        }
    }

    proof fn lemma_items(&self)
        requires
            self.wf(),
        ensures
            self.items().no_duplicates(),
            forall|i: int| 0 <= i < self.items().len() ==> self.items()[i] != self.stub_id(),
            forall|k: int|
                0 <= k < self.order@.len() && self.order@[k] != self.stub_id() ==> self.items().contains(
                    #[trigger] self.order@[k],
                ),
    {
        self.lemma_items_index();
        let o = self.order@;
        let s = self.spos@;
        let it = self.items();
        assert forall|i: int, j: int| 0 <= i < it.len() && 0 <= j < it.len() && i != j implies it[i]
            != it[j] by {
            let a = if s >= 0 && i >= s { i + 1 } else { i };
            let b = if s >= 0 && j >= s { j + 1 } else { j };
            assert(it[i] == o[a] && it[j] == o[b]);
        }
        assert forall|i: int| 0 <= i < it.len() implies it[i] != self.stub_id() by {
            let a = if s >= 0 && i >= s { i + 1 } else { i };
            assert(it[i] == o[a]);
        }
        assert forall|k: int| 0 <= k < o.len() && o[k] != self.stub_id() implies it.contains(#[trigger] o[k]) by {
            if s >= 0 && k > s {
                assert(it[k - 1] == o[k]);
            } else {
                assert(k != s);
                assert(it[k] == o[k]);
            }
        }
    }
}

} // verus!
