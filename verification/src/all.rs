use vstd::prelude::*;

verus! {

/// What the `All` future has to do next when it is polled.
#[derive(Clone, Copy, Debug, PartialEq, Eq, Structural)]
pub enum AllStep {
    /// Poll the future that computes the predicate of the current item.
    PollFuture,
    /// Poll the stream for its next item.
    PollStream,
}

/// The control state of `All`: whether it is done, and whether a predicate
/// future is in flight.
pub struct AllModel {
    pub done: bool,
    pub evaluating: bool,
}

/// The control state of a freshly created `All`.
pub open spec fn initial_model() -> AllModel {
    AllModel { done: false, evaluating: false }
}

/// Whether `All` has completed and must not be polled again.
pub open spec fn model_terminated(m: AllModel) -> bool {
    m.done && !m.evaluating
}

/// The step taken in a state that is not terminated.
pub open spec fn model_step(m: AllModel) -> AllStep {
    if m.evaluating {
        AllStep::PollFuture
    } else {
        AllStep::PollStream
    }
}

/// The predicate future resolved to `res`: a `false` ends `All` with
/// `false`, a `true` sends it back to the stream.
pub open spec fn model_future_ready(m: AllModel, res: bool) -> (AllModel, Option<bool>) {
    if res {
        (AllModel { done: m.done, evaluating: false }, None)
    } else {
        (AllModel { done: true, evaluating: false }, Some(false))
    }
}

/// The stream yielded an item, whose predicate future is now in flight.
pub open spec fn model_item(m: AllModel) -> AllModel {
    AllModel { done: m.done, evaluating: true }
}

/// The stream ended before any predicate failed: `All` ends with `true`.
pub open spec fn model_end(m: AllModel) -> (AllModel, bool) {
    (AllModel { done: true, evaluating: false }, true)
}

/// The outcome of `All` for a stream whose items have the predicate results
/// `results`, followed by its end, starting in state `m`: the transitions
/// above, applied in turn.
pub open spec fn drive(m: AllModel, results: Seq<bool>) -> (AllModel, bool)
    decreases results.len(),
{
    if results.len() == 0 {
        model_end(m)
    } else {
        let (m2, out) = model_future_ready(model_item(m), results[0]);
        match out {
            Some(b) => (m2, b),
            None => drive(m2, results.drop_first()),
        }
    }
}

/// `All` resolves to `true` exactly when the predicate holds of every item
/// of the stream, and to `false` as soon as it fails for one; either way it
/// is then terminated.
pub proof fn law_all_resolves_to_conjunction(m: AllModel, results: Seq<bool>)
    ensures
        drive(m, results).1 == (forall|i: int| 0 <= i < results.len() ==> #[trigger] results[i]),
        model_terminated(drive(m, results).0),
    decreases results.len(),
{
    if results.len() > 0 {
        law_all_resolves_to_conjunction(
            model_future_ready(model_item(m), results[0]).0,
            results.drop_first(),
        );
        if results[0] {
            assert forall|i: int| 0 <= i < results.len() implies #[trigger] results[i] == (
            i == 0 || results.drop_first()[i - 1]) by {}
            if forall|i: int| 0 <= i < results.len() ==> #[trigger] results[i] {
                assert forall|i: int| 0 <= i < results.drop_first().len() implies #[trigger] results.drop_first()[i] by {
                    assert(results[i + 1]);
                }
            }
        }
    }
}

/// Once the predicate has failed for an item, the items after it are
/// never looked at: the outcome is that of the results up to that item.
pub proof fn law_all_stops_at_first_failure(m: AllModel, results: Seq<bool>, k: int)
    requires
        0 <= k < results.len(),
        !results[k],
    ensures
        drive(m, results) == drive(m, results.take(k + 1)),
    decreases k,
{
    if k > 0 {
        assert(results.take(k + 1).drop_first() =~= results.drop_first().take(k));
        if results[0] {
            law_all_stops_at_first_failure(
                model_future_ready(model_item(m), true).0,
                results.drop_first(),
                k - 1,
            );
        }
    }
}

/// `All` is terminated exactly once a poll has returned its output: not
/// when fresh, not after it takes an item or a predicate that holds, and
/// always after a failing predicate or the end of the stream. A poll that
/// returns pending changes nothing. Every step requires a future that is not
/// done, and a terminated one is done, so once it has returned its output
/// no step can be taken: a poll after completion is refused.
pub proof fn law_terminated_exactly_after_output(m: AllModel, res: bool)
    requires
        !m.done,
    ensures
        !model_terminated(initial_model()),
        !model_terminated(m),
        !model_item(m).done,
        model_terminated(model_future_ready(m, res).0) == (model_future_ready(m, res).1 is Some),
        !model_future_ready(m, res).0.done == (model_future_ready(m, res).1 is None),
        model_terminated(model_end(m).0),
        forall|m2: AllModel| #[trigger] model_terminated(m2) ==> m2.done,
{
}

/// Future for the `all` method of streams: resolves to whether the
/// predicate `f` holds of every item of `stream`, stopping at the first
/// item for which it does not.
pub struct All<St, Fut, F> {
    stream: St,
    f: F,
    done: bool,
    future: Option<Fut>,
}

impl<St, Fut, F> All<St, Fut, F> {
    /// The stream whose items are tested.
    pub closed spec fn stream(&self) -> St {
        self.stream
    }

    /// The predicate.
    pub closed spec fn predicate(&self) -> F {
        self.f
    }

    /// The predicate future in flight, if any.
    pub closed spec fn future(&self) -> Option<Fut> {
        self.future
    }

    /// The control state.
    pub closed spec fn model(&self) -> AllModel {
        AllModel { done: self.done, evaluating: self.future is Some }
    }

    /// Creates the future, which has not yet seen any item.
    pub fn new(stream: St, f: F) -> (r: Self)
        ensures
            r.stream() == stream,
            r.predicate() == f,
            r.future() is None,
            r.model() == initial_model(),
    {
        All { stream, f, done: false, future: None }
    }

    /// Whether the future has completed and must not be polled again.
    pub fn is_terminated(&self) -> (r: bool)
        ensures
            r == model_terminated(self.model()),
    {
        self.done && self.future.is_none()
    }

    /// What a poll has to do next: poll the predicate future in flight, or
    /// else poll the stream. Polling after completion is refused.
    pub fn next_step(&self) -> (r: AllStep)
        requires
            !model_terminated(self.model()),
        ensures
            r == model_step(self.model()),
    {
        if self.future.is_some() {
            AllStep::PollFuture
        } else {
            AllStep::PollStream
        }
    }

    /// The predicate future in flight resolved to `res`. It is dropped; the
    /// result is the output of the whole future if it is now complete. Only
    /// a future that is not yet complete takes this step.
    pub fn future_ready(&mut self, res: bool) -> (out: Option<bool>)
        requires
            old(self).future() is Some,
            !old(self).model().done,
        ensures
            (final(self).model(), out) == model_future_ready(old(self).model(), res),
            final(self).future() is None,
            final(self).stream() == old(self).stream(),
            final(self).predicate() == old(self).predicate(),
    {
        self.future = None;
        if !res {
            self.done = true;
            Some(false)
        } else {
            None
        }
    }

    /// The stream yielded an item, and `fut` computes its predicate. Only a
    /// future that is not complete and has no predicate in flight polls the
    /// stream.
    pub fn item_future(&mut self, fut: Fut)
        requires
            old(self).future() is None,
            !old(self).model().done,
        ensures
            final(self).model() == model_item(old(self).model()),
            final(self).future() == Some(fut),
            final(self).stream() == old(self).stream(),
            final(self).predicate() == old(self).predicate(),
    {
        self.future = Some(fut);
    }

    /// The stream ended: every item satisfied the predicate. Only a future
    /// that is not complete and has no predicate in flight polls the stream.
    pub fn stream_ended(&mut self) -> (out: bool)
        requires
            old(self).future() is None,
            !old(self).model().done,
        ensures
            (final(self).model(), out) == model_end(old(self).model()),
            final(self).future() is None,
            final(self).stream() == old(self).stream(),
            final(self).predicate() == old(self).predicate(),
    {
        self.done = true;
        true
    }

    /// The stream.
    pub fn stream_ref(&self) -> (s: &St)
        ensures
            *s == self.stream(),
    {
        &self.stream
    }

    /// Whether the stream has ended or a predicate has failed.
    pub fn is_done(&self) -> (d: bool)
        ensures
            d == self.model().done,
    {
        self.done
    }

    /// The predicate future in flight, if any.
    pub fn future_ref(&self) -> (f: &Option<Fut>)
        ensures
            *f == self.future(),
    {
        &self.future
    }

    /// The stream, to be polled in place.
    pub fn stream_mut(&mut self) -> (s: &mut St)
        ensures
            *s == old(self).stream(),
            final(self).stream() == *final(s),
            final(self).predicate() == old(self).predicate(),
            final(self).future() == old(self).future(),
            final(self).model() == old(self).model(),
    {
        &mut self.stream
    }

    /// The predicate, to be called on an item.
    pub fn predicate_mut(&mut self) -> (p: &mut F)
        ensures
            *p == old(self).predicate(),
            final(self).predicate() == *final(p),
            final(self).stream() == old(self).stream(),
            final(self).future() == old(self).future(),
            final(self).model() == old(self).model(),
    {
        &mut self.f
    }

    /// The predicate future slot, to be polled in place.
    pub fn future_mut(&mut self) -> (s: &mut Option<Fut>)
        ensures
            *s == old(self).future(),
            final(self).future() == *final(s),
            final(self).stream() == old(self).stream(),
            final(self).predicate() == old(self).predicate(),
            final(self).model().done == old(self).model().done,
            final(self).model().evaluating == final(self).future() is Some,
    {
        &mut self.future
    }
}

} // verus!
