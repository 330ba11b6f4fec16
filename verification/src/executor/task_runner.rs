//! Runners and the pool that spreads tasks over them.
//!
//! A runner owns its live tasks. Between two polls of a task at least one
//! wake signal for it must arrive; a task that resolves leaves the runner and
//! its result is emitted once. Polling a task is left to the runner's thread:
//! the runner hands the task out with [`TaskRunner::next_wake`] and takes it
//! back, with the answer of the poll, in [`TaskRunner::finish_poll`].

use crate::executor::Erased;
use crate::id::Id;
use crate::minimum::first_minimum;
use crate::minimum::lemma_first_minimum;
use crate::minimum::lemma_first_minimum_unique;
use crate::minimum::lemma_first_minimum_step;
use std::collections::HashMap;
use std::collections::VecDeque;
use std::task::Poll;
use vstd::prelude::*;

verus! {

broadcast use vstd::std_specs::hash::group_hash_axioms;

/// The state of a runner. `F` is the type of a task.
pub struct RunnerView<F> {
    /// Tasks that were sent to the runner and that it has not accepted yet,
    /// oldest first.
    pub submitted: Seq<(Id, F)>,
    /// The live tasks, by the position of their identifier.
    pub live: Map<usize, F>,
    /// The wake signals that the runner has not handled yet, oldest first.
    pub wakes: Seq<Id>,
    /// The task that is out for a poll, if one is.
    pub polling: Option<Id>,
    /// The results that nobody has collected yet, oldest first.
    pub results: Seq<(Id, Erased)>,
    /// The runner's count of its tasks.
    pub load: nat,
    /// Whether the runner was asked to stop.
    pub stopping: bool,
    /// The identifier of every task that has resolved on this runner, in the
    /// order in which they resolved.
    pub emitted: Seq<Id>,
}

impl<F> RunnerView<F> {
    /// Whether a task with identifier position `k` waits to be accepted.
    pub open spec fn submitted_has(self, k: usize) -> bool {
        exists|i: int| 0 <= i < self.submitted.len() && (#[trigger] self.submitted[i]).0@ == k
    }

    /// Whether the task with identifier position `k` is out for a poll.
    pub open spec fn polling_is(self, k: usize) -> bool {
        self.polling matches Some(p) && p@ == k
    }

    /// Whether a task with identifier position `k` has resolved here.
    pub open spec fn emitted_has(self, k: usize) -> bool {
        exists|i: int| 0 <= i < self.emitted.len() && (#[trigger] self.emitted[i])@ == k
    }

    /// Whether a result for identifier position `k` waits to be collected.
    pub open spec fn results_has(self, k: usize) -> bool {
        exists|i: int| 0 <= i < self.results.len() && (#[trigger] self.results[i]).0@ == k
    }

    /// Whether the result for identifier position `k` was emitted and has
    /// been collected.
    pub open spec fn drained_has(self, k: usize) -> bool {
        exists|i: int|
            0 <= i < self.emitted.len() - self.results.len() && (#[trigger] self.emitted[i])@ == k
    }

    /// Whether the runner has ever been given a task with identifier
    /// position `k`.
    pub open spec fn knows(self, k: usize) -> bool {
        self.submitted_has(k) || self.live.contains_key(k) || self.polling_is(k)
            || self.emitted_has(k)
    }

    /// Whether the runner still has to deliver a result for identifier
    /// position `k`: its task is on the runner, or its result waits to be
    /// collected.
    pub open spec fn owes(self, k: usize) -> bool {
        self.submitted_has(k) || self.live.contains_key(k) || self.polling_is(k)
            || self.results_has(k)
    }

    /// Whether the runner has no task left: nothing waits to be accepted, no
    /// task is live and none is out for a poll.
    pub open spec fn idle(self) -> bool {
        self.submitted.len() == 0 && self.live.is_empty() && self.polling is None
    }

    /// The number of tasks on the runner.
    pub open spec fn tasks(self) -> nat {
        self.submitted.len() + self.live.len() + (if self.polling is Some {
            1nat
        } else {
            0nat
        })
    }

    /// The runner's invariant: a task is in one place only, no identifier is
    /// used twice, the count of tasks is exact, a resolved task does not come
    /// back, and the results that wait are the latest that were emitted.
    pub open spec fn wf(self) -> bool {
        &&& self.live.dom().finite()
        &&& self.load == self.tasks()
        &&& forall|i: int, j: int|
            0 <= i < j < self.submitted.len() ==> (#[trigger] self.submitted[i]).0@ != (
            #[trigger] self.submitted[j]).0@
        &&& forall|i: int|
            0 <= i < self.submitted.len() ==> !self.live.contains_key(
                (#[trigger] self.submitted[i]).0@,
            ) && !self.polling_is(self.submitted[i].0@)
        &&& self.polling matches Some(p) ==> !self.live.contains_key(p@)
        &&& forall|i: int, j: int|
            0 <= i < j < self.emitted.len() ==> (#[trigger] self.emitted[i])@ != (
            #[trigger] self.emitted[j])@
        &&& forall|i: int|
            0 <= i < self.emitted.len() ==> !self.live.contains_key((#[trigger] self.emitted[i])@)
                && !self.polling_is(self.emitted[i]@)
        &&& forall|i: int, j: int|
            0 <= i < self.emitted.len() && 0 <= j < self.submitted.len() ==> (
            #[trigger] self.emitted[i])@ != (#[trigger] self.submitted[j]).0@
        &&& self.results.len() <= self.emitted.len()
        &&& forall|i: int|
            0 <= i < self.results.len() ==> (#[trigger] self.results[i]).0 == self.emitted[self.emitted.len()
                - self.results.len() + i]
    }

    /// Whether `self` can come after `before` on a runner to which no task
    /// was sent in between: it knows the same identifiers, every result
    /// that was collected is still collected, and it has no more tasks.
    pub open spec fn follows(self, before: Self) -> bool {
        &&& forall|k: usize| self.knows(k) <==> before.knows(k)
        &&& forall|k: usize| before.drained_has(k) ==> self.drained_has(k)
        &&& self.load <= before.load
    }

    /// Whether every result that `before` has to deliver is one that `self`
    /// has to deliver too.
    pub open spec fn still_owes(self, before: Self) -> bool {
        forall|k: usize| before.owes(k) ==> self.owes(k)
    }

    /// A runner without tasks.
    pub open spec fn empty() -> Self {
        RunnerView {
            submitted: Seq::empty(),
            live: Map::empty(),
            wakes: Seq::empty(),
            polling: None,
            results: Seq::empty(),
            load: 0,
            stopping: false,
            emitted: Seq::empty(),
        }
    }

    /// A task is sent to the runner: it waits to be accepted, and counts.
    pub open spec fn send(self, id: Id, task: F) -> Self {
        RunnerView { submitted: self.submitted.push((id, task)), load: self.load + 1, ..self }
    }

    /// The runner accepts the oldest task that waits: the task becomes live,
    /// and gets a first wake signal.
    pub open spec fn accept_one(self) -> Self
        recommends
            self.submitted.len() > 0,
    {
        RunnerView {
            submitted: self.submitted.skip(1),
            live: self.live.insert(self.submitted[0].0@, self.submitted[0].1),
            wakes: self.wakes.push(self.submitted[0].0),
            ..self
        }
    }

    /// The runner accepts every task that waits, oldest first.
    pub open spec fn accept_all(self) -> Self
        decreases self.submitted.len(),
    {
        if self.submitted.len() == 0 {
            self
        } else {
            self.accept_one().accept_all()
        }
    }

    /// A wake signal for `id` arrives.
    pub open spec fn wake(self, id: Id) -> Self {
        RunnerView { wakes: self.wakes.push(id), ..self }
    }

    /// The runner takes the oldest wake signal. If it is for a live task,
    /// the task goes out for a poll.
    pub open spec fn take_wake(self) -> Self
        recommends
            self.wakes.len() > 0,
    {
        if self.live.contains_key(self.wakes[0]@) {
            RunnerView {
                wakes: self.wakes.skip(1),
                live: self.live.remove(self.wakes[0]@),
                polling: Some(self.wakes[0]),
                ..self
            }
        } else {
            RunnerView { wakes: self.wakes.skip(1), ..self }
        }
    }

    /// The poll of the task that is out answered "pending": the task is live
    /// again.
    pub open spec fn suspend(self, task: F) -> Self
        recommends
            self.polling is Some,
    {
        RunnerView { live: self.live.insert(self.polling.unwrap()@, task), polling: None, ..self }
    }

    /// The poll of the task that is out answered "ready": the task is gone,
    /// and its result is emitted.
    pub open spec fn resolve(self, value: Erased) -> Self
        recommends
            self.polling is Some,
    {
        RunnerView {
            polling: None,
            results: self.results.push((self.polling.unwrap(), value)),
            emitted: self.emitted.push(self.polling.unwrap()),
            load: (self.load - 1) as nat,
            ..self
        }
    }

    /// The task that is out comes back with the answer of its poll.
    pub open spec fn finish(self, task: F, outcome: Poll<Erased>) -> Self
        recommends
            self.polling is Some,
    {
        match outcome {
            Poll::Ready(value) => self.resolve(value),
            Poll::Pending => self.suspend(task),
        }
    }

    /// The results that wait are collected.
    pub open spec fn collected(self) -> Self {
        RunnerView { results: Seq::empty(), ..self }
    }

    /// The runner is asked to stop.
    pub open spec fn stopped(self) -> Self {
        RunnerView { stopping: true, ..self }
    }
}

/// Sending a task under an identifier that the runner has not seen keeps the
/// invariant.
pub proof fn lemma_send_keeps_wf<F>(v: RunnerView<F>, id: Id, task: F)
    requires
        v.wf(),
        !v.knows(id@),
    ensures
        v.send(id, task).wf(),
        v.send(id, task).knows(id@),
        v.send(id, task).owes(id@),
        forall|k: usize| v.knows(k) ==> v.send(id, task).knows(k),
        forall|k: usize| v.send(id, task).knows(k) ==> v.knows(k) || k == id@,
        forall|k: usize| v.owes(k) ==> v.send(id, task).owes(k),
        forall|k: usize| v.drained_has(k) <==> v.send(id, task).drained_has(k),
{
    let w = v.send(id, task);
    let n = v.submitted.len() as int;
    assert(w.emitted == v.emitted && w.results == v.results);
    assert(w.submitted[n] == (id, task));
    assert forall|i: int| 0 <= i < n implies w.submitted[i] == v.submitted[i] by {}
    assert forall|i: int, j: int| 0 <= i < j < w.submitted.len() implies (#[trigger] w.submitted[i]).0@
        != (#[trigger] w.submitted[j]).0@ by {
        if j == n {
            assert(v.submitted[i].0@ != id@);
        }
    }
    assert forall|i: int, j: int|
        0 <= i < w.emitted.len() && 0 <= j < w.submitted.len() implies (#[trigger] w.emitted[i])@ != (
    #[trigger] w.submitted[j]).0@ by {
        if j == n {
            assert(v.emitted[i]@ != id@);
        }
    }
    assert forall|k: usize| v.knows(k) implies w.knows(k) by {
        if v.submitted_has(k) {
            let i = choose|i: int| 0 <= i < v.submitted.len() && (#[trigger] v.submitted[i]).0@ == k;
            assert(w.submitted[i].0@ == k);
        }
    }
    assert forall|k: usize| v.owes(k) implies w.owes(k) by {
        if v.submitted_has(k) {
            let i = choose|i: int| 0 <= i < v.submitted.len() && (#[trigger] v.submitted[i]).0@ == k;
            assert(w.submitted[i].0@ == k);
        }
    }
    assert forall|k: usize| w.knows(k) implies v.knows(k) || k == id@ by {
        if w.submitted_has(k) {
            let i = choose|i: int| 0 <= i < w.submitted.len() && (#[trigger] w.submitted[i]).0@ == k;
            if i < n {
                assert(v.submitted[i].0@ == k);
            }
        }
    }
}

/// Accepting a task keeps the invariant, the identifiers and the results
/// that are due.
pub proof fn lemma_accept_one_keeps_wf<F>(v: RunnerView<F>)
    requires
        v.wf(),
        v.submitted.len() > 0,
    ensures
        v.accept_one().wf(),
        v.accept_one().follows(v),
        v.accept_one().still_owes(v),
        v.accept_one().load == v.load,
        v.accept_one().polling == v.polling,
{
    let w = v.accept_one();
    let first = v.submitted[0].0@;
    assert(w.emitted == v.emitted && w.results == v.results && w.polling == v.polling);
    assert(!v.live.contains_key(first));
    assert forall|i: int| 0 <= i < w.submitted.len() implies #[trigger] w.submitted[i]
        == v.submitted[i + 1] by {}
    assert forall|i: int| 0 <= i < w.submitted.len() implies !w.live.contains_key(
        (#[trigger] w.submitted[i]).0@,
    ) && !w.polling_is(w.submitted[i].0@) by {
        assert(v.submitted[0].0@ != v.submitted[i + 1].0@);
    }
    assert forall|i: int| 0 <= i < w.emitted.len() implies !w.live.contains_key(
        (#[trigger] w.emitted[i])@,
    ) && !w.polling_is(w.emitted[i]@) by {
        assert(v.emitted[i]@ != v.submitted[0].0@);
    }
    assert forall|k: usize| w.knows(k) <==> v.knows(k) by {
        if w.submitted_has(k) {
            let i = choose|i: int| 0 <= i < w.submitted.len() && (#[trigger] w.submitted[i]).0@ == k;
            assert(v.submitted[i + 1].0@ == k);
        }
        if v.submitted_has(k) {
            let i = choose|i: int| 0 <= i < v.submitted.len() && (#[trigger] v.submitted[i]).0@ == k;
            if i > 0 {
                assert(w.submitted[i - 1].0@ == k);
            }
        }
    }
    assert forall|k: usize| v.owes(k) implies w.owes(k) by {
        if v.submitted_has(k) {
            let i = choose|i: int| 0 <= i < v.submitted.len() && (#[trigger] v.submitted[i]).0@ == k;
            if i > 0 {
                assert(w.submitted[i - 1].0@ == k);
            }
        }
    }
}

/// Accepting every task that waits keeps the invariant, the identifiers and
/// the results that are due, and leaves nothing waiting.
pub proof fn lemma_accept_all_keeps_wf<F>(v: RunnerView<F>)
    requires
        v.wf(),
    ensures
        v.accept_all().wf(),
        v.accept_all().follows(v),
        v.accept_all().still_owes(v),
        v.accept_all().submitted.len() == 0,
        v.accept_all().load == v.load,
        v.accept_all().polling == v.polling,
        v.accept_all().results == v.results,
        v.accept_all().emitted == v.emitted,
    decreases v.submitted.len(),
{
    if v.submitted.len() > 0 {
        lemma_accept_one_keeps_wf(v);
        lemma_accept_all_keeps_wf(v.accept_one());
    }
}

/// A wake signal changes nothing but the queue of wake signals.
pub proof fn lemma_wake_keeps_wf<F>(v: RunnerView<F>, id: Id)
    requires
        v.wf(),
    ensures
        v.wake(id).wf(),
        v.wake(id).follows(v),
        v.wake(id).still_owes(v),
{
    let w = v.wake(id);
    assert(w.emitted == v.emitted && w.results == v.results && w.submitted == v.submitted);
}

/// Taking a wake signal keeps the invariant, the identifiers and the results
/// that are due.
pub proof fn lemma_take_wake_keeps_wf<F>(v: RunnerView<F>)
    requires
        v.wf(),
        v.wakes.len() > 0,
        v.polling is None,
    ensures
        v.take_wake().wf(),
        v.take_wake().follows(v),
        v.take_wake().still_owes(v),
        v.take_wake().load == v.load,
{
    let w = v.take_wake();
    assert(w.emitted == v.emitted && w.results == v.results && w.submitted == v.submitted);
}

/// Taking a task back after a poll that answered "pending" keeps the
/// invariant, the identifiers and the results that are due.
pub proof fn lemma_suspend_keeps_wf<F>(v: RunnerView<F>, task: F)
    requires
        v.wf(),
        v.polling is Some,
    ensures
        v.suspend(task).wf(),
        v.suspend(task).follows(v),
        v.suspend(task).still_owes(v),
        v.suspend(task).load == v.load,
{
    let w = v.suspend(task);
    assert(w.emitted == v.emitted && w.results == v.results && w.submitted == v.submitted);
}

/// A task that resolves is emitted exactly once: its identifier was not
/// emitted before, it is emitted now, and the task is no longer on the runner,
/// so that it cannot resolve again.
pub proof fn lemma_resolve_keeps_wf<F>(v: RunnerView<F>, value: Erased)
    requires
        v.wf(),
        v.polling is Some,
    ensures
        v.resolve(value).wf(),
        v.resolve(value).follows(v),
        v.resolve(value).still_owes(v),
        v.resolve(value).load == v.load - 1,
        !v.emitted_has(v.polling.unwrap()@),
        v.resolve(value).emitted == v.emitted.push(v.polling.unwrap()),
        v.resolve(value).results == v.results.push((v.polling.unwrap(), value)),
        !v.resolve(value).live.contains_key(v.polling.unwrap()@),
        !v.resolve(value).submitted_has(v.polling.unwrap()@),
        v.resolve(value).polling is None,
{
    let w = v.resolve(value);
    let p = v.polling.unwrap();
    let e = v.emitted.len() as int;
    let r = v.results.len() as int;
    assert(w.submitted == v.submitted && w.live == v.live);
    assert(w.emitted[e] == p);
    assert(w.results[r] == (p, value));
    assert forall|i: int| 0 <= i < e implies #[trigger] w.emitted[i] == v.emitted[i] by {}
    assert forall|i: int| 0 <= i < r implies #[trigger] w.results[i] == v.results[i] by {}
    assert forall|i: int| 0 <= i < e implies (#[trigger] v.emitted[i])@ != p@ by {
        assert(!v.polling_is(v.emitted[i]@));
    }
    assert forall|j: int| 0 <= j < v.submitted.len() implies (#[trigger] v.submitted[j]).0@ != p@ by {
        assert(!v.polling_is(v.submitted[j].0@));
    }
    assert forall|i: int, j: int| 0 <= i < j < w.emitted.len() implies (#[trigger] w.emitted[i])@ != (
    #[trigger] w.emitted[j])@ by {
        if j == e {
            assert(v.emitted[i]@ != p@);
        }
    }
    assert forall|i: int| 0 <= i < w.results.len() implies (#[trigger] w.results[i]).0
        == w.emitted[w.emitted.len() - w.results.len() + i] by {
        if i < r {
            assert(v.results[i].0 == v.emitted[e - r + i]);
        }
    }
    assert forall|k: usize| w.knows(k) <==> v.knows(k) by {
        if v.polling_is(k) {
            assert(w.emitted[e]@ == k);
        }
        if v.emitted_has(k) {
            let i = choose|i: int| 0 <= i < v.emitted.len() && (#[trigger] v.emitted[i])@ == k;
            assert(w.emitted[i]@ == k);
        }
        if w.emitted_has(k) {
            let i = choose|i: int| 0 <= i < w.emitted.len() && (#[trigger] w.emitted[i])@ == k;
            if i < e {
                assert(v.emitted[i]@ == k);
            }
        }
    }
    assert forall|k: usize| v.owes(k) implies w.owes(k) by {
        if v.polling_is(k) {
            assert(w.results[r].0@ == k);
        }
        if v.results_has(k) {
            let i = choose|i: int| 0 <= i < v.results.len() && (#[trigger] v.results[i]).0@ == k;
            assert(w.results[i].0@ == k);
        }
    }
    assert forall|k: usize| v.drained_has(k) implies w.drained_has(k) by {
        let i = choose|i: int| 0 <= i < v.emitted.len() - v.results.len() && (#[trigger] v.emitted[i])@ == k;
        assert(w.emitted[i]@ == k);
    }
}

/// Taking a task back after a poll keeps the invariant, the identifiers and
/// the results that are due, whatever the poll answered.
pub proof fn lemma_finish_keeps_wf<F>(v: RunnerView<F>, task: F, outcome: Poll<Erased>)
    requires
        v.wf(),
        v.polling is Some,
    ensures
        v.finish(task, outcome).wf(),
        v.finish(task, outcome).follows(v),
        v.finish(task, outcome).still_owes(v),
        v.finish(task, outcome).polling is None,
{
    match outcome {
        Poll::Ready(value) => lemma_resolve_keeps_wf(v, value),
        Poll::Pending => lemma_suspend_keeps_wf(v, task),
    }
}

/// Collecting the results keeps the invariant and the identifiers. A result
/// that was due is still due, or is among those collected.
pub proof fn lemma_collected_keeps_wf<F>(v: RunnerView<F>)
    requires
        v.wf(),
    ensures
        v.collected().wf(),
        v.collected().follows(v),
        forall|k: usize| v.owes(k) ==> v.collected().owes(k) || v.results_has(k),
        forall|k: usize| v.collected().owes(k) ==> v.owes(k),
        forall|k: usize| v.results_has(k) ==> v.collected().drained_has(k),
{
    let w = v.collected();
    assert(w.emitted == v.emitted && w.submitted == v.submitted);
    assert(w.results.len() == 0);
    assert forall|k: usize| v.drained_has(k) implies w.drained_has(k) by {
        let i = choose|i: int| 0 <= i < v.emitted.len() - v.results.len() && (#[trigger] v.emitted[i])@ == k;
        assert(w.emitted[i]@ == k);
    }
    assert forall|k: usize| v.results_has(k) implies w.drained_has(k) by {
        let i = choose|i: int| 0 <= i < v.results.len() && (#[trigger] v.results[i]).0@ == k;
        let at = v.emitted.len() - v.results.len() + i;
        assert(v.results[i].0 == v.emitted[at]);
        assert(w.emitted[at]@ == k);
    }
}

/// Asking the runner to stop changes nothing else.
pub proof fn lemma_stopped_keeps_wf<F>(v: RunnerView<F>)
    requires
        v.wf(),
    ensures
        v.stopped().wf(),
        v.stopped().follows(v),
        v.stopped().still_owes(v),
{
    let w = v.stopped();
    assert(w.emitted == v.emitted && w.results == v.results && w.submitted == v.submitted);
}

/// A result that was collected is due no more: its task is not on the
/// runner, and no second result for it waits.
pub proof fn lemma_drained_not_owed<F>(v: RunnerView<F>, k: usize)
    requires
        v.wf(),
        v.drained_has(k),
    ensures
        !v.owes(k),
        v.knows(k),
{
    let i = choose|i: int| 0 <= i < v.emitted.len() - v.results.len() && (#[trigger] v.emitted[i])@ == k;
    assert(!v.live.contains_key(v.emitted[i]@));
    if v.submitted_has(k) {
        let j = choose|j: int| 0 <= j < v.submitted.len() && (#[trigger] v.submitted[j]).0@ == k;
        assert(v.emitted[i]@ != v.submitted[j].0@);
    }
    if v.results_has(k) {
        let j = choose|j: int| 0 <= j < v.results.len() && (#[trigger] v.results[j]).0@ == k;
        let at = v.emitted.len() - v.results.len() + j;
        assert(v.results[j].0 == v.emitted[at]);
        assert(v.emitted[i]@ != v.emitted[at]@);
    }
}

/// Whatever a runner still has to deliver, it knows.
pub proof fn lemma_owed_is_known<F>(v: RunnerView<F>, k: usize)
    requires
        v.wf(),
        v.owes(k),
    ensures
        v.knows(k),
{
    if v.results_has(k) {
        lemma_result_or_task(v, k);
    }
}

/// A task is polled only for a wake signal: the task that goes out for a
/// poll is the one for which the oldest wake signal is, and the signal is
/// used up by the poll.
pub proof fn lemma_polled_task_was_woken<F>(v: RunnerView<F>)
    requires
        v.polling is None,
        v.wakes.len() > 0,
    ensures
        v.take_wake().polling matches Some(id) ==> id == v.wakes[0] && v.live.contains_key(id@),
        v.take_wake().wakes.len() == v.wakes.len() - 1,
{
}

/// No task resolves twice: the identifiers that a runner has emitted are
/// pairwise distinct.
pub proof fn lemma_emitted_once<F>(v: RunnerView<F>, i: int, j: int)
    requires
        v.wf(),
        0 <= i < j < v.emitted.len(),
    ensures
        v.emitted[i] != v.emitted[j],
        v.emitted[i]@ != v.emitted[j]@,
{
}

/// The results that wait to be collected are for pairwise distinct tasks.
pub proof fn lemma_results_distinct<F>(v: RunnerView<F>, i: int, j: int)
    requires
        v.wf(),
        0 <= i < j < v.results.len(),
    ensures
        v.results[i].0@ != v.results[j].0@,
{
    let base = v.emitted.len() - v.results.len();
    assert(v.results[i].0 == v.emitted[base + i]);
    assert(v.results[j].0 == v.emitted[base + j]);
}

/// A task that is on the runner has no result yet, and a task whose result
/// was emitted is not on the runner.
pub proof fn lemma_result_or_task<F>(v: RunnerView<F>, k: usize)
    requires
        v.wf(),
        v.results_has(k),
    ensures
        v.emitted_has(k),
        !v.live.contains_key(k),
        !v.polling_is(k),
        !v.submitted_has(k),
{
    let i = choose|i: int| 0 <= i < v.results.len() && (#[trigger] v.results[i]).0@ == k;
    let base = v.emitted.len() - v.results.len();
    assert(v.results[i].0 == v.emitted[base + i]);
    assert(v.emitted[base + i]@ == k);
    if v.submitted_has(k) {
        let j = choose|j: int| 0 <= j < v.submitted.len() && (#[trigger] v.submitted[j]).0@ == k;
        assert(v.emitted[base + i]@ != v.submitted[j].0@);
    }
}

/// What a runner does with a wake signal.
pub enum Wake<F> {
    /// No wake signal waits.
    Idle,
    /// The signal is for a task that is not live on this runner: it is noted
    /// and passed over.
    Unknown(Id),
    /// The signal is for a live task, which is handed out for one poll.
    Poll(Id, F),
}

/// A runner: the tasks of one worker, with the queues that connect it to the
/// pool and to the wake handles of its tasks.
pub struct TaskRunner<F> {
    task_queue: VecDeque<(Id, F)>,
    to_poll: HashMap<usize, F>,
    wake_queue: VecDeque<Id>,
    polling: Option<Id>,
    results: Vec<(Id, Erased)>,
    current_tasks: usize,
    needs_to_stop: bool,
    emitted: Ghost<Seq<Id>>,
}

impl<F> View for TaskRunner<F> {
    type V = RunnerView<F>;

    closed spec fn view(&self) -> RunnerView<F> {
        RunnerView {
            submitted: self.task_queue@,
            live: self.to_poll@,
            wakes: self.wake_queue@,
            polling: self.polling,
            results: self.results@,
            load: self.current_tasks as nat,
            stopping: self.needs_to_stop,
            emitted: self.emitted@,
        }
    }
}

impl<F> TaskRunner<F> {
    /// The runner's invariant holds, and its count of tasks fits its counter.
    pub open spec fn wf(&self) -> bool {
        self@.wf() && self@.load <= usize::MAX
    }

    /// A runner without tasks.
    pub fn new() -> (r: Self)
        ensures
            r.wf(),
            r@ == RunnerView::<F>::empty(),
    {
        let r = TaskRunner {
            task_queue: VecDeque::new(),
            to_poll: HashMap::new(),
            wake_queue: VecDeque::new(),
            polling: None,
            results: Vec::new(),
            current_tasks: 0,
            needs_to_stop: false,
            emitted: Ghost(Seq::empty()),
        };
        assert(r@.live =~= Map::<usize, F>::empty());
        assert(r@ == RunnerView::<F>::empty());
        r
    }

    /// The runner's count of its tasks: those that wait to be accepted,
    /// those that are live and the one that is out for a poll.
    pub fn current_number_of_tasks(&self) -> (r: usize)
        ensures
            r == self@.load,
    {
        self.current_tasks
    }

    /// Sends a task to the runner. The task counts at once, and becomes live
    /// when the runner accepts it.
    pub fn send_task(&mut self, id: Id, fut: F)
        requires
            old(self).wf(),
            !old(self)@.knows(id@),
            old(self)@.load < usize::MAX,
        ensures
            final(self).wf(),
            final(self)@ == old(self)@.send(id, fut),
    {
        proof {
            lemma_send_keeps_wf(self@, id, fut);
        }
        self.current_tasks = self.current_tasks + 1;
        self.task_queue.push_back((id, fut));
    }

    /// Accepts every task that waits, oldest first: each becomes live and
    /// gets a first wake signal, so that it is polled once to begin with.
    pub fn accept_submissions(&mut self)
        requires
            old(self).wf(),
        ensures
            final(self).wf(),
            final(self)@ == old(self)@.accept_all(),
    {
        proof {
            lemma_accept_all_keeps_wf(self@);
        }
        loop
            invariant
                self@.wf(),
                self@.accept_all() == old(self)@.accept_all(),
                self@.load == old(self)@.load,
            ensures
                self@ == old(self)@.accept_all(),
            decreases self@.submitted.len(),
        {
            let ghost before = self@;
            match self.task_queue.pop_front() {
                Some((id, fut)) => {
                    self.to_poll.insert(id.index(), fut);
                    self.wake_queue.push_back(id);
                    proof {
                        lemma_accept_one_keeps_wf(before);
                        assert(self@.submitted =~= before.submitted.skip(1));
                        assert(self@ == before.accept_one());
                    }
                },
                None => {
                    break ;
                },
            }
        }
    }

    /// Whether the runner's thread is to end: the runner was asked to stop
    /// and has no task left.
    pub fn should_exit(&self) -> (r: bool)
        requires
            self.wf(),
        ensures
            r == (self@.stopping && self@.idle()),
    {
        self.needs_to_stop && self.is_idle()
    }

    /// Whether the runner has no task left.
    pub fn is_idle(&self) -> (r: bool)
        requires
            self.wf(),
        ensures
            r == self@.idle(),
    {
        self.task_queue.len() == 0 && self.to_poll.is_empty() && self.polling.is_none()
    }

    /// Whether a task is out for a poll.
    pub fn is_polling(&self) -> (r: bool)
        ensures
            r == (self@.polling is Some),
    {
        self.polling.is_some()
    }

    /// Queues a wake signal for `id`. Several signals for one task are kept
    /// apart: each leads to one poll attempt.
    pub fn wake(&mut self, id: Id)
        requires
            old(self).wf(),
        ensures
            final(self).wf(),
            final(self)@ == old(self)@.wake(id),
    {
        proof {
            lemma_wake_keeps_wf(self@, id);
        }
        self.wake_queue.push_back(id);
    }

    /// Takes the oldest wake signal. If it is for a live task, the task is
    /// handed out for one poll; [`TaskRunner::finish_poll`] takes it back.
    pub fn next_wake(&mut self) -> (r: Wake<F>)
        requires
            old(self).wf(),
            old(self)@.polling is None,
        ensures
            final(self).wf(),
            old(self)@.wakes.len() == 0 ==> r is Idle && final(self)@ == old(self)@,
            old(self)@.wakes.len() > 0 ==> {
                &&& final(self)@ == old(self)@.take_wake()
                &&& r == (if old(self)@.live.contains_key(old(self)@.wakes[0]@) {
                    Wake::Poll(old(self)@.wakes[0], old(self)@.live[old(self)@.wakes[0]@])
                } else {
                    Wake::Unknown(old(self)@.wakes[0])
                })
            },
    {
        match self.wake_queue.pop_front() {
            None => Wake::Idle,
            Some(id) => {
                proof {
                    lemma_take_wake_keeps_wf(old(self)@);
                    assert(self.wake_queue@ =~= old(self)@.wakes.skip(1));
                }
                match self.to_poll.remove(&id.index()) {
                    Some(fut) => {
                        self.polling = Some(id);
                        assert(self@ == old(self)@.take_wake());
                        Wake::Poll(id, fut)
                    },
                    None => {
                        assert(self@.live =~= old(self)@.live);
                        assert(self@ == old(self)@.take_wake());
                        Wake::Unknown(id)
                    },
                }
            },
        }
    }

    /// Takes back the task that was out for a poll, with the poll's answer.
    /// A pending task is live again and waits for its next wake signal. A
    /// ready task is gone: its result is emitted, once, and it no longer
    /// counts.
    pub fn finish_poll(&mut self, fut: F, outcome: Poll<Erased>)
        requires
            old(self).wf(),
            old(self)@.polling is Some,
        ensures
            final(self).wf(),
            final(self)@ == old(self)@.finish(fut, outcome),
    {
        let id: Id = self.polling.unwrap();
        self.polling = None;
        match outcome {
            Poll::Ready(value) => {
                proof {
                    lemma_resolve_keeps_wf(old(self)@, value);
                    self.emitted@ = self.emitted@.push(id);
                }
                self.results.push((id, value));
                self.current_tasks = self.current_tasks - 1;
            },
            Poll::Pending => {
                proof {
                    lemma_suspend_keeps_wf(old(self)@, fut);
                }
                self.to_poll.insert(id.index(), fut);
            },
        }
    }

    /// Collects the results that wait, oldest first.
    pub fn take_results(&mut self) -> (r: Vec<(Id, Erased)>)
        requires
            old(self).wf(),
        ensures
            final(self).wf(),
            final(self)@ == old(self)@.collected(),
            r@ == old(self)@.results,
    {
        proof {
            lemma_collected_keeps_wf(self@);
        }
        let mut out: Vec<(Id, Erased)> = Vec::new();
        out.append(&mut self.results);
        assert(out@ =~= old(self)@.results);
        out
    }

    /// Asks the runner to stop. It goes on until it has no task left.
    pub fn stop(&mut self)
        requires
            old(self).wf(),
        ensures
            final(self).wf(),
            final(self)@ == old(self)@.stopped(),
    {
        proof {
            lemma_stopped_keeps_wf(self@);
        }
        self.needs_to_stop = true;
    }

    /// Ends a runner that has no task left, and returns the results that
    /// nobody has collected.
    pub fn join(self) -> (r: Vec<(Id, Erased)>)
        requires
            self.wf(),
            self@.idle(),
        ensures
            r@ == self@.results,
    {
        self.results
    }
}

/// The counts of tasks of the runners of a pool, in the order of the runners.
pub open spec fn loads<F>(pool: Seq<RunnerView<F>>) -> Seq<nat> {
    Seq::new(pool.len(), |r: int| pool[r].load)
}

/// The position of the smallest count, and of the first of them where
/// several are the smallest.
pub open spec fn least_loaded(loads: Seq<nat>) -> int {
    first_minimum(loads)
}

/// `least_loaded` is the position of a smallest count, and no earlier
/// position has a count as small.
pub proof fn lemma_least_loaded_is_first_minimum(loads: Seq<nat>)
    requires
        loads.len() > 0,
    ensures
        0 <= least_loaded(loads) < loads.len(),
        forall|j: int| 0 <= j < loads.len() ==> loads[least_loaded(loads)] <= #[trigger] loads[j],
        forall|j: int| 0 <= j < least_loaded(loads) ==> loads[least_loaded(loads)] < #[trigger] loads[j],
{
    lemma_first_minimum(loads);
}

/// The runners of a pool are each in order, and no identifier is known to
/// two of them.
pub open spec fn pool_wf<F>(pool: Seq<RunnerView<F>>) -> bool {
    &&& forall|r: int| 0 <= r < pool.len() ==> (#[trigger] pool[r]).wf()
    &&& forall|r1: int, r2: int, k: usize|
        #![trigger pool[r1].knows(k), pool[r2].knows(k)]
        0 <= r1 < r2 < pool.len() ==> !(pool[r1].knows(k) && pool[r2].knows(k))
}

/// Whether a runner of the pool has ever been given a task with identifier
/// position `k`.
pub open spec fn pool_knows<F>(pool: Seq<RunnerView<F>>, k: usize) -> bool {
    exists|r: int| 0 <= r < pool.len() && (#[trigger] pool[r]).knows(k)
}

/// Whether a runner of the pool still has to deliver a result for
/// identifier position `k`.
pub open spec fn pool_owes<F>(pool: Seq<RunnerView<F>>, k: usize) -> bool {
    exists|r: int| 0 <= r < pool.len() && (#[trigger] pool[r]).owes(k)
}

/// Whether the result for identifier position `k` was emitted by a runner of
/// the pool and has been collected.
pub open spec fn pool_drained<F>(pool: Seq<RunnerView<F>>, k: usize) -> bool {
    exists|r: int| 0 <= r < pool.len() && (#[trigger] pool[r]).drained_has(k)
}

/// Whether no runner of the pool has a task left.
pub open spec fn all_idle<F>(pool: Seq<RunnerView<F>>) -> bool {
    forall|r: int| 0 <= r < pool.len() ==> (#[trigger] pool[r]).idle()
}

/// The pool after a task was placed on its least loaded runner.
pub open spec fn place<F>(pool: Seq<RunnerView<F>>, id: Id, task: F) -> Seq<RunnerView<F>>
    recommends
        pool.len() > 0,
{
    let chosen = least_loaded(loads(pool));
    pool.update(chosen, pool[chosen].send(id, task))
}

/// The results that wait on the runners of a pool: those of the first runner,
/// then those of the second, and so on.
pub open spec fn pending_results<F>(pool: Seq<RunnerView<F>>) -> Seq<(Id, Erased)>
    decreases pool.len(),
{
    if pool.len() == 0 {
        Seq::empty()
    } else {
        pending_results(pool.drop_last()) + pool.last().results
    }
}

/// The pool after the results of every runner were collected.
pub open spec fn collected_all<F>(pool: Seq<RunnerView<F>>) -> Seq<RunnerView<F>> {
    Seq::new(pool.len(), |r: int| pool[r].collected())
}

/// The pool after every runner was asked to stop.
pub open spec fn stopped_all<F>(pool: Seq<RunnerView<F>>) -> Seq<RunnerView<F>> {
    Seq::new(pool.len(), |r: int| pool[r].stopped())
}

/// Placing a task under an identifier that no runner has seen keeps the
/// pool in order. The task is due from then on, and nothing else changes for
/// the other identifiers.
pub proof fn lemma_place_keeps_wf<F>(pool: Seq<RunnerView<F>>, id: Id, task: F)
    requires
        pool_wf(pool),
        pool.len() > 0,
        !pool_knows(pool, id@),
    ensures
        pool_wf(place(pool, id, task)),
        0 <= least_loaded(loads(pool)) < pool.len(),
        pool_owes(place(pool, id, task), id@),
        forall|k: usize| pool_knows(place(pool, id, task), k) <==> pool_knows(pool, k) || k == id@,
        forall|k: usize| pool_owes(pool, k) ==> pool_owes(place(pool, id, task), k),
        forall|k: usize| pool_drained(pool, k) ==> pool_drained(place(pool, id, task), k),
{
    let c = least_loaded(loads(pool));
    lemma_least_loaded_is_first_minimum(loads(pool));
    let next = place(pool, id, task);
    assert(!pool[c].knows(id@));
    lemma_send_keeps_wf(pool[c], id, task);
    assert(next[c] == pool[c].send(id, task));
    assert forall|r: int| 0 <= r < next.len() implies (#[trigger] next[r]).wf() by {
        if r != c {
            assert(next[r] == pool[r]);
        }
    }
    assert forall|r1: int, r2: int, k: usize|
        #![trigger next[r1].knows(k), next[r2].knows(k)]
        0 <= r1 < r2 < next.len() implies !(next[r1].knows(k) && next[r2].knows(k)) by {
        assert(next[r1] == pool[r1] || r1 == c);
        assert(next[r2] == pool[r2] || r2 == c);
        if next[r1].knows(k) && next[r2].knows(k) {
            if r1 == c {
                assert(pool[c].knows(k) || k == id@);
                assert(pool[r2].knows(k));
                assert(!(pool[r1].knows(k) && pool[r2].knows(k)));
            } else if r2 == c {
                assert(pool[c].knows(k) || k == id@);
                assert(pool[r1].knows(k));
                assert(!(pool[r1].knows(k) && pool[r2].knows(k)));
            } else {
                assert(!(pool[r1].knows(k) && pool[r2].knows(k)));
            }
        }
    }
    assert(next[c].owes(id@));
    assert forall|k: usize| pool_knows(next, k) <==> pool_knows(pool, k) || k == id@ by {
        if pool_knows(next, k) {
            let r = choose|r: int| 0 <= r < next.len() && (#[trigger] next[r]).knows(k);
            if r == c {
                assert(pool[c].knows(k) || k == id@);
            } else {
                assert(next[r] == pool[r]);
            }
        }
        if pool_knows(pool, k) {
            let r = choose|r: int| 0 <= r < pool.len() && (#[trigger] pool[r]).knows(k);
            if r == c {
                assert(next[c].knows(k));
            } else {
                assert(next[r] == pool[r]);
            }
        }
        if k == id@ {
            assert(next[c].knows(k));
        }
    }
    assert forall|k: usize| pool_owes(pool, k) implies pool_owes(next, k) by {
        let r = choose|r: int| 0 <= r < pool.len() && (#[trigger] pool[r]).owes(k);
        if r == c {
            assert(next[c].owes(k));
        } else {
            assert(next[r] == pool[r]);
        }
    }
    assert forall|k: usize| pool_drained(pool, k) implies pool_drained(next, k) by {
        let r = choose|r: int| 0 <= r < pool.len() && (#[trigger] pool[r]).drained_has(k);
        if r == c {
            assert(next[c].drained_has(k));
        } else {
            assert(next[r] == pool[r]);
        }
    }
}

/// Replacing the state of one runner by a state that can follow it keeps the
/// pool in order and changes nothing for what the pool knows.
pub proof fn lemma_step_keeps_wf<F>(pool: Seq<RunnerView<F>>, runner: int, after: RunnerView<F>)
    requires
        pool_wf(pool),
        0 <= runner < pool.len(),
        after.wf(),
        after.follows(pool[runner]),
    ensures
        pool_wf(pool.update(runner, after)),
        forall|k: usize| pool_knows(pool.update(runner, after), k) <==> pool_knows(pool, k),
        forall|k: usize| pool_drained(pool, k) ==> pool_drained(pool.update(runner, after), k),
        after.still_owes(pool[runner]) ==> forall|k: usize|
            pool_owes(pool, k) ==> pool_owes(pool.update(runner, after), k),
{
    let next = pool.update(runner, after);
    assert forall|r: int| 0 <= r < next.len() implies (#[trigger] next[r]).wf() by {
        if r != runner {
            assert(next[r] == pool[r]);
        }
    }
    assert forall|r1: int, r2: int, k: usize|
        #![trigger next[r1].knows(k), next[r2].knows(k)]
        0 <= r1 < r2 < next.len() implies !(next[r1].knows(k) && next[r2].knows(k)) by {
        assert(next[r1] == pool[r1] || r1 == runner);
        assert(next[r2] == pool[r2] || r2 == runner);
        assert(next[r1].knows(k) <==> pool[r1].knows(k));
        assert(next[r2].knows(k) <==> pool[r2].knows(k));
        assert(!(pool[r1].knows(k) && pool[r2].knows(k)));
    }
    assert forall|k: usize| pool_knows(next, k) <==> pool_knows(pool, k) by {
        if pool_knows(next, k) {
            let r = choose|r: int| 0 <= r < next.len() && (#[trigger] next[r]).knows(k);
            assert(next[r] == pool[r] || r == runner);
            assert(pool[r].knows(k));
        }
        if pool_knows(pool, k) {
            let r = choose|r: int| 0 <= r < pool.len() && (#[trigger] pool[r]).knows(k);
            assert(next[r] == pool[r] || r == runner);
            assert(next[r].knows(k));
        }
    }
    assert forall|k: usize| pool_drained(pool, k) implies pool_drained(next, k) by {
        let r = choose|r: int| 0 <= r < pool.len() && (#[trigger] pool[r]).drained_has(k);
        assert(next[r] == pool[r] || r == runner);
        assert(next[r].drained_has(k));
    }
    if after.still_owes(pool[runner]) {
        assert forall|k: usize| pool_owes(pool, k) implies pool_owes(next, k) by {
            let r = choose|r: int| 0 <= r < pool.len() && (#[trigger] pool[r]).owes(k);
            assert(next[r] == pool[r] || r == runner);
            assert(next[r].owes(k));
        }
    }
}

/// Collecting the results of every runner keeps the pool in order and what
/// it knows. A result that was due is still due, or is among those
/// collected.
pub proof fn lemma_collected_all_keeps_wf<F>(pool: Seq<RunnerView<F>>)
    requires
        pool_wf(pool),
    ensures
        pool_wf(collected_all(pool)),
        pending_results(collected_all(pool)) == Seq::<(Id, Erased)>::empty(),
        forall|k: usize| pool_knows(collected_all(pool), k) <==> pool_knows(pool, k),
        forall|k: usize| pool_owes(collected_all(pool), k) ==> pool_owes(pool, k),
        forall|k: usize|
            pool_owes(pool, k) ==> pool_owes(collected_all(pool), k) || exists|i: int|
                0 <= i < pending_results(pool).len() && (#[trigger] pending_results(pool)[i]).0@ == k,
        forall|k: usize| pool_drained(pool, k) ==> pool_drained(collected_all(pool), k),
        forall|i: int|
            0 <= i < pending_results(pool).len() ==> pool_drained(
                collected_all(pool),
                (#[trigger] pending_results(pool)[i]).0@,
            ),
{
    let next = collected_all(pool);
    assert forall|k: usize| pool_drained(pool, k) implies pool_drained(next, k) by {
        let r = choose|r: int| 0 <= r < pool.len() && (#[trigger] pool[r]).drained_has(k);
        lemma_collected_keeps_wf(pool[r]);
        assert(next[r].drained_has(k));
    }
    assert forall|i: int| 0 <= i < pending_results(pool).len() implies pool_drained(
        next,
        (#[trigger] pending_results(pool)[i]).0@,
    ) by {
        lemma_pending_results_come_from_runner(pool, i);
        let k = pending_results(pool)[i].0@;
        let r = choose|r: int| 0 <= r < pool.len() && (#[trigger] pool[r]).results_has(k);
        lemma_collected_keeps_wf(pool[r]);
        assert(next[r].drained_has(k));
    }
    assert forall|r: int| 0 <= r < next.len() implies (#[trigger] next[r]).wf() && next[r].follows(
        pool[r],
    ) by {
        lemma_collected_keeps_wf(pool[r]);
    }
    assert forall|r1: int, r2: int, k: usize|
        #![trigger next[r1].knows(k), next[r2].knows(k)]
        0 <= r1 < r2 < next.len() implies !(next[r1].knows(k) && next[r2].knows(k)) by {
        lemma_collected_keeps_wf(pool[r1]);
        lemma_collected_keeps_wf(pool[r2]);
        assert(!(pool[r1].knows(k) && pool[r2].knows(k)));
    }
    lemma_no_results_pending(next);
    assert forall|k: usize| pool_knows(next, k) <==> pool_knows(pool, k) by {
        if pool_knows(next, k) {
            let r = choose|r: int| 0 <= r < next.len() && (#[trigger] next[r]).knows(k);
            lemma_collected_keeps_wf(pool[r]);
            assert(pool[r].knows(k));
        }
        if pool_knows(pool, k) {
            let r = choose|r: int| 0 <= r < pool.len() && (#[trigger] pool[r]).knows(k);
            lemma_collected_keeps_wf(pool[r]);
            assert(next[r].knows(k));
        }
    }
    assert forall|k: usize| pool_owes(next, k) implies pool_owes(pool, k) by {
        let r = choose|r: int| 0 <= r < next.len() && (#[trigger] next[r]).owes(k);
        lemma_collected_keeps_wf(pool[r]);
        assert(pool[r].owes(k));
    }
    assert forall|k: usize| pool_owes(pool, k) implies pool_owes(next, k) || exists|i: int|
        0 <= i < pending_results(pool).len() && (#[trigger] pending_results(pool)[i]).0@ == k by {
        let r = choose|r: int| 0 <= r < pool.len() && (#[trigger] pool[r]).owes(k);
        lemma_collected_keeps_wf(pool[r]);
        if next[r].owes(k) {
        } else {
            assert(pool[r].results_has(k));
            lemma_pending_results_cover(pool, r, k);
        }
    }
}

/// Where no runner has a result waiting, the pool has none.
pub proof fn lemma_no_results_pending<F>(pool: Seq<RunnerView<F>>)
    requires
        forall|r: int| 0 <= r < pool.len() ==> (#[trigger] pool[r]).results.len() == 0,
    ensures
        pending_results(pool) == Seq::<(Id, Erased)>::empty(),
    decreases pool.len(),
{
    if pool.len() > 0 {
        let front = pool.drop_last();
        assert forall|r: int| 0 <= r < front.len() implies (#[trigger] front[r]).results.len() == 0 by {
            assert(front[r] == pool[r]);
        }
        lemma_no_results_pending(front);
        assert(pool.last() == pool[pool.len() - 1]);
        assert(pool.last().results =~= Seq::<(Id, Erased)>::empty());
        assert(pending_results(pool) =~= Seq::<(Id, Erased)>::empty());
    }
}

/// A result that waits on a runner of the pool is among the results that
/// wait on the pool.
pub proof fn lemma_pending_results_cover<F>(pool: Seq<RunnerView<F>>, runner: int, k: usize)
    requires
        0 <= runner < pool.len(),
        pool[runner].results_has(k),
    ensures
        exists|i: int|
            0 <= i < pending_results(pool).len() && (#[trigger] pending_results(pool)[i]).0@ == k,
    decreases pool.len(),
{
    let front = pool.drop_last();
    let all = pending_results(pool);
    if runner == pool.len() - 1 {
        let j = choose|j: int|
            0 <= j < pool[runner].results.len() && (#[trigger] pool[runner].results[j]).0@ == k;
        let at = pending_results(front).len() + j;
        assert(all[at] == pool.last().results[j]);
        assert(all[at].0@ == k);
    } else {
        assert(front[runner] == pool[runner]);
        lemma_pending_results_cover(front, runner, k);
        let i = choose|i: int|
            0 <= i < pending_results(front).len() && (#[trigger] pending_results(front)[i]).0@ == k;
        assert(all[i] == pending_results(front)[i]);
        assert(all[i].0@ == k);
    }
}

/// A result that waits on the pool waits on one of its runners.
pub proof fn lemma_pending_results_come_from_runner<F>(pool: Seq<RunnerView<F>>, i: int)
    requires
        0 <= i < pending_results(pool).len(),
    ensures
        exists|r: int|
            0 <= r < pool.len() && (#[trigger] pool[r]).results_has(pending_results(pool)[i].0@),
    decreases pool.len(),
{
    let front = pool.drop_last();
    let all = pending_results(pool);
    let k = all[i].0@;
    if i < pending_results(front).len() {
        assert(all[i] == pending_results(front)[i]);
        lemma_pending_results_come_from_runner(front, i);
        let r = choose|r: int|
            0 <= r < front.len() && (#[trigger] front[r]).results_has(pending_results(front)[i].0@);
        assert(front[r] == pool[r]);
        assert(pool[r].results_has(k));
    } else {
        let j = i - pending_results(front).len();
        assert(all[i] == pool.last().results[j]);
        assert(pool[pool.len() - 1].results[j].0@ == k);
        assert(pool[pool.len() - 1].results_has(k));
    }
}

/// A task is on one runner only, from its submission on: no identifier is
/// known to two runners of a pool.
pub proof fn lemma_task_on_one_runner<F>(pool: Seq<RunnerView<F>>, r1: int, r2: int, k: usize)
    requires
        pool_wf(pool),
        0 <= r1 < pool.len(),
        0 <= r2 < pool.len(),
        pool[r1].knows(k),
        pool[r2].knows(k),
    ensures
        r1 == r2,
{
    if r1 < r2 {
        assert(!(pool[r1].knows(k) && pool[r2].knows(k)));
    } else if r2 < r1 {
        assert(!(pool[r2].knows(k) && pool[r1].knows(k)));
    }
}

/// A result that was collected from the pool is due from none of its
/// runners: no result is delivered twice.
pub proof fn lemma_pool_drained_not_owed<F>(pool: Seq<RunnerView<F>>, k: usize)
    requires
        pool_wf(pool),
        pool_drained(pool, k),
    ensures
        !pool_owes(pool, k),
        pool_knows(pool, k),
{
    let r = choose|r: int| 0 <= r < pool.len() && (#[trigger] pool[r]).drained_has(k);
    lemma_drained_not_owed(pool[r], k);
    if pool_owes(pool, k) {
        let o = choose|o: int| 0 <= o < pool.len() && (#[trigger] pool[o]).owes(k);
        lemma_owed_is_known(pool[o], k);
        if o < r {
            assert(!(pool[o].knows(k) && pool[r].knows(k)));
        } else if r < o {
            assert(!(pool[r].knows(k) && pool[o].knows(k)));
        }
    }
}

/// Whatever the pool still has to deliver, one of its runners knows.
pub proof fn lemma_pool_owed_is_known<F>(pool: Seq<RunnerView<F>>, k: usize)
    requires
        pool_wf(pool),
        pool_owes(pool, k),
    ensures
        pool_knows(pool, k),
{
    let o = choose|o: int| 0 <= o < pool.len() && (#[trigger] pool[o]).owes(k);
    lemma_owed_is_known(pool[o], k);
}

/// The results that wait on an idle pool are all that it has to deliver.
pub proof fn lemma_idle_pool_owes_results<F>(pool: Seq<RunnerView<F>>, k: usize)
    requires
        all_idle(pool),
        pool_owes(pool, k),
    ensures
        exists|i: int|
            0 <= i < pending_results(pool).len() && (#[trigger] pending_results(pool)[i]).0@ == k,
{
    let o = choose|o: int| 0 <= o < pool.len() && (#[trigger] pool[o]).owes(k);
    assert(pool[o].idle());
    if pool[o].submitted_has(k) {
        let j = choose|j: int| 0 <= j < pool[o].submitted.len() && (#[trigger] pool[o].submitted[j]).0@ == k;
    }
    assert(pool[o].results_has(k));
    lemma_pending_results_cover(pool, o, k);
}

/// The results that wait on a pool are for pairwise distinct tasks: a task
/// has one result.
pub proof fn lemma_pending_results_distinct<F>(pool: Seq<RunnerView<F>>, i: int, j: int)
    requires
        pool_wf(pool),
        0 <= i < j < pending_results(pool).len(),
    ensures
        pending_results(pool)[i].0@ != pending_results(pool)[j].0@,
    decreases pool.len(),
{
    let front = pool.drop_last();
    let last = pool.len() - 1;
    let all = pending_results(pool);
    let split = pending_results(front).len();
    assert forall|r: int| 0 <= r < front.len() implies #[trigger] front[r] == pool[r] by {}
    assert(pool_wf(front)) by {
        assert forall|r: int| 0 <= r < front.len() implies (#[trigger] front[r]).wf() by {
            assert(pool[r].wf());
        }
        assert forall|r1: int, r2: int, k: usize|
            #![trigger front[r1].knows(k), front[r2].knows(k)]
            0 <= r1 < r2 < front.len() implies !(front[r1].knows(k) && front[r2].knows(k)) by {
            assert(!(pool[r1].knows(k) && pool[r2].knows(k)));
        }
    }
    assert(pool.last() == pool[last]);
    assert(pool[last].wf());
    if j < split {
        assert(all[i] == pending_results(front)[i]);
        assert(all[j] == pending_results(front)[j]);
        lemma_pending_results_distinct(front, i, j);
    } else if i >= split {
        assert(all[i] == pool[last].results[i - split]);
        assert(all[j] == pool[last].results[j - split]);
        lemma_results_distinct(pool[last], i - split, j - split);
    } else {
        let k = all[i].0@;
        assert(all[i] == pending_results(front)[i]);
        assert(all[j] == pool[last].results[j - split]);
        if all[j].0@ == k {
            lemma_pending_results_come_from_runner(front, i);
            let r = choose|r: int| 0 <= r < front.len() && (#[trigger] front[r]).results_has(k);
            assert(pool[r].results_has(k));
            assert(pool[r].wf());
            lemma_result_or_task(pool[r], k);
            assert(pool[last].results[j - split].0@ == k);
            assert(pool[last].results_has(k));
            lemma_result_or_task(pool[last], k);
            assert(!(pool[r].knows(k) && pool[last].knows(k)));
        }
    }
}

/// Collecting enters each result that waits on the pool under its own task:
/// what a retrieval finds for a task whose result waits is the value with
/// which the task resolved.
pub proof fn lemma_collected_value<F>(table: Map<usize, Erased>, pool: Seq<RunnerView<F>>, i: int)
    requires
        pool_wf(pool),
        0 <= i < pending_results(pool).len(),
    ensures
        crate::id::entered(table, pending_results(pool)).contains_key(pending_results(pool)[i].0@),
        crate::id::entered(table, pending_results(pool))[pending_results(pool)[i].0@]
            == pending_results(pool)[i].1,
{
    let all = pending_results(pool);
    assert forall|j: int| 0 <= j < all.len() && j != i implies (#[trigger] all[j]).0@ != all[i].0@ by {
        if j < i {
            lemma_pending_results_distinct(pool, j, i);
        } else {
            lemma_pending_results_distinct(pool, i, j);
        }
    }
    crate::id::lemma_entered_value(table, all, i);
}

/// Asking every runner to stop keeps the pool in order, what it knows and
/// what is due.
pub proof fn lemma_stopped_all_keeps_wf<F>(pool: Seq<RunnerView<F>>)
    requires
        pool_wf(pool),
    ensures
        pool_wf(stopped_all(pool)),
        forall|k: usize| pool_knows(stopped_all(pool), k) <==> pool_knows(pool, k),
        forall|k: usize| pool_owes(pool, k) ==> pool_owes(stopped_all(pool), k),
        forall|k: usize| pool_drained(pool, k) ==> pool_drained(stopped_all(pool), k),
{
    let next = stopped_all(pool);
    assert forall|k: usize| pool_drained(pool, k) implies pool_drained(next, k) by {
        let r = choose|r: int| 0 <= r < pool.len() && (#[trigger] pool[r]).drained_has(k);
        lemma_stopped_keeps_wf(pool[r]);
        assert(next[r].drained_has(k));
    }
    assert forall|r: int| 0 <= r < next.len() implies (#[trigger] next[r]).wf() by {
        lemma_stopped_keeps_wf(pool[r]);
    }
    assert forall|r1: int, r2: int, k: usize|
        #![trigger next[r1].knows(k), next[r2].knows(k)]
        0 <= r1 < r2 < next.len() implies !(next[r1].knows(k) && next[r2].knows(k)) by {
        lemma_stopped_keeps_wf(pool[r1]);
        lemma_stopped_keeps_wf(pool[r2]);
        assert(!(pool[r1].knows(k) && pool[r2].knows(k)));
    }
    assert forall|k: usize| pool_knows(next, k) <==> pool_knows(pool, k) by {
        if pool_knows(next, k) {
            let r = choose|r: int| 0 <= r < next.len() && (#[trigger] next[r]).knows(k);
            lemma_stopped_keeps_wf(pool[r]);
            assert(pool[r].knows(k));
        }
        if pool_knows(pool, k) {
            let r = choose|r: int| 0 <= r < pool.len() && (#[trigger] pool[r]).knows(k);
            lemma_stopped_keeps_wf(pool[r]);
            assert(next[r].knows(k));
        }
    }
    assert forall|k: usize| pool_owes(pool, k) implies pool_owes(next, k) by {
        let r = choose|r: int| 0 <= r < pool.len() && (#[trigger] pool[r]).owes(k);
        lemma_stopped_keeps_wf(pool[r]);
        assert(next[r].owes(k));
    }
}

/// The counts after one more task was placed: the smallest count, and the
/// first of them where several are the smallest, goes up by one.
pub open spec fn bump(loads: Seq<nat>) -> Seq<nat>
    recommends
        loads.len() > 0,
{
    loads.update(least_loaded(loads), loads[least_loaded(loads)] + 1)
}

/// The counts of `n` runners after `m` tasks were placed and none resolved.
pub open spec fn after_placements(n: nat, m: nat) -> Seq<nat>
    decreases m,
{
    if m == 0 {
        Seq::new(n, |i: int| 0nat)
    } else {
        bump(after_placements(n, (m - 1) as nat))
    }
}

/// Counts that differ by at most one.
pub open spec fn balanced(loads: Seq<nat>) -> bool {
    forall|i: int, j: int|
        0 <= i < loads.len() && 0 <= j < loads.len() ==> #[trigger] loads[i] <= #[trigger] loads[j] + 1
}

/// The counts of `n` runners of which the first `r` have `q + 1` tasks and
/// the others `q`.
pub open spec fn round_robin(n: nat, q: nat, r: nat) -> Seq<nat> {
    Seq::new(n, |i: int| if i < r { q + 1 } else { q })
}

/// Placing a task changes the counts of the pool as `bump` says.
pub proof fn lemma_place_bumps_loads<F>(pool: Seq<RunnerView<F>>, id: Id, task: F)
    requires
        pool.len() > 0,
    ensures
        loads(place(pool, id, task)) == bump(loads(pool)),
{
    lemma_least_loaded_is_first_minimum(loads(pool));
    assert(loads(place(pool, id, task)) =~= bump(loads(pool)));
}

/// The position that `least_loaded` gives is the only first minimum.
pub proof fn lemma_first_minimum_is_least_loaded(loads: Seq<nat>, c: int)
    requires
        0 <= c < loads.len(),
        forall|j: int| 0 <= j < loads.len() ==> loads[c] <= #[trigger] loads[j],
        forall|j: int| 0 <= j < c ==> loads[c] < #[trigger] loads[j],
    ensures
        least_loaded(loads) == c,
{
    lemma_first_minimum_unique(loads, c);
}

/// Placement keeps the counts balanced: where they differ by at most one
/// before a task is placed, they do so after.
pub proof fn lemma_placement_keeps_balance(loads: Seq<nat>)
    requires
        loads.len() > 0,
        balanced(loads),
    ensures
        balanced(bump(loads)),
{
    lemma_least_loaded_is_first_minimum(loads);
    let c = least_loaded(loads);
    let next = bump(loads);
    assert forall|i: int, j: int| 0 <= i < next.len() && 0 <= j < next.len() implies #[trigger] next[i]
        <= #[trigger] next[j] + 1 by {
        assert(loads[c] <= loads[i]);
        assert(loads[c] <= loads[j]);
        assert(loads[i] <= loads[c] + 1);
    }
}

/// Tasks that are placed while none resolves go to the runners in turn:
/// after `q` full rounds and `r` more tasks, the first `r` runners have
/// `q + 1` tasks and the others `q`.
pub proof fn lemma_placements_go_round(n: nat, q: nat, r: nat)
    requires
        r < n,
    ensures
        after_placements(n, q * n + r) == round_robin(n, q, r),
        balanced(after_placements(n, q * n + r)),
    decreases q * n + r,
{
    let m = q * n + r;
    if r == 0 && q == 0 {
        assert(m == 0) by (nonlinear_arith)
            requires
                m == q * n + r,
                r == 0,
                q == 0,
        ;
        assert(after_placements(n, m) =~= round_robin(n, q, r));
    } else {
        let (pq, pr): (nat, nat) = if r > 0 {
            (q, (r - 1) as nat)
        } else {
            ((q - 1) as nat, (n - 1) as nat)
        };
        assert(pq * n + pr == m - 1) by (nonlinear_arith)
            requires
                m == q * n + r,
                r < n,
                if r > 0 {
                    pq == q && pr == r - 1
                } else {
                    q > 0 && pq == q - 1 && pr == n - 1
                },
        ;
        lemma_placements_go_round(n, pq, pr);
        let before = round_robin(n, pq, pr);
        assert(after_placements(n, m) == bump(after_placements(n, (m - 1) as nat)));
        assert forall|j: int| 0 <= j < before.len() implies before[pr as int] <= #[trigger] before[j] by {}
        assert forall|j: int| 0 <= j < pr implies before[pr as int] < #[trigger] before[j] by {}
        lemma_first_minimum_is_least_loaded(before, pr as int);
        assert(bump(before) =~= round_robin(n, q, r));
    }
    assert(balanced(round_robin(n, q, r)));
}

/// After `k` tasks for each of `n` runners were placed and none resolved,
/// every runner has `k` tasks.
pub proof fn lemma_full_rounds_are_level(n: nat, k: nat)
    requires
        n > 0,
    ensures
        after_placements(n, k * n) == Seq::new(n, |i: int| k),
{
    lemma_placements_go_round(n, k, 0);
    assert(round_robin(n, k, 0) =~= Seq::new(n, |i: int| k));
}

/// A fixed set of runners. A task goes to the runner that has the fewest
/// tasks when the task is submitted, and stays there.
pub struct Pool<F> {
    runners: Vec<TaskRunner<F>>,
}

impl<F> View for Pool<F> {
    type V = Seq<RunnerView<F>>;

    closed spec fn view(&self) -> Seq<RunnerView<F>> {
        Seq::new(self.runners@.len(), |r: int| self.runners@[r]@)
    }
}

impl<F> Pool<F> {
    /// The pool is in order, and the count of tasks of each runner fits its
    /// counter.
    pub open spec fn wf(&self) -> bool {
        &&& pool_wf(self@)
        &&& forall|r: int| 0 <= r < self@.len() ==> (#[trigger] self@[r]).load <= usize::MAX
    }

    /// A pool of `n_workers` runners without tasks.
    pub fn new(n_workers: usize) -> (r: Self)
        ensures
            r.wf(),
            r@.len() == n_workers,
            forall|i: int| 0 <= i < n_workers ==> #[trigger] r@[i] == RunnerView::<F>::empty(),
    {
        let mut runners: Vec<TaskRunner<F>> = Vec::new();
        let mut i: usize = 0;
        while i < n_workers
            invariant
                i <= n_workers,
                runners@.len() == i,
                forall|j: int| 0 <= j < i ==> (#[trigger] runners@[j])@ == RunnerView::<F>::empty(),
            decreases n_workers - i,
        {
            runners.push(TaskRunner::new());
            i = i + 1;
        }
        let pool = Pool { runners };
        proof {
            assert forall|r: int| 0 <= r < pool@.len() implies (#[trigger] pool@[r]).wf() by {
                assert(pool@[r] == RunnerView::<F>::empty());
            }
            assert forall|r1: int, r2: int, k: usize|
                #![trigger pool@[r1].knows(k), pool@[r2].knows(k)]
                0 <= r1 < r2 < pool@.len() implies !(pool@[r1].knows(k) && pool@[r2].knows(k)) by {
                assert(pool@[r1] == RunnerView::<F>::empty());
            }
        }
        pool
    }

    /// The number of runners.
    pub fn size(&self) -> (r: usize)
        ensures
            r == self@.len(),
    {
        self.runners.len()
    }

    /// The count of tasks of a runner.
    pub fn current_number_of_tasks(&self, runner: usize) -> (r: usize)
        requires
            runner < self@.len(),
        ensures
            r == self@[runner as int].load,
    {
        self.runners[runner].current_number_of_tasks()
    }

    /// The runner that has the fewest tasks, and the first of them where
    /// several have the fewest.
    pub fn least_loaded_runner(&self) -> (r: usize)
        requires
            self@.len() > 0,
        ensures
            r == least_loaded(loads(self@)),
            r < self@.len(),
    {
        let ghost all = loads(self@);
        let mut best: usize = 0;
        let mut best_load: usize = self.runners[0].current_number_of_tasks();
        let mut i: usize = 1;
        assert(all.take(1).len() == 1);
        while i < self.runners.len()
            invariant
                1 <= i <= self.runners.len(),
                all == loads(self@),
                all.len() == self.runners.len(),
                best < i,
                best == least_loaded(all.take(i as int)),
                best_load == all[best as int],
            decreases self.runners.len() - i,
        {
            let load: usize = self.runners[i].current_number_of_tasks();
            proof {
                let upto = all.take(i + 1);
                assert(upto.drop_last() =~= all.take(i as int));
                assert(upto.last() == all[i as int]);
                assert(upto[best as int] == all[best as int]);
                lemma_first_minimum_step(upto);
            }
            if load < best_load {
                best = i;
                best_load = load;
            }
            i = i + 1;
        }
        assert(all.take(i as int) =~= all);
        best
    }

    /// Places a task on the runner that has the fewest tasks.
    pub fn run_future(&mut self, id: Id, f: F)
        requires
            old(self).wf(),
            old(self)@.len() > 0,
            !pool_knows(old(self)@, id@),
            old(self)@[least_loaded(loads(old(self)@))].load < usize::MAX,
        ensures
            final(self).wf(),
            final(self)@ == place(old(self)@, id, f),
    {
        let runner_index: usize = self.least_loaded_runner();
        proof {
            lemma_place_keeps_wf(self@, id, f);
            assert(!self@[runner_index as int].knows(id@));
            assert(self@[runner_index as int].wf());
        }
        self.runners[runner_index].send_task(id, f);
        proof {
            assert(self@ =~= place(old(self)@, id, f));
            assert forall|r: int| 0 <= r < self@.len() implies (#[trigger] self@[r]).load
                <= usize::MAX by {
                if r != runner_index {
                    assert(self@[r] == old(self)@[r]);
                }
            }
        }
    }

    /// Accepts the tasks that wait on a runner.
    pub fn accept_submissions(&mut self, runner: usize)
        requires
            old(self).wf(),
            runner < old(self)@.len(),
        ensures
            final(self).wf(),
            final(self)@ == old(self)@.update(runner as int, old(self)@[runner as int].accept_all()),
    {
        proof {
            assert(self@[runner as int].wf());
            lemma_accept_all_keeps_wf(self@[runner as int]);
            lemma_step_keeps_wf(self@, runner as int, self@[runner as int].accept_all());
        }
        self.runners[runner].accept_submissions();
        proof {
            assert(self@ =~= old(self)@.update(runner as int, old(self)@[runner as int].accept_all()));
            assert forall|r: int| 0 <= r < self@.len() implies (#[trigger] self@[r]).load
                <= usize::MAX by {
                if r != runner {
                    assert(self@[r] == old(self)@[r]);
                }
            }
        }
    }

    /// Queues a wake signal for `id` on a runner.
    pub fn wake(&mut self, runner: usize, id: Id)
        requires
            old(self).wf(),
            runner < old(self)@.len(),
        ensures
            final(self).wf(),
            final(self)@ == old(self)@.update(runner as int, old(self)@[runner as int].wake(id)),
    {
        proof {
            assert(self@[runner as int].wf());
            lemma_wake_keeps_wf(self@[runner as int], id);
            lemma_step_keeps_wf(self@, runner as int, self@[runner as int].wake(id));
        }
        self.runners[runner].wake(id);
        proof {
            assert(self@ =~= old(self)@.update(runner as int, old(self)@[runner as int].wake(id)));
            assert forall|r: int| 0 <= r < self@.len() implies (#[trigger] self@[r]).load
                <= usize::MAX by {
                if r != runner {
                    assert(self@[r] == old(self)@[r]);
                }
            }
        }
    }

    /// Takes the oldest wake signal of a runner.
    pub fn next_wake(&mut self, runner: usize) -> (r: Wake<F>)
        requires
            old(self).wf(),
            runner < old(self)@.len(),
            old(self)@[runner as int].polling is None,
        ensures
            final(self).wf(),
            old(self)@[runner as int].wakes.len() == 0 ==> r is Idle && final(self)@ == old(self)@,
            old(self)@[runner as int].wakes.len() > 0 ==> {
                let before = old(self)@[runner as int];
                &&& final(self)@ == old(self)@.update(runner as int, before.take_wake())
                &&& r == (if before.live.contains_key(before.wakes[0]@) {
                    Wake::Poll(before.wakes[0], before.live[before.wakes[0]@])
                } else {
                    Wake::Unknown(before.wakes[0])
                })
            },
    {
        proof {
            assert(self@[runner as int].wf());
            if self@[runner as int].wakes.len() > 0 {
                lemma_take_wake_keeps_wf(self@[runner as int]);
                lemma_step_keeps_wf(self@, runner as int, self@[runner as int].take_wake());
            }
        }
        let r = self.runners[runner].next_wake();
        proof {
            if old(self)@[runner as int].wakes.len() > 0 {
                assert(self@ =~= old(self)@.update(
                    runner as int,
                    old(self)@[runner as int].take_wake(),
                ));
            } else {
                assert(self@ =~= old(self)@);
            }
            assert forall|r: int| 0 <= r < self@.len() implies (#[trigger] self@[r]).load
                <= usize::MAX by {
                if r != runner {
                    assert(self@[r] == old(self)@[r]);
                }
            }
        }
        r
    }

    /// Takes back the task that was out for a poll on a runner.
    pub fn finish_poll(&mut self, runner: usize, fut: F, outcome: Poll<Erased>)
        requires
            old(self).wf(),
            runner < old(self)@.len(),
            old(self)@[runner as int].polling is Some,
        ensures
            final(self).wf(),
            final(self)@ == old(self)@.update(
                runner as int,
                old(self)@[runner as int].finish(fut, outcome),
            ),
    {
        let ghost after = self@[runner as int].finish(fut, outcome);
        proof {
            assert(self@[runner as int].wf());
            lemma_finish_keeps_wf(self@[runner as int], fut, outcome);
            lemma_step_keeps_wf(self@, runner as int, after);
        }
        self.runners[runner].finish_poll(fut, outcome);
        proof {
            assert(self@ =~= old(self)@.update(runner as int, after));
            assert forall|r: int| 0 <= r < self@.len() implies (#[trigger] self@[r]).load
                <= usize::MAX by {
                if r != runner {
                    assert(self@[r] == old(self)@[r]);
                }
            }
        }
    }

    /// Whether the thread of a runner is to end.
    pub fn should_exit(&self, runner: usize) -> (r: bool)
        requires
            self.wf(),
            runner < self@.len(),
        ensures
            r == (self@[runner as int].stopping && self@[runner as int].idle()),
    {
        assert(self@[runner as int].wf());
        self.runners[runner].should_exit()
    }

    /// Whether a task is out for a poll on a runner.
    pub fn is_polling(&self, runner: usize) -> (r: bool)
        requires
            runner < self@.len(),
        ensures
            r == (self@[runner as int].polling is Some),
    {
        self.runners[runner].is_polling()
    }

    /// Whether no runner has a task left.
    pub fn is_idle(&self) -> (r: bool)
        requires
            self.wf(),
        ensures
            r == all_idle(self@),
    {
        let mut i: usize = 0;
        while i < self.runners.len()
            invariant
                i <= self.runners.len(),
                self.wf(),
                forall|r: int| 0 <= r < i ==> (#[trigger] self@[r]).idle(),
            decreases self.runners.len() - i,
        {
            assert(self@[i as int].wf());
            if !self.runners[i].is_idle() {
                return false;
            }
            i = i + 1;
        }
        true
    }

    /// Collects the results that wait on the runners: those of the first
    /// runner, then those of the second, and so on.
    pub fn collect_results(&mut self) -> (r: Vec<(Id, Erased)>)
        requires
            old(self).wf(),
        ensures
            final(self).wf(),
            final(self)@ == collected_all(old(self)@),
            r@ == pending_results(old(self)@),
    {
        let mut out: Vec<(Id, Erased)> = Vec::new();
        let mut i: usize = 0;
        let n: usize = self.runners.len();
        proof {
            lemma_collected_all_keeps_wf(self@);
            assert(old(self)@.take(0) =~= Seq::<RunnerView<F>>::empty());
        }
        while i < n
            invariant
                i <= n,
                n == self.runners.len(),
                self@.len() == old(self)@.len(),
                n == self@.len(),
                out@ == pending_results(old(self)@.take(i as int)),
                forall|r: int| 0 <= r < i ==> #[trigger] self@[r] == old(self)@[r].collected(),
                forall|r: int| i <= r < n ==> #[trigger] self@[r] == old(self)@[r],
                forall|r: int| 0 <= r < n ==> (#[trigger] old(self)@[r]).wf(),
                forall|r: int| 0 <= r < n ==> (#[trigger] old(self)@[r]).load <= usize::MAX,
            decreases n - i,
        {
            let ghost before = self@;
            assert(self@[i as int] == old(self)@[i as int]);
            assert(old(self)@[i as int].wf());
            let mut part: Vec<(Id, Erased)> = self.runners[i].take_results();
            out.append(&mut part);
            proof {
                let upto = old(self)@.take(i + 1);
                assert(upto.drop_last() =~= old(self)@.take(i as int));
                assert(upto.last() == old(self)@[i as int]);
                assert forall|r: int| 0 <= r < i + 1 implies #[trigger] self@[r] == old(
                    self,
                )@[r].collected() by {
                    if r < i {
                        assert(self@[r] == before[r]);
                    }
                }
                assert forall|r: int| i + 1 <= r < n implies #[trigger] self@[r] == old(self)@[r] by {
                    assert(self@[r] == before[r]);
                }
            }
            i = i + 1;
        }
        proof {
            assert(old(self)@.take(n as int) =~= old(self)@);
            assert(self@ =~= collected_all(old(self)@));
            assert forall|r: int| 0 <= r < self@.len() implies (#[trigger] self@[r]).load
                <= usize::MAX by {
                assert(self@[r] == old(self)@[r].collected());
            }
        }
        out
    }

    /// Asks every runner to stop.
    pub fn stop(&mut self)
        requires
            old(self).wf(),
        ensures
            final(self).wf(),
            final(self)@ == stopped_all(old(self)@),
    {
        let mut i: usize = 0;
        let n: usize = self.runners.len();
        proof {
            lemma_stopped_all_keeps_wf(self@);
        }
        while i < n
            invariant
                i <= n,
                n == self.runners.len(),
                n == self@.len(),
                self@.len() == old(self)@.len(),
                forall|r: int| 0 <= r < i ==> #[trigger] self@[r] == old(self)@[r].stopped(),
                forall|r: int| i <= r < n ==> #[trigger] self@[r] == old(self)@[r],
                forall|r: int| 0 <= r < n ==> (#[trigger] old(self)@[r]).wf(),
                forall|r: int| 0 <= r < n ==> (#[trigger] old(self)@[r]).load <= usize::MAX,
            decreases n - i,
        {
            let ghost before = self@;
            assert(self@[i as int] == old(self)@[i as int]);
            assert(old(self)@[i as int].wf());
            self.runners[i].stop();
            proof {
                assert forall|r: int| 0 <= r < i + 1 implies #[trigger] self@[r] == old(
                    self,
                )@[r].stopped() by {
                    if r < i {
                        assert(self@[r] == before[r]);
                    }
                }
                assert forall|r: int| i + 1 <= r < n implies #[trigger] self@[r] == old(self)@[r] by {
                    assert(self@[r] == before[r]);
                }
            }
            i = i + 1;
        }
        proof {
            assert(self@ =~= stopped_all(old(self)@));
            assert forall|r: int| 0 <= r < self@.len() implies (#[trigger] self@[r]).load
                <= usize::MAX by {
                assert(self@[r] == old(self)@[r].stopped());
            }
        }
    }

    /// Ends a pool whose runners have no task left, and returns the results
    /// that nobody has collected.
    pub fn join(self) -> (r: Vec<(Id, Erased)>)
        requires
            self.wf(),
            all_idle(self@),
        ensures
            r@ == pending_results(self@),
    {
        let mut pool = self;
        pool.collect_results()
    }
}

} // verus!
