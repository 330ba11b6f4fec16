//! The executor: typed submission and result retrieval over a pool of runners.

pub mod sealed;
pub mod task_runner;
pub mod waker;

use crate::executor::sealed::CanUseCannotImplement;
use crate::executor::task_runner::all_idle;
use crate::executor::task_runner::collected_all;
use crate::executor::task_runner::lemma_collected_all_keeps_wf;
use crate::executor::task_runner::lemma_finish_keeps_wf;
use crate::executor::task_runner::lemma_accept_all_keeps_wf;
use crate::executor::task_runner::lemma_pending_results_come_from_runner;
use crate::executor::task_runner::lemma_place_keeps_wf;
use crate::executor::task_runner::lemma_least_loaded_is_first_minimum;
use crate::executor::task_runner::lemma_step_keeps_wf;
use crate::executor::task_runner::lemma_stopped_all_keeps_wf;
use crate::executor::task_runner::lemma_take_wake_keeps_wf;
use crate::executor::task_runner::lemma_wake_keeps_wf;
use crate::executor::task_runner::least_loaded;
use crate::executor::task_runner::loads;
use crate::executor::task_runner::pending_results;
use crate::executor::task_runner::place;
use crate::executor::task_runner::lemma_idle_pool_owes_results;
use crate::executor::task_runner::lemma_pool_drained_not_owed;
use crate::executor::task_runner::lemma_pool_owed_is_known;
use crate::executor::task_runner::pool_drained;
use crate::executor::task_runner::pool_knows;
use crate::executor::task_runner::pool_owes;
use crate::executor::task_runner::pool_wf;
use crate::executor::task_runner::stopped_all;
use crate::executor::task_runner::Pool;
use crate::executor::task_runner::RunnerView;
use crate::executor::task_runner::Wake;
use crate::id::entered;
use crate::id::lemma_entered_keys;
use crate::id::Id;
use crate::id::IdGenerator;
use std::any::Any;
use std::collections::HashMap;
use std::task::Poll;
use vstd::prelude::*;

verus! {

broadcast use vstd::std_specs::hash::group_hash_axioms;

/// A task's output with its type erased: a boxed value that remembers its
/// type, so that a typed retrieval can be attempted later.
///
/// The box is `Box<dyn Any + Send>` of the standard library, a type that
/// cannot be named in verified code. It is held here as a value of which
/// nothing is known: no proof looks inside.
#[verifier::external_body]
pub struct Erased {
    inner: Box<dyn Any + Send>,
}

/// `Box::new` into a `Box<dyn Any + Send>`: boxes the value together with
/// its type.
#[verifier::external_body]
fn erase<T: Send + 'static>(value: T) -> (r: Erased) {
    Erased { inner: Box::new(value) }
}

/// `Box<dyn Any + Send>::downcast`: gives the boxed value back if its type is
/// `T`, and the unchanged box if it is not.
#[verifier::external_body]
fn downcast<T: 'static>(erased: Erased) -> (r: Result<T, Erased>)
    ensures
        r matches Err(e) ==> e == erased,
{
    match erased.inner.downcast::<T>() {
        Ok(value) => Ok(*value),
        Err(inner) => Err(Erased { inner }),
    }
}

impl Erased {
    /// Erases the type of `value`.
    pub fn new<T: Send + 'static>(value: T) -> (r: Erased) {
        erase(value)
    }

    /// Gives the value back if its type is `T`, and the erased value itself
    /// if it is not.
    pub fn downcast<T: 'static>(self) -> (r: Result<T, Erased>)
        ensures
            r matches Err(e) ==> e == self,
    {
        downcast(self)
    }
}

/// A stage in the life of an executor.
pub trait ExecutorStage: CanUseCannotImplement {

}

impl<T: CanUseCannotImplement> ExecutorStage for T {

}

/// The first stage: tasks can be submitted, and run on the pool. `F` is the
/// type of a task.
pub struct Running<F> {
    pool: Pool<F>,
    id_generator: IdGenerator,
}

/// The last stage: every task has resolved, and only results are left.
pub struct Finished;

/// The executor: a cache of results, and what belongs to its stage. That
/// tasks cannot be submitted once the executor was joined is a matter of
/// types: a joined executor has no pool.
pub struct Executor<Stage: ExecutorStage> {
    results_cache: HashMap<usize, Erased>,
    stage_details: Stage,
}

/// What a typed retrieval found.
pub enum FutureResult<T> {
    /// The result, which has the type that was asked for.
    Expected(T),
    /// A result of another type than the one that was asked for.
    Other(Erased),
    /// There is no result under the identifier.
    NonExistent,
}

impl<T> FutureResult<T> {
    /// What a retrieval makes of an attempt to give a result its type back.
    pub fn from_downcast(attempt: Result<T, Erased>) -> (r: Self)
        ensures
            r == (match attempt {
                Ok(value) => FutureResult::Expected(value),
                Err(erased) => FutureResult::Other(erased),
            }),
    {
        match attempt {
            Ok(value) => FutureResult::Expected(value),
            Err(erased) => FutureResult::Other(erased),
        }
    }

    /// The result that was found. Only a retrieval that found the expected
    /// type can be unwrapped.
    pub fn unwrap(self) -> (r: T)
        requires
            self is Expected,
        ensures
            self == FutureResult::Expected(r),
    {
        match self {
            FutureResult::Expected(e) => e,
            FutureResult::Other(_) => unreached(),
            FutureResult::NonExistent => unreached(),
        }
    }

    /// Whether the retrieval found a result of the expected type.
    pub fn is_expected(&self) -> (r: bool)
        ensures
            r == (self is Expected),
    {
        match self {
            FutureResult::Expected(_) => true,
            _ => false,
        }
    }
}

impl<T> From<FutureResult<T>> for Option<T> {
    fn from(value: FutureResult<T>) -> (r: Option<T>) {
        match value {
            FutureResult::Expected(x) => Some(x),
            _ => None,
        }
    }
}

impl<T> vstd::std_specs::convert::FromSpecImpl<FutureResult<T>> for Option<T> {
    open spec fn obeys_from_spec() -> bool {
        true
    }

    open spec fn from_spec(value: FutureResult<T>) -> Option<T> {
        match value {
            FutureResult::Expected(x) => Some(x),
            _ => None,
        }
    }
}

/// Enters the collected results into the cache, in order.
fn enter_results(cache: &mut HashMap<usize, Erased>, results: Vec<(Id, Erased)>)
    ensures
        final(cache)@ == entered(old(cache)@, results@),
{
    let ghost all = results@;
    assert(all.skip(0) =~= all);
    for pair in it: results
        invariant
            it.seq() == all,
            entered(cache@, all.skip(it.index() as int)) == entered(old(cache)@, all),
    {
        let ghost rest = all.skip(it.index() as int);
        let (id, value) = pair;
        assert(rest[0] == all[it.index() as int]);
        assert(rest.skip(1) =~= all.skip(it.index() + 1));
        cache.insert(id.index(), value);
    }
    assert(all.skip(all.len() as int) =~= Seq::<(Id, Erased)>::empty());
}

impl<S: ExecutorStage> Executor<S> {
    /// The results in the cache, by the position of their task's identifier.
    pub closed spec fn cache(&self) -> Map<usize, Erased> {
        self.results_cache@
    }

    /// What belongs to the executor's stage.
    pub closed spec fn stage(&self) -> S {
        self.stage_details
    }

    /// Takes the result of task `id` out of the cache and tries to give it
    /// the type `T`.
    fn take_result_no_update<T: 'static>(&mut self, id: Id) -> (r: FutureResult<T>)
        ensures
            final(self).stage() == old(self).stage(),
            final(self).cache() == old(self).cache().remove(id@),
            r is NonExistent <==> !old(self).cache().contains_key(id@),
            r matches FutureResult::Other(erased) ==> erased == old(self).cache()[id@],
    {
        match self.results_cache.remove(&id.index()) {
            None => FutureResult::NonExistent,
            Some(erased) => FutureResult::from_downcast(erased.downcast::<T>()),
        }
    }
}

impl<F> Executor<Running<F>> {
    /// The runners of the pool.
    pub closed spec fn pool(&self) -> Seq<RunnerView<F>> {
        self.stage_details.pool@
    }

    /// How many task identifiers have been issued.
    pub closed spec fn issued(&self) -> nat {
        self.stage_details.id_generator.issued()
    }

    /// Whether the result of the task with identifier position `k` is in the
    /// executor's hands or still due from the pool.
    pub open spec fn tracks(&self, k: usize) -> bool {
        self.cache().contains_key(k) || pool_owes(self.pool(), k)
    }

    /// Every result that is in the cache or waits on a runner.
    pub open spec fn gathered(&self) -> Map<usize, Erased> {
        entered(self.cache(), pending_results(self.pool()))
    }

    /// Whether the result of the task with identifier position `k` was taken
    /// out of the executor.
    pub open spec fn delivered(&self, k: usize) -> bool {
        pool_drained(self.pool(), k) && !self.cache().contains_key(k)
    }

    /// The executor's invariant: the pool is in order, every identifier that
    /// the pool knows was issued by this executor, every result in the cache
    /// was collected from the pool, and no runner counts more tasks than were
    /// submitted.
    pub open spec fn wf(&self) -> bool {
        &&& pool_wf(self.pool())
        &&& self.issued() <= usize::MAX
        &&& forall|k: usize| pool_knows(self.pool(), k) ==> k < self.issued()
        &&& forall|k: usize| self.cache().contains_key(k) ==> pool_drained(self.pool(), k)
        &&& forall|r: int| 0 <= r < self.pool().len() ==> (#[trigger] self.pool()[r]).load <= self.issued()
    }

    /// Whether `self` can come after `before`: what was tracked is tracked,
    /// and what was delivered stays delivered.
    pub open spec fn succeeds(&self, before: &Self) -> bool {
        &&& forall|k: usize| before.tracks(k) ==> self.tracks(k)
        &&& forall|k: usize| before.delivered(k) ==> self.delivered(k)
    }

    /// Whether `self` differs from `before` at most in the state of one
    /// runner.
    pub open spec fn stepped(&self, before: &Self, runner: int, after: RunnerView<F>) -> bool {
        &&& self.pool() == before.pool().update(runner, after)
        &&& self.cache() == before.cache()
        &&& self.issued() == before.issued()
    }

    /// An executor with `n_workers` runners and no task.
    pub fn start(n_workers: usize) -> (r: Self)
        ensures
            r.wf(),
            r.cache() == Map::<usize, Erased>::empty(),
            r.issued() == 0,
            r.pool().len() == n_workers,
            forall|i: int| 0 <= i < n_workers ==> #[trigger] r.pool()[i] == RunnerView::<F>::empty(),
    {
        Self::start_with_ids(n_workers, IdGenerator::default())
    }

    /// An executor with `n_workers` runners and no task, whose task
    /// identifiers go on from where `id_generator` stands.
    pub fn start_with_ids(n_workers: usize, id_generator: IdGenerator) -> (r: Self)
        ensures
            r.wf(),
            r.cache() == Map::<usize, Erased>::empty(),
            r.issued() == id_generator.issued(),
            r.pool().len() == n_workers,
            forall|i: int| 0 <= i < n_workers ==> #[trigger] r.pool()[i] == RunnerView::<F>::empty(),
    {
        proof {
            crate::id::lemma_issue_count_bounded(id_generator);
        }
        let r = Executor {
            results_cache: HashMap::new(),
            stage_details: Running { pool: Pool::new(n_workers), id_generator },
        };
        proof {
            assert(r.cache() =~= Map::<usize, Erased>::empty());
            assert forall|k: usize| pool_knows(r.pool(), k) implies k < r.issued() by {
                let i = choose|i: int| 0 <= i < r.pool().len() && (#[trigger] r.pool()[i]).knows(k);
                assert(r.pool()[i] == RunnerView::<F>::empty());
            }
            assert forall|i: int| 0 <= i < r.pool().len() implies (#[trigger] r.pool()[i]).load
                <= r.issued() by {
                assert(r.pool()[i] == RunnerView::<F>::empty());
            }
        }
        r
    }

    /// The number of runners.
    pub fn workers(&self) -> (r: usize)
        ensures
            r == self.pool().len(),
    {
        self.stage_details.pool.size()
    }

    /// Whether a task identifier is left, so that a task can be submitted.
    pub fn has_ids(&self) -> (r: bool)
        ensures
            r == (self.issued() < usize::MAX),
    {
        self.stage_details.id_generator.count() < usize::MAX
    }

    /// Submits a task: gives it the next identifier and places it on the
    /// least loaded runner. Once the identifiers are used up, the task is
    /// not submitted and `None` is returned, whether the executor has runners
    /// or not. An executor that has identifiers left needs a runner to place
    /// the task on.
    pub fn run(&mut self, f: F) -> (r: Option<Id>)
        requires
            old(self).wf(),
            old(self).pool().len() > 0 || old(self).issued() == usize::MAX,
        ensures
            final(self).wf(),
            final(self).cache() == old(self).cache(),
            old(self).issued() < usize::MAX ==> {
                &&& r matches Some(id)
                &&& id@ == old(self).issued()
                &&& final(self).issued() == old(self).issued() + 1
                &&& final(self).pool() == place(old(self).pool(), id, f)
                &&& final(self).tracks(id@)
                &&& !old(self).tracks(id@)
            },
            old(self).issued() == usize::MAX ==> {
                &&& r is None
                &&& final(self).issued() == old(self).issued()
                &&& final(self).pool() == old(self).pool()
            },
            final(self).succeeds(old(self)),
    {
        let id = self.stage_details.id_generator.next();
        if let Some(id) = id {
            proof {
                let pool = old(self).pool();
                assert(!pool_knows(pool, id@));
                lemma_place_keeps_wf(pool, id, f);
                lemma_least_loaded_is_first_minimum(loads(pool));
                assert(pool[least_loaded(loads(pool))].load <= old(self).issued());
            }
            self.stage_details.pool.run_future(id, f);
            proof {
                let pool = old(self).pool();
                let next = self.pool();
                let c = least_loaded(loads(pool));
                assert forall|r: int| 0 <= r < next.len() implies (#[trigger] next[r]).load
                    <= self.issued() by {
                    if r != c {
                        assert(next[r] == pool[r]);
                    }
                    assert(pool[r].load <= old(self).issued());
                }
                assert(self.cache() == old(self).cache());
                assert forall|k: usize| pool_knows(next, k) implies k < self.issued() by {
                    assert(pool_knows(pool, k) || k == id@);
                }
                assert(self.wf());
                assert(!old(self).tracks(id@)) by {
                    if pool_owes(pool, id@) {
                        lemma_pool_owed_is_known(pool, id@);
                    }
                    if old(self).cache().contains_key(id@) {
                        lemma_pool_drained_not_owed(pool, id@);
                    }
                }
            }
        } else {
            assert(self.pool() == old(self).pool());
            assert(self.cache() == old(self).cache());
            assert(self.issued() == old(self).issued());
        }
        id
    }

    /// Collects the results that wait on the runners into the cache, then
    /// takes the result of task `id` out of the cache and tries to give it
    /// the type `T`.
    pub fn take_result<T: 'static>(&mut self, id: Id) -> (r: FutureResult<T>)
        requires
            old(self).wf(),
        ensures
            final(self).wf(),
            final(self).issued() == old(self).issued(),
            final(self).pool() == collected_all(old(self).pool()),
            final(self).cache() == old(self).gathered().remove(id@),
            r is NonExistent <==> !old(self).gathered().contains_key(id@),
            r matches FutureResult::Other(erased) ==> erased == old(self).gathered()[id@],
            old(self).delivered(id@) ==> r is NonExistent,
            !(r is NonExistent) ==> final(self).delivered(id@),
            forall|k: usize| k != id@ && old(self).tracks(k) ==> final(self).tracks(k),
            forall|k: usize| old(self).delivered(k) ==> final(self).delivered(k),
    {
        let collected = self.stage_details.pool.collect_results();
        enter_results(&mut self.results_cache, collected);
        let r = self.take_result_no_update(id);
        proof {
            let pool = old(self).pool();
            let all = old(self).gathered();
            lemma_collected_all_keeps_wf(pool);
            assert(self.pool() == collected_all(pool));
            assert(self.cache() == all.remove(id@));
            assert(self.issued() == old(self).issued());
            assert forall|k: usize| all.contains_key(k) implies pool_drained(self.pool(), k) by {
                lemma_entered_keys(old(self).cache(), pending_results(pool), k);
            }
            assert forall|r: int| 0 <= r < self.pool().len() implies (#[trigger] self.pool()[r]).load
                <= self.issued() by {
                assert(pool[r].load <= old(self).issued());
            }
            assert(pool_wf(self.pool()));
            assert forall|k: usize| pool_knows(self.pool(), k) implies k < self.issued() by {
                assert(pool_knows(pool, k));
            }
            assert forall|k: usize| self.cache().contains_key(k) implies pool_drained(
                self.pool(),
                k,
            ) by {
                assert(all.contains_key(k));
            }
            assert(self.wf());
            assert forall|k: usize| old(self).delivered(k) implies !all.contains_key(k) by {
                lemma_entered_keys(old(self).cache(), pending_results(pool), k);
                lemma_pool_drained_not_owed(pool, k);
                if exists|i: int|
                    0 <= i < pending_results(pool).len() && (#[trigger] pending_results(pool)[i]).0@ == k {
                    let i = choose|i: int|
                        0 <= i < pending_results(pool).len() && (#[trigger] pending_results(pool)[i]).0@
                            == k;
                    lemma_pending_results_come_from_runner(pool, i);
                    let r = choose|r: int| 0 <= r < pool.len() && (#[trigger] pool[r]).results_has(k);
                    assert(pool[r].owes(k));
                }
            }
            assert forall|k: usize| k != id@ && old(self).tracks(k) implies self.tracks(k) by {
                lemma_entered_keys(old(self).cache(), pending_results(pool), k);
            }
        }
        r
    }

    /// Asks every runner to stop once it has no task left.
    pub fn stop(&mut self)
        requires
            old(self).wf(),
        ensures
            final(self).wf(),
            final(self).pool() == stopped_all(old(self).pool()),
            final(self).cache() == old(self).cache(),
            final(self).issued() == old(self).issued(),
            final(self).succeeds(old(self)),
    {
        proof {
            lemma_stopped_all_keeps_wf(self.pool());
        }
        self.stage_details.pool.stop();
        proof {
            let pool = old(self).pool();
            assert(self.cache() == old(self).cache());
            assert(self.issued() == old(self).issued());
            assert(self.pool() == stopped_all(pool));
            assert forall|r: int| 0 <= r < self.pool().len() implies (#[trigger] self.pool()[r]).load
                <= self.issued() by {
                assert(pool[r].load <= old(self).issued());
            }
            assert forall|k: usize| pool_knows(self.pool(), k) implies k < self.issued() by {
                assert(pool_knows(pool, k));
            }
            assert forall|k: usize| self.cache().contains_key(k) implies pool_drained(
                self.pool(),
                k,
            ) by {
                assert(pool_drained(pool, k));
            }
        }
    }

    /// Whether no runner has a task left, so that the executor can be
    /// joined.
    pub fn is_idle(&self) -> (r: bool)
        requires
            self.wf(),
        ensures
            r == all_idle(self.pool()),
    {
        self.stage_details.pool.is_idle()
    }

    /// Ends the first stage. Every runner has been asked to stop and has run
    /// until it had no task left; the results that wait on the runners go
    /// into the cache, and the executor that is returned only hands out
    /// results. Every result that was tracked is in its cache.
    pub fn join(self) -> (r: Executor<Finished>)
        requires
            self.wf(),
            all_idle(self.pool()),
        ensures
            r.cache() == self.gathered(),
            forall|k: usize| self.tracks(k) ==> r.cache().contains_key(k),
            forall|k: usize| self.delivered(k) ==> !r.cache().contains_key(k),
    {
        let mut results_cache = self.results_cache;
        let residual = self.stage_details.pool.join();
        enter_results(&mut results_cache, residual);
        let r = Executor { results_cache, stage_details: Finished };
        proof {
            let pool = self.pool();
            assert(r.cache() == self.gathered());
            assert forall|k: usize| self.tracks(k) implies r.cache().contains_key(k) by {
                lemma_entered_keys(self.cache(), pending_results(pool), k);
                if pool_owes(pool, k) {
                    lemma_idle_pool_owes_results(pool, k);
                }
            }
            assert forall|k: usize| self.delivered(k) implies !r.cache().contains_key(k) by {
                lemma_entered_keys(self.cache(), pending_results(pool), k);
                lemma_pool_drained_not_owed(pool, k);
                if exists|i: int|
                    0 <= i < pending_results(pool).len() && (#[trigger] pending_results(pool)[i]).0@ == k {
                    let i = choose|i: int|
                        0 <= i < pending_results(pool).len() && (#[trigger] pending_results(pool)[i]).0@
                            == k;
                    lemma_pending_results_come_from_runner(pool, i);
                    let o = choose|o: int| 0 <= o < pool.len() && (#[trigger] pool[o]).results_has(k);
                    assert(pool[o].owes(k));
                }
            }
        }
        r
    }

    /// A step of one runner that sends no task and collects no result keeps
    /// the executor's invariant, what it tracks and what it has delivered.
    pub proof fn lemma_runner_step(before: &Self, now: &Self, runner: int, after: RunnerView<F>)
        requires
            before.wf(),
            0 <= runner < before.pool().len(),
            after.wf(),
            after.follows(before.pool()[runner]),
            after.still_owes(before.pool()[runner]),
            now.stepped(before, runner, after),
        ensures
            now.wf(),
            now.succeeds(before),
    {
        let pool = before.pool();
        let next = now.pool();
        lemma_step_keeps_wf(pool, runner, after);
        assert forall|r: int| 0 <= r < next.len() implies (#[trigger] next[r]).load <= now.issued() by {
            if r != runner {
                assert(next[r] == pool[r]);
            }
            assert(pool[r].load <= before.issued());
        }
        assert forall|k: usize| pool_knows(next, k) implies k < now.issued() by {
            assert(pool_knows(pool, k));
        }
        assert forall|k: usize| now.cache().contains_key(k) implies pool_drained(next, k) by {
            assert(pool_drained(pool, k));
        }
    }

    /// The count of tasks of a runner.
    pub fn current_number_of_tasks(&self, runner: usize) -> (r: usize)
        requires
            runner < self.pool().len(),
        ensures
            r == self.pool()[runner as int].load,
    {
        self.stage_details.pool.current_number_of_tasks(runner)
    }

    /// Accepts the tasks that wait on a runner: each becomes live and gets
    /// a first wake signal.
    pub fn accept_submissions(&mut self, runner: usize)
        requires
            old(self).wf(),
            runner < old(self).pool().len(),
        ensures
            final(self).wf(),
            final(self).stepped(
                old(self),
                runner as int,
                old(self).pool()[runner as int].accept_all(),
            ),
            final(self).succeeds(old(self)),
    {
        self.stage_details.pool.accept_submissions(runner);
        proof {
            let before = old(self).pool()[runner as int];
            assert(before.wf());
            lemma_accept_all_keeps_wf(before);
            assert(self.cache() == old(self).cache());
            assert(self.issued() == old(self).issued());
            Self::lemma_runner_step(old(self), self, runner as int, before.accept_all());
        }
    }

    /// Queues a wake signal for `id` on a runner.
    pub fn wake(&mut self, runner: usize, id: Id)
        requires
            old(self).wf(),
            runner < old(self).pool().len(),
        ensures
            final(self).wf(),
            final(self).stepped(old(self), runner as int, old(self).pool()[runner as int].wake(id)),
            final(self).succeeds(old(self)),
    {
        self.stage_details.pool.wake(runner, id);
        proof {
            let before = old(self).pool()[runner as int];
            assert(before.wf());
            lemma_wake_keeps_wf(before, id);
            assert(self.cache() == old(self).cache());
            assert(self.issued() == old(self).issued());
            Self::lemma_runner_step(old(self), self, runner as int, before.wake(id));
        }
    }

    /// Takes the oldest wake signal of a runner. If it is for a live task,
    /// the task is handed out for one poll.
    pub fn next_wake(&mut self, runner: usize) -> (r: Wake<F>)
        requires
            old(self).wf(),
            runner < old(self).pool().len(),
            old(self).pool()[runner as int].polling is None,
        ensures
            final(self).wf(),
            final(self).succeeds(old(self)),
            old(self).pool()[runner as int].wakes.len() == 0 ==> {
                &&& r is Idle
                &&& final(self).pool() == old(self).pool()
                &&& final(self).cache() == old(self).cache()
                &&& final(self).issued() == old(self).issued()
            },
            old(self).pool()[runner as int].wakes.len() > 0 ==> {
                let before = old(self).pool()[runner as int];
                &&& final(self).stepped(old(self), runner as int, before.take_wake())
                &&& r == (if before.live.contains_key(before.wakes[0]@) {
                    Wake::Poll(before.wakes[0], before.live[before.wakes[0]@])
                } else {
                    Wake::Unknown(before.wakes[0])
                })
            },
    {
        let r = self.stage_details.pool.next_wake(runner);
        proof {
            let before = old(self).pool()[runner as int];
            assert(before.wf());
            assert(self.cache() == old(self).cache());
            assert(self.issued() == old(self).issued());
            if before.wakes.len() > 0 {
                lemma_take_wake_keeps_wf(before);
                Self::lemma_runner_step(old(self), self, runner as int, before.take_wake());
            } else {
                assert(self.pool() == old(self).pool());
            }
        }
        r
    }

    /// Takes back the task that was out for a poll on a runner, with the
    /// poll's answer.
    pub fn finish_poll(&mut self, runner: usize, fut: F, outcome: Poll<Erased>)
        requires
            old(self).wf(),
            runner < old(self).pool().len(),
            old(self).pool()[runner as int].polling is Some,
        ensures
            final(self).wf(),
            final(self).stepped(
                old(self),
                runner as int,
                old(self).pool()[runner as int].finish(fut, outcome),
            ),
            final(self).succeeds(old(self)),
    {
        let ghost after = self.pool()[runner as int].finish(fut, outcome);
        self.stage_details.pool.finish_poll(runner, fut, outcome);
        proof {
            let before = old(self).pool()[runner as int];
            assert(before.wf());
            lemma_finish_keeps_wf(before, fut, outcome);
            assert(self.cache() == old(self).cache());
            assert(self.issued() == old(self).issued());
            Self::lemma_runner_step(old(self), self, runner as int, after);
        }
    }

    /// Whether the thread of a runner is to end: the runner was asked to
    /// stop and has no task left.
    pub fn should_exit(&self, runner: usize) -> (r: bool)
        requires
            self.wf(),
            runner < self.pool().len(),
        ensures
            r == (self.pool()[runner as int].stopping && self.pool()[runner as int].idle()),
    {
        self.stage_details.pool.should_exit(runner)
    }

    /// Whether a task is out for a poll on a runner.
    pub fn is_polling(&self, runner: usize) -> (r: bool)
        requires
            runner < self.pool().len(),
        ensures
            r == (self.pool()[runner as int].polling is Some),
    {
        self.stage_details.pool.is_polling(runner)
    }

    /// Ends the first stage if no runner has a task left, and gives the
    /// executor back unchanged if one has.
    pub fn try_join(self) -> (r: Result<Executor<Finished>, Self>)
        requires
            self.wf(),
        ensures
            match r {
                Ok(joined) => {
                    &&& all_idle(self.pool())
                    &&& joined.cache() == self.gathered()
                    &&& forall|k: usize| self.tracks(k) ==> joined.cache().contains_key(k)
                    &&& forall|k: usize| self.delivered(k) ==> !joined.cache().contains_key(k)
                },
                Err(same) => !all_idle(self.pool()) && same == self,
            },
    {
        if self.is_idle() {
            Ok(self.join())
        } else {
            Err(self)
        }
    }
}

impl Executor<Finished> {
    /// Takes the result of task `id` out of the cache and tries to give it
    /// the type `T`.
    pub fn take_result<T: 'static>(&mut self, id: Id) -> (r: FutureResult<T>)
        ensures
            final(self).cache() == old(self).cache().remove(id@),
            r is NonExistent <==> !old(self).cache().contains_key(id@),
            r matches FutureResult::Other(erased) ==> erased == old(self).cache()[id@],
    {
        self.take_result_no_update(id)
    }
}

/// Every task that was submitted has a result once the executor is joined:
/// a result that is in the cache or due from a pool whose runners have no
/// task left is in the cache of the joined executor, so that a retrieval
/// finds it.
pub proof fn lemma_joined_executor_has_every_result<F>(
    cache: Map<usize, Erased>,
    pool: Seq<RunnerView<F>>,
    k: usize,
)
    requires
        all_idle(pool),
        cache.contains_key(k) || pool_owes(pool, k),
    ensures
        entered(cache, pending_results(pool)).contains_key(k),
{
    lemma_entered_keys(cache, pending_results(pool), k);
    if pool_owes(pool, k) {
        lemma_idle_pool_owes_results(pool, k);
    }
}

/// A result is taken at most once: after a retrieval for an identifier,
/// whatever it found, a second one finds nothing, and a retrieval for
/// another identifier finds what it would have found before.
pub proof fn lemma_taken_result_is_gone(cache: Map<usize, Erased>, id: Id, other: Id)
    requires
        other@ != id@,
    ensures
        !cache.remove(id@).contains_key(id@),
        cache.remove(id@).contains_key(other@) == cache.contains_key(other@),
        cache.contains_key(other@) ==> cache.remove(id@)[other@] == cache[other@],
{
}

} // verus!
