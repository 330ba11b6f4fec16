//! Timers: a worker that hands out sleepers to be woken when their deadline
//! has passed, and the future that sleeps.
//!
//! Time is a count of ticks of a monotonic clock, which the caller reads and
//! hands in. A deadline has passed when the clock shows a later tick.

use crate::minimum::first_minimum;
use crate::minimum::lemma_first_minimum;
use crate::minimum::lemma_first_minimum_step;
use std::collections::VecDeque;
use std::task::Poll;
use std::task::Waker;
use vstd::prelude::*;

verus! {

/// A sleeper: the handle to invoke, and the tick after which to invoke it.
pub struct WakerAndEnd {
    waker: Waker,
    end: u64,
}

impl WakerAndEnd {
    /// The deadline.
    pub closed spec fn end(&self) -> u64 {
        self.end
    }

    /// The handle to invoke.
    pub closed spec fn waker(&self) -> Waker {
        self.waker
    }

    pub fn new(waker: Waker, end: u64) -> (r: Self)
        ensures
            r.end() == end,
            r.waker() == waker,
    {
        WakerAndEnd { waker, end }
    }

    /// The deadline.
    pub fn deadline(&self) -> (r: u64)
        ensures
            r == self.end(),
    {
        self.end
    }

    /// Whether the deadline has passed at tick `now`.
    pub fn is_finished(&self, now: u64) -> (r: bool)
        ensures
            r == (self.end() < now),
    {
        self.end < now
    }

    /// Gives the sleeper up for its handle, which the caller invokes.
    pub fn into_waker(self) -> (r: Waker)
        ensures
            r == self.waker(),
    {
        self.waker
    }
}

/// The deadlines of sleepers, in their order.
pub open spec fn deadlines(sleepers: Seq<WakerAndEnd>) -> Seq<nat> {
    Seq::new(sleepers.len(), |i: int| sleepers[i].end() as nat)
}

/// The position of the sleeper that is due first: the earliest deadline, and
/// among equal deadlines the sleeper that came first.
pub open spec fn earliest(sleepers: Seq<WakerAndEnd>) -> int {
    first_minimum(deadlines(sleepers))
}

/// The state of the timer worker.
pub struct TimerView {
    /// The sleepers that were sent to the worker and that it has not taken
    /// in yet, oldest first.
    pub requests: Seq<WakerAndEnd>,
    /// The sleepers that the worker watches, in the order in which it took
    /// them in.
    pub waiting: Seq<WakerAndEnd>,
}

impl TimerView {
    /// Every sleeper that the worker has to wake, once the requests are
    /// taken in.
    pub open spec fn all(self) -> Seq<WakerAndEnd> {
        self.waiting + self.requests
    }

    /// Whether a turn of the worker at tick `now` hands out a sleeper to be
    /// woken.
    pub open spec fn fires(self, now: u64) -> bool {
        self.all().len() > 0 && self.all()[earliest(self.all())].end() < now
    }

    /// The worker after a turn at tick `now`: the requests are taken in, and
    /// the sleeper that is due first is gone if its deadline has passed.
    pub open spec fn turned(self, now: u64) -> Self {
        TimerView {
            requests: Seq::empty(),
            waiting: if self.fires(now) {
                self.all().remove(earliest(self.all()))
            } else {
                self.all()
            },
        }
    }
}

/// The timer worker: the queue on which sleepers arrive, and the sleepers
/// that it watches.
pub struct TimerThread {
    requests: VecDeque<WakerAndEnd>,
    to_check: Vec<WakerAndEnd>,
}

impl View for TimerThread {
    type V = TimerView;

    closed spec fn view(&self) -> TimerView {
        TimerView { requests: self.requests@, waiting: self.to_check@ }
    }
}

impl TimerThread {
    /// A worker without sleepers.
    pub fn new() -> (r: Self)
        ensures
            r@.requests == Seq::<WakerAndEnd>::empty(),
            r@.waiting == Seq::<WakerAndEnd>::empty(),
    {
        TimerThread { requests: VecDeque::new(), to_check: Vec::new() }
    }

    /// Sends a sleeper to the worker.
    pub fn send(&mut self, sleeper: WakerAndEnd)
        ensures
            final(self)@.requests == old(self)@.requests.push(sleeper),
            final(self)@.waiting == old(self)@.waiting,
    {
        self.requests.push_back(sleeper);
    }

    /// Whether the worker has a sleeper to wake.
    pub fn has_sleepers(&self) -> (r: bool)
        ensures
            r == (self@.all().len() > 0),
    {
        self.requests.len() > 0 || self.to_check.len() > 0
    }

    /// Takes in the sleepers that have arrived, oldest first.
    pub fn accept_requests(&mut self)
        ensures
            final(self)@.requests == Seq::<WakerAndEnd>::empty(),
            final(self)@.waiting == old(self)@.all(),
    {
        loop
            invariant
                self@.all() == old(self)@.all(),
            ensures
                self@.requests == Seq::<WakerAndEnd>::empty(),
                self@.waiting == old(self)@.all(),
            decreases self@.requests.len(),
        {
            let ghost before = self@;
            match self.requests.pop_front() {
                Some(sleeper) => {
                    self.to_check.push(sleeper);
                    assert(self@.requests =~= before.requests.skip(1));
                    assert(self@.all() =~= before.all());
                },
                None => {
                    assert(self@.requests =~= Seq::<WakerAndEnd>::empty());
                    assert(self@.all() =~= self@.waiting);
                    break ;
                },
            }
        }
    }

    /// The position of the watched sleeper that is due first.
    fn earliest_waiting(&self) -> (r: usize)
        requires
            self@.waiting.len() > 0,
        ensures
            r == earliest(self@.waiting),
            r < self@.waiting.len(),
    {
        let ghost all = deadlines(self@.waiting);
        let mut best: usize = 0;
        let mut best_end: u64 = self.to_check[0].deadline();
        let mut i: usize = 1;
        proof {
            lemma_first_minimum_step(all.take(1));
        }
        while i < self.to_check.len()
            invariant
                1 <= i <= self.to_check.len(),
                all == deadlines(self@.waiting),
                all.len() == self.to_check.len(),
                best < i,
                best == first_minimum(all.take(i as int)),
                best_end == all[best as int],
            decreases self.to_check.len() - i,
        {
            let end: u64 = self.to_check[i].deadline();
            proof {
                let upto = all.take(i + 1);
                assert(upto.drop_last() =~= all.take(i as int));
                assert(upto.last() == all[i as int]);
                assert(upto[best as int] == all[best as int]);
                lemma_first_minimum_step(upto);
            }
            if end < best_end {
                best = i;
                best_end = end;
            }
            i = i + 1;
        }
        assert(all.take(i as int) =~= all);
        best
    }

    /// Removes the watched sleeper that is due first, if its deadline has
    /// passed at tick `now`.
    pub fn pop_finished(&mut self, now: u64) -> (r: Option<WakerAndEnd>)
        ensures
            final(self)@.requests == old(self)@.requests,
            match r {
                Some(sleeper) => {
                    let waiting = old(self)@.waiting;
                    &&& waiting.len() > 0
                    &&& sleeper == waiting[earliest(waiting)]
                    &&& sleeper.end() < now
                    &&& final(self)@.waiting == waiting.remove(earliest(waiting))
                },
                None => {
                    let waiting = old(self)@.waiting;
                    &&& final(self)@.waiting == waiting
                    &&& waiting.len() > 0 ==> waiting[earliest(waiting)].end() >= now
                },
            },
    {
        if self.to_check.len() == 0 {
            return None;
        }
        let first: usize = self.earliest_waiting();
        if self.to_check[first].is_finished(now) {
            Some(self.to_check.remove(first))
        } else {
            None
        }
    }

    /// One turn of the worker at tick `now`: it takes in the sleepers that
    /// have arrived, and takes out the one that is due first if its deadline
    /// has passed. The caller invokes the handle of the sleeper that is
    /// returned; if none is, there is nothing to do until the clock moves on
    /// or a sleeper arrives.
    pub fn tick(&mut self, now: u64) -> (due: Option<WakerAndEnd>)
        ensures
            due is Some == old(self)@.fires(now),
            due matches Some(sleeper) ==> sleeper == old(self)@.all()[earliest(old(self)@.all())],
            final(self)@ == old(self)@.turned(now),
    {
        self.accept_requests();
        self.pop_finished(now)
    }
}

/// Sleepers are woken in the order of their deadlines: the sleeper that a
/// turn hands out is due no later than any that stays, and its deadline has
/// passed.
pub proof fn lemma_woken_is_due_first(timer: TimerView, now: u64, i: int)
    requires
        timer.fires(now),
        0 <= i < timer.turned(now).waiting.len(),
    ensures
        timer.all()[earliest(timer.all())].end() <= timer.turned(now).waiting[i].end(),
        timer.all()[earliest(timer.all())].end() < now,
{
    let all = timer.all();
    let e = earliest(all);
    lemma_first_minimum(deadlines(all));
    let stays = if i < e { i } else { i + 1 };
    assert(timer.turned(now).waiting[i] == all[stays]);
    assert(deadlines(all)[e] <= deadlines(all)[stays]);
}

/// A sleeper is woken at most once: the turn that hands it out takes it
/// out, and every other sleeper stays, in its order.
pub proof fn lemma_woken_once(timer: TimerView, now: u64)
    requires
        timer.fires(now),
    ensures
        timer.turned(now).waiting.len() == timer.all().len() - 1,
        timer.turned(now).waiting == timer.all().take(earliest(timer.all())) + timer.all().skip(
            earliest(timer.all()) + 1,
        ),
{
    let all = timer.all();
    lemma_first_minimum(deadlines(all));
    assert(all.remove(earliest(all)) =~= all.take(earliest(all)) + all.skip(earliest(all) + 1));
}

/// No sleeper is woken early: a turn at a tick that is not past any deadline
/// hands out nobody and keeps every sleeper.
pub proof fn lemma_nobody_woken_early(timer: TimerView, now: u64)
    requires
        forall|i: int| 0 <= i < timer.all().len() ==> (#[trigger] timer.all()[i]).end() >= now,
    ensures
        !timer.fires(now),
        timer.turned(now).waiting == timer.all(),
{
    let all = timer.all();
    if all.len() > 0 {
        lemma_first_minimum(deadlines(all));
        assert(all[earliest(all)].end() >= now);
    }
}

/// Where a timer future is.
pub enum TimerFutureState {
    /// Not polled yet; the deadline is known.
    Timer(u64),
    /// The worker has the sleeper; the future waits for the deadline.
    Waiting(u64),
    /// The deadline has passed and the future has said so. It must not be
    /// polled again.
    Done,
}

/// A future that is ready once a duration has passed since it was made.
pub struct TimerFuture {
    timeout: u64,
    state: TimerFutureState,
}

impl TimerFuture {
    /// The duration that the future sleeps, in ticks.
    pub closed spec fn timeout(&self) -> u64 {
        self.timeout
    }

    /// Where the future is.
    pub closed spec fn state(&self) -> TimerFutureState {
        self.state
    }

    /// The tick after which the future is ready, as long as it is not done.
    pub open spec fn deadline(&self) -> Option<u64> {
        match self.state() {
            TimerFutureState::Timer(end) => Some(end),
            TimerFutureState::Waiting(end) => Some(end),
            TimerFutureState::Done => None,
        }
    }

    /// A future that sleeps for `timeout` ticks from tick `now`.
    pub fn new(timeout: u64, now: u64) -> (r: Self)
        requires
            now + timeout <= u64::MAX,
        ensures
            r.timeout() == timeout,
            r.state() == TimerFutureState::Timer((now + timeout) as u64),
    {
        TimerFuture { timeout, state: TimerFutureState::Timer(now + timeout) }
    }

    /// Whether the future has said that it is ready.
    pub fn is_done(&self) -> (r: bool)
        ensures
            r == (self.state() is Done),
    {
        match &self.state {
            TimerFutureState::Done => true,
            _ => false,
        }
    }

    /// Polls the future at tick `now`.
    ///
    /// The first poll sends a sleeper with the deadline and `waker` to the
    /// timer worker, and answers "pending". A later poll answers "ready",
    /// with the duration, if the deadline has passed, and "pending" if it
    /// has not; it has no use for `waker`.
    pub fn poll(&mut self, thread: &mut TimerThread, waker: Waker, now: u64) -> (r: Poll<u64>)
        requires
            !(old(self).state() is Done),
        ensures
            final(self).timeout() == old(self).timeout(),
            final(thread)@.waiting == old(thread)@.waiting,
            match old(self).state() {
                TimerFutureState::Timer(end) => {
                    &&& r is Pending
                    &&& final(self).state() == TimerFutureState::Waiting(end)
                    &&& final(thread)@.requests.len() == old(thread)@.requests.len() + 1
                    &&& final(thread)@.requests.drop_last() == old(thread)@.requests
                    &&& final(thread)@.requests.last().end() == end
                    &&& final(thread)@.requests.last().waker() == waker
                },
                TimerFutureState::Waiting(end) => {
                    &&& final(thread)@.requests == old(thread)@.requests
                    &&& if end < now {
                        r == Poll::Ready(old(self).timeout()) && final(self).state() is Done
                    } else {
                        r is Pending && final(self).state() == old(self).state()
                    }
                },
                TimerFutureState::Done => false,
            },
    {
        let mut state = TimerFutureState::Done;
        core::mem::swap(&mut state, &mut self.state);
        match state {
            TimerFutureState::Timer(end) => {
                let sleeper = WakerAndEnd::new(waker, end);
                thread.send(sleeper);
                assert(thread@.requests.drop_last() =~= old(thread)@.requests);
                self.state = TimerFutureState::Waiting(end);
                Poll::Pending
            },
            TimerFutureState::Waiting(end) => {
                if end < now {
                    Poll::Ready(self.timeout)
                } else {
                    self.state = TimerFutureState::Waiting(end);
                    Poll::Pending
                }
            },
            TimerFutureState::Done => unreached(),
        }
    }
}

/// A future that sleeps for `ms` ticks from tick `now`.
pub fn sleep(ms: u64, now: u64) -> (r: TimerFuture)
    requires
        now + ms <= u64::MAX,
    ensures
        r.timeout() == ms,
        r.state() == TimerFutureState::Timer((now + ms) as u64),
{
    TimerFuture::new(ms, now)
}

/// A timer future is never ready early: if a future that was made at tick
/// `created` to sleep for `timeout` ticks is ready at tick `now`, more than
/// `timeout` ticks have passed since it was made.
pub proof fn lemma_timer_sleeps_full_duration(future: TimerFuture, created: u64, now: u64)
    requires
        created + future.timeout() <= u64::MAX,
        future.deadline() == Some((created + future.timeout()) as u64),
        future.deadline().unwrap() < now,
    ensures
        now - created > future.timeout(),
{
}

/// The time between the first poll of a timer future and the poll at which
/// it is ready is longer than its duration, where the future is first polled
/// at the tick at which it was made.
pub proof fn lemma_timer_sleeps_from_first_poll(
    future: TimerFuture,
    created: u64,
    first_poll: u64,
    now: u64,
)
    requires
        created + future.timeout() <= u64::MAX,
        future.deadline() == Some((created + future.timeout()) as u64),
        first_poll == created,
        future.deadline().unwrap() < now,
    ensures
        now - first_poll > future.timeout(),
{
}

} // verus!
