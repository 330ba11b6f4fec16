use coop_runtime::timer_future::sleep;
use coop_runtime::timer_future::TimerFuture;
use coop_runtime::timer_future::TimerThread;
use coop_runtime::timer_future::WakerAndEnd;
use std::sync::atomic::AtomicUsize;
use std::sync::atomic::Ordering;
use std::sync::Arc;
use std::sync::Mutex;
use std::task::Poll;
use std::task::Wake;
use std::task::Waker;

struct Counter {
    wakes: AtomicUsize,
}

impl Wake for Counter {
    fn wake(self: Arc<Self>) {
        self.wakes.fetch_add(1, Ordering::SeqCst);
    }
}

fn counter() -> (Arc<Counter>, Waker) {
    let counter = Arc::new(Counter { wakes: AtomicUsize::new(0) });
    (counter.clone(), Waker::from(counter))
}

struct Named {
    name: u32,
    log: Arc<Mutex<Vec<u32>>>,
}

impl Wake for Named {
    fn wake(self: Arc<Self>) {
        self.log.lock().unwrap().push(self.name);
    }
}

fn named(name: u32, log: &Arc<Mutex<Vec<u32>>>) -> Waker {
    Waker::from(Arc::new(Named { name, log: log.clone() }))
}

/// One turn of the timer worker: the sleeper that is due, if one is, is
/// woken. Returns whether one was.
fn turn(timer: &mut TimerThread, now: u64) -> bool {
    match timer.tick(now) {
        Some(sleeper) => {
            sleeper.into_waker().wake();
            true
        }
        None => false,
    }
}

#[test]
fn sleeper_is_finished_only_after_its_deadline() {
    let (_, waker) = counter();
    let sleeper = WakerAndEnd::new(waker, 10);
    assert_eq!(sleeper.deadline(), 10);
    assert!(!sleeper.is_finished(0));
    assert!(!sleeper.is_finished(9));
    assert!(!sleeper.is_finished(10));
    assert!(sleeper.is_finished(11));
    assert!(sleeper.is_finished(u64::MAX));
}

#[test]
fn sleeper_wake_invokes_the_handle() {
    let (count, waker) = counter();
    WakerAndEnd::new(waker, 0).into_waker().wake();
    assert_eq!(count.wakes.load(Ordering::SeqCst), 1);
}

#[test]
fn empty_timer_wakes_nobody() {
    let mut timer = TimerThread::new();
    assert!(!timer.has_sleepers());
    assert!(!turn(&mut timer, 0));
    assert!(!turn(&mut timer, u64::MAX));
    assert!(timer.pop_finished(u64::MAX).is_none());
}

#[test]
fn timer_wakes_in_deadline_order() {
    let log = Arc::new(Mutex::new(Vec::new()));
    let mut timer = TimerThread::new();
    timer.send(WakerAndEnd::new(named(150, &log), 150));
    timer.send(WakerAndEnd::new(named(50, &log), 50));
    timer.send(WakerAndEnd::new(named(200, &log), 200));
    timer.send(WakerAndEnd::new(named(100, &log), 100));
    assert!(timer.has_sleepers());
    let mut fired = 0;
    while turn(&mut timer, 1000) {
        fired += 1;
    }
    assert_eq!(fired, 4);
    assert_eq!(*log.lock().unwrap(), vec![50, 100, 150, 200]);
    assert!(!timer.has_sleepers());
}

#[test]
fn timer_wakes_nobody_early() {
    let (count, waker) = counter();
    let mut timer = TimerThread::new();
    timer.send(WakerAndEnd::new(waker, 10));
    for now in 0..=10 {
        assert!(!turn(&mut timer, now));
    }
    assert_eq!(count.wakes.load(Ordering::SeqCst), 0);
    assert!(turn(&mut timer, 11));
    assert_eq!(count.wakes.load(Ordering::SeqCst), 1);
}

#[test]
fn timer_wakes_each_sleeper_once() {
    let (count, waker) = counter();
    let mut timer = TimerThread::new();
    timer.send(WakerAndEnd::new(waker, 1));
    assert!(turn(&mut timer, 5));
    assert!(!turn(&mut timer, 5));
    assert!(!turn(&mut timer, 500));
    assert_eq!(count.wakes.load(Ordering::SeqCst), 1);
}

#[test]
fn one_turn_wakes_one_sleeper() {
    let log = Arc::new(Mutex::new(Vec::new()));
    let mut timer = TimerThread::new();
    timer.send(WakerAndEnd::new(named(1, &log), 1));
    timer.send(WakerAndEnd::new(named(2, &log), 2));
    assert!(turn(&mut timer, 10));
    assert_eq!(*log.lock().unwrap(), vec![1]);
    assert!(turn(&mut timer, 10));
    assert_eq!(*log.lock().unwrap(), vec![1, 2]);
    assert!(!turn(&mut timer, 10));
}

#[test]
fn equal_deadlines_wake_in_arrival_order() {
    let log = Arc::new(Mutex::new(Vec::new()));
    let mut timer = TimerThread::new();
    timer.send(WakerAndEnd::new(named(1, &log), 7));
    timer.send(WakerAndEnd::new(named(2, &log), 7));
    timer.send(WakerAndEnd::new(named(3, &log), 7));
    while turn(&mut timer, 8) {}
    assert_eq!(*log.lock().unwrap(), vec![1, 2, 3]);
}

#[test]
fn shorter_request_that_arrives_later_is_not_missed() {
    let log = Arc::new(Mutex::new(Vec::new()));
    let mut timer = TimerThread::new();
    timer.send(WakerAndEnd::new(named(100, &log), 100));
    assert!(!turn(&mut timer, 5));
    timer.send(WakerAndEnd::new(named(10, &log), 10));
    assert!(turn(&mut timer, 11));
    assert_eq!(*log.lock().unwrap(), vec![10]);
    assert!(!turn(&mut timer, 100));
    assert!(turn(&mut timer, 101));
    assert_eq!(*log.lock().unwrap(), vec![10, 100]);
}

#[test]
fn pop_finished_looks_at_watched_sleepers_only() {
    let (_, waker) = counter();
    let mut timer = TimerThread::new();
    timer.send(WakerAndEnd::new(waker, 1));
    assert!(timer.pop_finished(100).is_none());
    timer.accept_requests();
    assert!(timer.pop_finished(1).is_none());
    let sleeper = timer.pop_finished(2).unwrap();
    assert_eq!(sleeper.deadline(), 1);
    assert!(timer.pop_finished(100).is_none());
}

#[test]
fn timer_future_first_poll_registers_and_pends() {
    let (count, waker) = counter();
    let mut timer = TimerThread::new();
    let mut future = TimerFuture::new(100, 20);
    assert!(!future.is_done());
    assert!(!timer.has_sleepers());
    assert!(matches!(future.poll(&mut timer, waker.clone(), 500), Poll::Pending));
    assert!(timer.has_sleepers());
    assert!(!future.is_done());
    assert!(!turn(&mut timer, 120));
    assert_eq!(count.wakes.load(Ordering::SeqCst), 0);
    assert!(turn(&mut timer, 121));
    assert_eq!(count.wakes.load(Ordering::SeqCst), 1);
}

#[test]
fn timer_future_is_ready_after_the_deadline_with_its_duration() {
    let (_, waker) = counter();
    let mut timer = TimerThread::new();
    let mut future = TimerFuture::new(100, 20);
    assert!(matches!(future.poll(&mut timer, waker.clone(), 20), Poll::Pending));
    assert!(matches!(future.poll(&mut timer, waker.clone(), 119), Poll::Pending));
    assert!(matches!(future.poll(&mut timer, waker.clone(), 120), Poll::Pending));
    assert!(!future.is_done());
    assert!(matches!(future.poll(&mut timer, waker.clone(), 121), Poll::Ready(100)));
    assert!(future.is_done());
}

#[test]
fn timer_future_registers_once() {
    let (count, waker) = counter();
    let mut timer = TimerThread::new();
    let mut future = sleep(5, 0);
    assert!(matches!(future.poll(&mut timer, waker.clone(), 0), Poll::Pending));
    assert!(matches!(future.poll(&mut timer, waker.clone(), 1), Poll::Pending));
    assert!(matches!(future.poll(&mut timer, waker.clone(), 2), Poll::Pending));
    let mut fired = 0;
    while turn(&mut timer, 1000) {
        fired += 1;
    }
    assert_eq!(fired, 1);
    assert_eq!(count.wakes.load(Ordering::SeqCst), 1);
}

#[test]
fn zero_duration_still_waits_for_the_next_tick() {
    let (_, waker) = counter();
    let mut timer = TimerThread::new();
    let mut future = sleep(0, 40);
    assert!(matches!(future.poll(&mut timer, waker.clone(), 40), Poll::Pending));
    assert!(matches!(future.poll(&mut timer, waker.clone(), 40), Poll::Pending));
    assert!(matches!(future.poll(&mut timer, waker.clone(), 41), Poll::Ready(0)));
}

#[test]
fn deadline_counts_from_creation_not_from_first_poll() {
    let (_, waker) = counter();
    let mut timer = TimerThread::new();
    let mut future = sleep(100, 0);
    assert!(matches!(future.poll(&mut timer, waker.clone(), 90), Poll::Pending));
    assert!(matches!(future.poll(&mut timer, waker.clone(), 101), Poll::Ready(100)));
}

#[test]
fn longest_possible_sleep_can_be_made() {
    let future = TimerFuture::new(u64::MAX - 5, 5);
    assert!(!future.is_done());
}

#[test]
fn tick_hands_out_the_sleeper_that_is_due_and_wakes_nobody() {
    let (count, waker) = counter();
    let mut timer = TimerThread::new();
    timer.send(WakerAndEnd::new(waker, 3));
    assert!(timer.tick(3).is_none());
    let sleeper = timer.tick(4).unwrap();
    assert_eq!(sleeper.deadline(), 3);
    assert_eq!(count.wakes.load(Ordering::SeqCst), 0);
    sleeper.into_waker().wake();
    assert_eq!(count.wakes.load(Ordering::SeqCst), 1);
    assert!(timer.tick(100).is_none());
}
