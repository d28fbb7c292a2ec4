use minesweep::clock::tick_of;
use minesweep::AppTimer;
use std::sync::mpsc::TryRecvError;
use std::time::{Duration, Instant};

/// Blocks for the given span: nothing is ever sent into the queue.
fn wait(span: Duration) {
    let (_tx, rx) = std::sync::mpsc::channel::<()>();
    let start = Instant::now();
    while start.elapsed() < span {
        let _ = rx.recv_timeout(span - start.elapsed());
    }
}

fn poll_until_tick(timer: &AppTimer, limit: Duration) -> bool {
    let start = Instant::now();
    while start.elapsed() < limit {
        if timer.poll().is_some() {
            return true;
        }
        wait(Duration::from_millis(5));
    }
    false
}

#[test]
fn a_timer_that_was_not_started_has_no_ticks() {
    let timer = AppTimer::new();
    assert_eq!(timer.poll(), None);
    let timer = AppTimer::default();
    assert_eq!(timer.poll(), None);
}

#[test]
fn a_started_timer_ticks_once_per_second() {
    let mut timer = AppTimer::new();
    let started = Instant::now();
    timer.start();
    assert_eq!(timer.poll(), None);
    assert!(poll_until_tick(&timer, Duration::from_secs(5)));
    assert!(started.elapsed() >= Duration::from_millis(900));
    assert_eq!(timer.poll(), None);
    timer.stop();
}

#[test]
fn ticks_wait_in_order_until_they_are_polled() {
    let mut timer = AppTimer::new();
    timer.start();
    wait(Duration::from_millis(2500));
    assert_eq!(timer.poll(), Some(()));
    assert_eq!(timer.poll(), Some(()));
    assert_eq!(timer.poll(), None);
    timer.stop();
}

#[test]
fn a_stopped_timer_has_no_ticks() {
    let mut timer = AppTimer::new();
    timer.start();
    wait(Duration::from_millis(1300));
    timer.stop();
    assert_eq!(timer.poll(), None);
    wait(Duration::from_millis(1200));
    assert_eq!(timer.poll(), None);
    timer.stop();
    assert_eq!(timer.poll(), None);
}

#[test]
fn a_restarted_timer_drops_the_ticks_of_its_first_run() {
    let mut timer = AppTimer::new();
    timer.start();
    wait(Duration::from_millis(1300));
    timer.stop();
    timer.start();
    assert_eq!(timer.poll(), None);
    assert!(poll_until_tick(&timer, Duration::from_secs(5)));
    timer.stop();
}

#[test]
fn a_timer_can_be_started_twice() {
    let mut timer = AppTimer::new();
    timer.start();
    wait(Duration::from_millis(1300));
    timer.start();
    assert_eq!(timer.poll(), None);
    wait(Duration::from_millis(1300));
    assert_eq!(timer.poll(), Some(()));
    assert_eq!(timer.poll(), None);
}

#[test]
fn a_poll_hands_on_a_tick_and_nothing_else() {
    assert_eq!(tick_of(Ok(())), Some(()));
    assert_eq!(tick_of(Err(TryRecvError::Empty)), None);
    assert_eq!(tick_of(Err(TryRecvError::Disconnected)), None);
}
