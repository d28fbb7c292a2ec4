//! The session timer: a background schedule that sends one tick per second
//! into a queue, which the session drains without ever waiting.

use vstd::prelude::*;
use std::sync::mpsc::{Receiver, Sender, TryRecvError};
use timer::{Guard, Timer};

verus! {

/// The scheduler of the `timer` crate. Dropping it ends its threads.
#[verifier::external_type_specification]
#[verifier::external_body]
pub struct ExTimer(timer::Timer);

/// The handle of one schedule of the `timer` crate. Dropping it cancels the
/// schedule.
#[verifier::external_type_specification]
#[verifier::external_body]
pub struct ExGuard(timer::Guard);

/// The receiving end of a queue of the standard library.
#[verifier::external_type_specification]
#[verifier::external_body]
#[verifier::reject_recursive_types(T)]
pub struct ExReceiver<T>(std::sync::mpsc::Receiver<T>);

/// The sending end of a queue of the standard library.
#[verifier::external_type_specification]
#[verifier::external_body]
#[verifier::reject_recursive_types(T)]
pub struct ExSender<T>(std::sync::mpsc::Sender<T>);

/// The period of the ticks, in seconds.
pub const TICK_SECONDS: i64 = 1;

/// The longest period that a schedule is asked for, in seconds: a day.
pub const MAX_PERIOD_SECONDS: i64 = 86_400;

/// A new unbounded queue for ticks.
///
/// Trusted: calls `std::sync::mpsc::channel`. Nothing is claimed of the two
/// ends.
#[verifier::external_body]
fn tick_channel() -> (ends: (Sender<()>, Receiver<()>)) {
    std::sync::mpsc::channel()
}

/// A new scheduler.
///
/// Trusted: calls `timer::Timer::new`, which starts the scheduler's two
/// threads and fails only if the system cannot start a thread. Nothing is
/// claimed of the result.
#[verifier::external_body]
fn new_scheduler() -> (scheduler: Timer) {
    Timer::new()
}

/// Schedules one tick into `tx` every `period_seconds` seconds, the first
/// one a period from now.
///
/// Trusted: calls `timer::Timer::schedule_repeating` with the period as a
/// `chrono::Duration`, which `chrono::Duration::seconds` makes of it, and
/// with a callback that hands the queue to [`deliver_tick`]. Nothing is
/// claimed of the result. `chrono` panics on a period, or on a date a period
/// from now, beyond its range, and the scheduler spins on a period of zero
/// or less; the bounds rule both out.
#[verifier::external_body]
fn schedule_ticks(scheduler: &Timer, period_seconds: i64, tx: Sender<()>) -> (guard: Guard)
    requires
        0 < period_seconds <= MAX_PERIOD_SECONDS,
{
    scheduler.schedule_repeating(chrono::Duration::seconds(period_seconds), move || deliver_tick(&tx))
}

/// Puts one tick into the queue and says whether the queue took it.
///
/// Trusted: calls `Sender::send`, which fails once the receiving end is
/// gone. Nothing is claimed of the result.
#[verifier::external_body]
fn send_tick(tx: &Sender<()>) -> (delivered: bool) {
    tx.send(()).is_ok()
}

/// Asks the queue for one tick, without waiting.
///
/// Trusted: calls `Receiver::try_recv`, which never blocks. It gives `Ok`
/// with a tick that waited, and an error if none waits or the sending end
/// is gone. Which of them comes depends on the time, so nothing is claimed
/// of the result; [`tick_of`] says what the timer makes of it, whatever it
/// is.
#[verifier::external_body]
fn try_receive(rx: &Receiver<()>) -> (received: Result<(), TryRecvError>) {
    rx.try_recv()
}

/// What the schedule does once per period: it sends a tick. A tick that
/// nobody is left to receive, because the timer was stopped in the
/// meantime, is dropped without further ado.
fn deliver_tick(tx: &Sender<()>) {
    let _delivered = send_tick(tx);
}

/// A timer that ticks once per second while it runs.
pub struct AppTimer {
    timer: Option<Timer>,
    guard: Option<Guard>,
    rx: Option<Receiver<()>>,
}

impl AppTimer {
    /// The timer has been started and not stopped since.
    pub closed spec fn is_running(&self) -> bool {
        self.rx is Some
    }

    /// A timer that does not run.
    pub fn new() -> (timer: AppTimer)
        ensures
            !timer.is_running(),
    {
        AppTimer { timer: None, guard: None, rx: None }
    }

    /// Cancels the schedule and throws away the ticks that were not polled.
    pub fn stop(&mut self)
        ensures
            !final(self).is_running(),
    {
        self.guard = None;
        self.timer = None;
        self.rx = None;
    }

    /// Starts a schedule of one tick per second, with a queue of its own: a
    /// tick of an earlier schedule never arrives in it.
    pub fn start(&mut self)
        ensures
            final(self).is_running(),
    {
        let (tx, rx) = tick_channel();
        let timer = new_scheduler();
        let guard = schedule_ticks(&timer, TICK_SECONDS, tx);
        self.timer = Some(timer);
        self.guard = Some(guard);
        self.rx = Some(rx);
    }

    /// One tick, if one has arrived since the last poll; never waits. A
    /// timer that does not run has no ticks.
    pub fn poll(&self) -> (tick: Option<()>)
        ensures
            !self.is_running() ==> tick is None,
    {
        match &self.rx {
            Some(rx) => tick_of(try_receive(rx)),
            None => None,
        }
    }
}

/// Why a queue of the standard library hands out nothing: it is empty, or
/// its sending end is gone.
#[verifier::external_type_specification]
#[verifier::external_body]
pub struct ExTryRecvError(std::sync::mpsc::TryRecvError);

/// What a poll makes of the queue's answer: a tick if the queue handed one
/// out, and nothing otherwise, whether the queue is empty for now or the
/// schedule behind it has ended.
pub fn tick_of(received: Result<(), TryRecvError>) -> (tick: Option<()>)
    ensures
        tick == if received is Ok {
            Some(())
        } else {
            None::<()>
        },
{
    match received {
        Ok(()) => Some(()),
        Err(_) => None,
    }
}

impl Default for AppTimer {
    fn default() -> (timer: Self)
        ensures
            !timer.is_running(),
    {
        AppTimer::new()
    }
}

} // verus!
