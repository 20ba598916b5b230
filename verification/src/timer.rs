//! Wall-clock time for the steps of a run.

use vstd::prelude::*;

verus! {

/// `std::time::Instant`, a moment on the clock; nothing is known of what
/// one holds.
#[verifier::external_type_specification]
#[verifier::external_body]
pub struct ExInstant(std::time::Instant);

/// `std::time::Instant::now` reads the clock; nothing is known of what it
/// returns.
pub assume_specification[ std::time::Instant::now ]() -> std::time::Instant;

/// `std::time::Instant::elapsed` reads the clock again; nothing is known of
/// the time that it returns.
pub assume_specification[ std::time::Instant::elapsed ](instant: &std::time::Instant) -> std::time::Duration;

/// `format!` lays out one line of a report from the event's name and the
/// two times; nothing is claimed of the text.
#[verifier::external_body]
fn report_line(total: std::time::Duration, event: &str, taken: std::time::Duration) -> String {
    format!("Total: {:15}{:10}{:15}", format!("{:?}", total), event, format!("{:?}", taken))
}

/// Times the steps of a run from the moment it was made.
pub struct SubEventTimer {
    total_timer: std::time::Instant,
}

impl SubEventTimer {
    /// A timer that starts now.
    pub fn new_timer() -> SubEventTimer {
        SubEventTimer { total_timer: std::time::Instant::now() }
    }

    /// Runs `func` and hands back what it returns, together with a line
    /// that names `event`, the time that `func` took and the time since the
    /// timer started.
    pub fn time_subevent<G, F: FnOnce() -> G>(&self, event: &str, func: F) -> (timed: (G, String))
        requires
            call_requires(func, ()),
        ensures
            call_ensures(func, (), timed.0),
    {
        let timer = std::time::Instant::now();
        let res = func();
        let taken = timer.elapsed();
        let line = report_line(self.elapsed(), event, taken);
        (res, line)
    }

    /// The time since the timer started.
    pub fn elapsed(&self) -> std::time::Duration {
        self.total_timer.elapsed()
    }
}

} // verus!
