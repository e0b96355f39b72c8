//! Deadlines of clipboard transfers, in nanoseconds.

use std::time::Instant;
use vstd::prelude::*;

verus! {

/// How long the remote may take to answer one request.
pub const READ_TIMEOUT: u128 = 30_000_000_000;

/// How long the compositor's connection is waited for at once.
pub const WAYLAND_POLL_INTERVAL: u128 = 100_000_000;

/// How long the compositor may take to advertise what is needed.
pub const COMPOSITOR_REPLY_TIMEOUT: u128 = 2_000_000_000;

/// How long a transfer through a pipe may go without progress.
pub const PIPE_STALL_TIMEOUT: u128 = 2_000_000_000;

/// How long a transfer through a pipe may take in all.
pub const PIPE_TOTAL_TIMEOUT: u128 = 20_000_000_000;

/// How many milliseconds a pipe is waited for at once.
pub const PIPE_POLL_MILLIS: i32 = 100;

/// `std::time::Instant`, a reading of the monotonic clock.
#[verifier::external_type_specification]
#[verifier::external_body]
pub struct ExInstant(Instant);

/// `Instant::elapsed`: the nanoseconds from a reading of the clock to now. Nothing is
/// claimed of the number, which rests on the clock.
#[verifier::external_body]
fn elapsed_nanos(since: &Instant) -> (nanos: u128) {
    since.elapsed().as_nanos()
}

/// Whether a transfer that has run for `elapsed`, the last `idle` of it without
/// progress, has used up its time.
pub fn time_used_up(elapsed: u128, idle: u128, stall: u128, total: u128) -> (timed_out: bool)
    ensures
        timed_out == (elapsed >= total || idle >= stall),
{
    elapsed >= total || idle >= stall
}

/// How long it is from `since` to `now`; nothing if `since` is later.
pub open spec fn time_since(now: u128, since: u128) -> u128 {
    if now >= since {
        (now - since) as u128
    } else {
        0
    }
}

/// The time that a transfer has, and has used. Times are readings of one clock.
pub struct Deadline {
    pub started: u128,
    pub last_progress: u128,
    pub stall: u128,
    pub total: u128,
}

impl Deadline {
    /// The time of a transfer that begins `now`.
    pub fn new(now: u128, stall: u128, total: u128) -> (deadline: Self)
        ensures
            deadline == (Deadline { started: now, last_progress: now, stall, total }),
    {
        Deadline { started: now, last_progress: now, stall, total }
    }

    /// Whether the time is used up at `now`.
    pub open spec fn used_up(self, now: u128) -> bool {
        time_since(now, self.started) >= self.total || time_since(now, self.last_progress)
            >= self.stall
    }

    /// Something was moved at `now`.
    pub fn progress(&mut self, now: u128)
        ensures
            *final(self) == (Deadline { last_progress: now, ..*old(self) }),
    {
        self.last_progress = now;
    }

    /// Whether the transfer has run for `total`, or for `stall` without progress, at `now`.
    pub fn timed_out(&self, now: u128) -> (timed_out: bool)
        ensures
            timed_out == self.used_up(now),
    {
        time_used_up(
            now.saturating_sub(self.started),
            now.saturating_sub(self.last_progress),
            self.stall,
            self.total,
        )
    }
}

/// Whether a transfer has run for `total`, or for `stall` without progress, by now.
/// A limit of nothing is used up whatever the clock says.
pub fn transfer_timed_out(
    started: Instant,
    last_progress: Instant,
    stall: u128,
    total: u128,
) -> (timed_out: bool)
    ensures
        total == 0 || stall == 0 ==> timed_out,
{
    let elapsed: u128 = elapsed_nanos(&started);
    let idle: u128 = elapsed_nanos(&last_progress);
    time_used_up(elapsed, idle, stall, total)
}

} // verus!
