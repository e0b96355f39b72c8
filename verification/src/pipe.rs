//! Transfers through pipes that never block for long.
//!
//! A transfer is told what has happened, and says what to do next. It waits for the pipe a
//! while at a time, so that its deadline is looked at however silent the other end is.

use crate::deadline::Deadline;
use vstd::prelude::*;
use vstd::slice::slice_subrange;

verus! {

pub const POLLIN: i16 = 0x1;

pub const POLLERR: i16 = 0x8;

pub const POLLHUP: i16 = 0x10;

pub const POLLNVAL: i16 = 0x20;

/// Nanoseconds in a millisecond.
pub const NANOS_PER_MILLI: u128 = 1_000_000;

/// The milliseconds to wait at once while `remaining` nanoseconds are left: at least one,
/// and as many as the call can take. Nothing is waited for when no time is left.
pub fn poll_timeout(remaining: u128) -> (millis: Option<i32>)
    ensures
        millis == if remaining == 0 {
            None::<i32>
        } else if remaining / NANOS_PER_MILLI == 0 {
            Some(1i32)
        } else if remaining / NANOS_PER_MILLI >= i32::MAX {
            Some(i32::MAX)
        } else {
            Some((remaining / NANOS_PER_MILLI) as i32)
        },
{
    if remaining == 0 {
        return None;
    }
    let millis: u128 = remaining / NANOS_PER_MILLI;
    if millis == 0 {
        Some(1)
    } else if millis >= i32::MAX as u128 {
        Some(i32::MAX)
    } else {
        Some(millis as i32)
    }
}

/// What a wait for the compositor's connection came to.
#[derive(Clone, Copy, PartialEq, Eq, Debug, Structural)]
pub enum WaylandPoll {
    /// Whether there is something to read.
    Readable(bool),
    /// The descriptor is not open.
    BadDescriptor,
    /// The wait was interrupted and is to be taken up again.
    Again,
    Failed,
}

/// Reads the outcome of a wait off its result and events; `interrupted` says that a failed
/// one was cut short by a signal.
pub fn wayland_poll(result: i32, revents: i16, interrupted: bool) -> (outcome: WaylandPoll)
    ensures
        outcome == if result == 0 {
            WaylandPoll::Readable(false)
        } else if result > 0 {
            if revents & POLLNVAL != 0 {
                WaylandPoll::BadDescriptor
            } else {
                WaylandPoll::Readable(revents & (POLLIN | POLLERR | POLLHUP) != 0)
            }
        } else if interrupted {
            WaylandPoll::Again
        } else {
            WaylandPoll::Failed
        },
{
    if result == 0 {
        WaylandPoll::Readable(false)
    } else if result > 0 {
        if revents & POLLNVAL != 0 {
            WaylandPoll::BadDescriptor
        } else {
            WaylandPoll::Readable(revents & (POLLIN | POLLERR | POLLHUP) != 0)
        }
    } else if interrupted {
        WaylandPoll::Again
    } else {
        WaylandPoll::Failed
    }
}

/// What is to be done next for a transfer.
#[derive(Clone, Copy, PartialEq, Eq, Debug, Structural)]
pub enum PipeAction {
    /// Look at the deadline.
    CheckTime,
    /// Wait for the pipe a while.
    Poll,
    /// Read or write.
    Move,
    /// All is done.
    Finish,
    /// There is more to read than is allowed.
    TooLarge,
    /// The time is used up.
    TimedOut,
    /// The other end takes nothing more.
    Stopped,
    /// Report the error of the last call.
    Fail,
}

/// The step after the deadline was looked at.
pub fn time_checked(timed_out: bool) -> (action: PipeAction)
    ensures
        action == if timed_out { PipeAction::TimedOut } else { PipeAction::Poll },
{
    if timed_out {
        PipeAction::TimedOut
    } else {
        PipeAction::Poll
    }
}

/// The step after the pipe was waited for: `result` is that of the wait, and `interrupted`
/// says that a failed one was cut short by a signal.
pub fn pipe_polled(result: i32, interrupted: bool) -> (action: PipeAction)
    ensures
        action == if result > 0 {
            PipeAction::Move
        } else if result == 0 || interrupted {
            PipeAction::CheckTime
        } else {
            PipeAction::Fail
        },
{
    if result > 0 {
        PipeAction::Move
    } else if result == 0 || interrupted {
        PipeAction::CheckTime
    } else {
        PipeAction::Fail
    }
}

/// The step after a read or write failed: one that only found the pipe unready, or that a
/// signal cut short, is tried again.
pub fn move_failed(would_block: bool, interrupted: bool) -> (action: PipeAction)
    ensures
        action == if would_block || interrupted { PipeAction::CheckTime } else { PipeAction::Fail },
{
    if would_block || interrupted {
        PipeAction::CheckTime
    } else {
        PipeAction::Fail
    }
}

/// What a transfer is to move.
#[verifier::ext_equal]
pub enum PipeJob {
    /// What comes out of a pipe, up to so many bytes.
    Read { max_size: usize },
    /// The given bytes, into a pipe.
    Write { data: Seq<u8> },
}

/// Where a transfer stands.
#[verifier::ext_equal]
pub struct PipeView {
    pub job: PipeJob,
    /// The bytes that have come out of the pipe, or gone into it.
    pub moved: Seq<u8>,
    pub deadline: Deadline,
    /// What is to be done next.
    pub action: PipeAction,
}

/// The step after `chunk` was read on top of `data`.
pub open spec fn read_action(data: Seq<u8>, chunk: Seq<u8>, max_size: usize) -> PipeAction {
    if chunk.len() == 0 {
        PipeAction::Finish
    } else if data.len() + chunk.len() > max_size {
        PipeAction::TooLarge
    } else {
        PipeAction::CheckTime
    }
}

impl PipeView {
    /// A transfer that begins `now`. Nothing to write is done at once.
    pub open spec fn begun(job: PipeJob, now: u128, stall: u128, total: u128) -> PipeView {
        PipeView {
            job,
            moved: Seq::empty(),
            deadline: Deadline { started: now, last_progress: now, stall, total },
            action: match job {
                PipeJob::Read { .. } => PipeAction::CheckTime,
                PipeJob::Write { data } => if data.len() == 0 {
                    PipeAction::Finish
                } else {
                    PipeAction::CheckTime
                },
            },
        }
    }

    /// The deadline was looked at.
    pub open spec fn looked(self, now: u128) -> PipeView {
        if self.action != PipeAction::CheckTime {
            self
        } else if self.deadline.used_up(now) {
            PipeView { action: PipeAction::TimedOut, ..self }
        } else {
            PipeView { action: PipeAction::Poll, ..self }
        }
    }

    /// The pipe was waited for.
    pub open spec fn polled(self, result: i32, interrupted: bool) -> PipeView {
        if self.action != PipeAction::Poll {
            self
        } else if result > 0 {
            PipeView { action: PipeAction::Move, ..self }
        } else if result == 0 || interrupted {
            PipeView { action: PipeAction::CheckTime, ..self }
        } else {
            PipeView { action: PipeAction::Fail, ..self }
        }
    }

    /// Bytes were read or written. No bytes mean that the other end has closed, or takes
    /// nothing more.
    pub open spec fn moved_on(self, bytes: Seq<u8>, now: u128) -> PipeView {
        if self.action != PipeAction::Move {
            self
        } else {
            let next = match self.job {
                PipeJob::Read { max_size } => read_action(self.moved, bytes, max_size),
                PipeJob::Write { data } => if bytes.len() == 0 {
                    PipeAction::Stopped
                } else if self.moved.len() + bytes.len() == data.len() {
                    PipeAction::Finish
                } else {
                    PipeAction::CheckTime
                },
            };
            if bytes.len() == 0 || next == PipeAction::TooLarge {
                PipeView { action: next, ..self }
            } else {
                PipeView {
                    moved: self.moved + bytes,
                    deadline: Deadline { last_progress: now, ..self.deadline },
                    action: next,
                    ..self
                }
            }
        }
    }

    /// A read or write failed.
    pub open spec fn failed(self, would_block: bool, interrupted: bool) -> PipeView {
        if self.action != PipeAction::Move {
            self
        } else if would_block || interrupted {
            PipeView { action: PipeAction::CheckTime, ..self }
        } else {
            PipeView { action: PipeAction::Fail, ..self }
        }
    }
}

/// A transfer out of a pipe, of at most `max_size` bytes.
pub struct PipeRead {
    pub data: Vec<u8>,
    pub max_size: usize,
    pub deadline: Deadline,
    pub action: PipeAction,
}

impl View for PipeRead {
    type V = PipeView;

    open spec fn view(&self) -> PipeView {
        PipeView {
            job: PipeJob::Read { max_size: self.max_size },
            moved: self.data@,
            deadline: self.deadline,
            action: self.action,
        }
    }
}

impl PipeRead {
    pub open spec fn wf(&self) -> bool {
        self.data@.len() <= self.max_size
    }

    pub fn new(max_size: usize, now: u128, stall: u128, total: u128) -> (read: Self)
        ensures
            read.wf(),
            read@ == PipeView::begun(PipeJob::Read { max_size }, now, stall, total),
    {
        PipeRead {
            data: Vec::new(),
            max_size,
            deadline: Deadline::new(now, stall, total),
            action: PipeAction::CheckTime,
        }
    }

    /// The deadline is looked at.
    pub fn look(&mut self, now: u128)
        requires
            old(self).wf(),
        ensures
            final(self).wf(),
            final(self)@ == old(self)@.looked(now),
    {
        if self.action == PipeAction::CheckTime {
            self.action = time_checked(self.deadline.timed_out(now));
        }
    }

    /// The pipe was waited for.
    pub fn polled(&mut self, result: i32, interrupted: bool)
        requires
            old(self).wf(),
        ensures
            final(self).wf(),
            final(self)@ == old(self)@.polled(result, interrupted),
    {
        if self.action == PipeAction::Poll {
            self.action = pipe_polled(result, interrupted);
        }
    }

    /// Bytes were read. No bytes mean that the other end has closed.
    pub fn on_read(&mut self, chunk: &[u8], now: u128)
        requires
            old(self).wf(),
        ensures
            final(self).wf(),
            final(self)@ == old(self)@.moved_on(chunk@, now),
    {
        if self.action != PipeAction::Move {
            return;
        }
        if chunk.len() == 0 {
            self.action = PipeAction::Finish;
        } else if chunk.len() > self.max_size - self.data.len() {
            self.action = PipeAction::TooLarge;
        } else {
            self.data.extend_from_slice(chunk);
            assert(self.data@ =~= old(self).data@ + chunk@);
            self.deadline.progress(now);
            self.action = PipeAction::CheckTime;
        }
    }

    /// A read failed.
    pub fn failed(&mut self, would_block: bool, interrupted: bool)
        requires
            old(self).wf(),
        ensures
            final(self).wf(),
            final(self)@ == old(self)@.failed(would_block, interrupted),
    {
        if self.action == PipeAction::Move {
            self.action = move_failed(would_block, interrupted);
        }
    }
}

/// A transfer of bytes into a pipe.
pub struct PipeWrite<'a> {
    pub data: &'a [u8],
    pub written: usize,
    pub deadline: Deadline,
    pub action: PipeAction,
}

impl<'a> View for PipeWrite<'a> {
    type V = PipeView;

    open spec fn view(&self) -> PipeView {
        PipeView {
            job: PipeJob::Write { data: self.data@ },
            moved: self.data@.take(self.written as int),
            deadline: self.deadline,
            action: self.action,
        }
    }
}

impl<'a> PipeWrite<'a> {
    pub open spec fn wf(&self) -> bool {
        self.written <= self.data@.len()
    }

    pub fn new(data: &'a [u8], now: u128, stall: u128, total: u128) -> (write: Self)
        ensures
            write.wf(),
            write@ == PipeView::begun(PipeJob::Write { data: data@ }, now, stall, total),
    {
        let write = PipeWrite {
            data,
            written: 0,
            deadline: Deadline::new(now, stall, total),
            action: if data.len() == 0 { PipeAction::Finish } else { PipeAction::CheckTime },
        };
        assert(write@.moved =~= Seq::empty());
        write
    }

    /// The bytes that are still to be written.
    pub fn rest(&self) -> (rest: &'a [u8])
        requires
            self.wf(),
        ensures
            rest@ == self.data@.skip(self.written as int),
            self@.moved + rest@ == self.data@,
    {
        let rest = slice_subrange(self.data, self.written, self.data.len());
        assert(rest@ =~= self.data@.skip(self.written as int));
        assert(self@.moved + rest@ =~= self.data@);
        rest
    }

    /// The deadline is looked at.
    pub fn look(&mut self, now: u128)
        requires
            old(self).wf(),
        ensures
            final(self).wf(),
            final(self)@ == old(self)@.looked(now),
    {
        if self.action == PipeAction::CheckTime {
            self.action = time_checked(self.deadline.timed_out(now));
        }
    }

    /// The pipe was waited for.
    pub fn polled(&mut self, result: i32, interrupted: bool)
        requires
            old(self).wf(),
        ensures
            final(self).wf(),
            final(self)@ == old(self)@.polled(result, interrupted),
    {
        if self.action == PipeAction::Poll {
            self.action = pipe_polled(result, interrupted);
        }
    }

    /// The first `n` of the bytes that were left are written. None mean that the other end
    /// has stopped reading.
    pub fn on_written(&mut self, n: usize, now: u128)
        requires
            old(self).wf(),
            n <= old(self).data@.len() - old(self).written,
        ensures
            final(self).wf(),
            final(self)@ == old(self)@.moved_on(
                old(self).data@.subrange(old(self).written as int, old(self).written + n),
                now,
            ),
    {
        if self.action != PipeAction::Move {
            return;
        }
        if n == 0 {
            self.action = PipeAction::Stopped;
            return;
        }
        let len: usize = self.data.len();
        self.written = self.written + n;
        assert(self@.moved =~= old(self)@.moved + self.data@.subrange(
            old(self).written as int,
            self.written as int,
        ));
        self.deadline.progress(now);
        self.action = if self.written == len {
            PipeAction::Finish
        } else {
            PipeAction::CheckTime
        };
    }

    /// A write failed.
    pub fn failed(&mut self, would_block: bool, interrupted: bool)
        requires
            old(self).wf(),
        ensures
            final(self).wf(),
            final(self)@ == old(self)@.failed(would_block, interrupted),
    {
        if self.action == PipeAction::Move {
            self.action = move_failed(would_block, interrupted);
        }
    }
}

} // verus!
