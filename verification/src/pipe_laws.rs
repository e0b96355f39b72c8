//! What a caller can rely on of transfers through pipes: how long is waited, what each wait and
//! each move leads to, and when the time is up.

use crate::deadline::{time_used_up, transfer_timed_out, Deadline};
use crate::pipe::{
    move_failed, pipe_polled, poll_timeout, time_checked, wayland_poll, PipeAction, PipeRead,
    PipeWrite, WaylandPoll,
};
use std::time::Instant;
use vstd::prelude::*;

verus! {

/// A wait is as long as the whole milliseconds that are left, but never less than one nor more
/// than a wait can take; and there is none where no time is left.
pub proof fn law_a_wait_is_as_long_as_what_is_left(remaining: u128, millis: Option<i32>)
    requires
        call_ensures(poll_timeout, (remaining,), millis),
    ensures
        millis is None <==> remaining == 0,
        0 < remaining < 1_000_000 ==> millis == Some(1i32),
        1_000_000 <= remaining < 2_147_483_648_000_000 ==> millis->0 * 1_000_000 <= remaining
            && remaining < (millis->0 + 1) * 1_000_000,
        remaining >= 2_147_483_648_000_000 ==> millis == Some(2_147_483_647i32),
{
}

/// A wait that brought nothing has nothing to read; one that did has something to read where
/// there is input, an error or a hang-up; a descriptor that is not open is told apart; and a wait
/// that a signal cut short is taken up again.
pub proof fn law_a_wait_is_read_off_its_events(
    result: i32,
    revents: i16,
    interrupted: bool,
    outcome: WaylandPoll,
)
    requires
        call_ensures(wayland_poll, (result, revents, interrupted), outcome),
    ensures
        result == 0 ==> outcome == WaylandPoll::Readable(false),
        result > 0 && revents & 0x20 != 0 ==> outcome == WaylandPoll::BadDescriptor,
        result > 0 && revents & 0x20 == 0 ==> outcome == WaylandPoll::Readable(
            revents & 0x1 != 0 || revents & 0x8 != 0 || revents & 0x10 != 0,
        ),
        result < 0 && interrupted ==> outcome == WaylandPoll::Again,
        result < 0 && !interrupted ==> outcome == WaylandPoll::Failed,
{
    assert(revents & (0x1i16 | 0x8i16 | 0x10i16) != 0 <==> (revents & 0x1i16 != 0 || revents
        & 0x8i16 != 0 || revents & 0x10i16 != 0)) by (bit_vector);
}

/// What each look, wait and failed move leads to.
pub proof fn law_each_outcome_has_its_step(
    timed_out: bool,
    looked: PipeAction,
    result: i32,
    interrupted: bool,
    waited: PipeAction,
    would_block: bool,
    cut_short: bool,
    failed: PipeAction,
)
    requires
        call_ensures(time_checked, (timed_out,), looked),
        call_ensures(pipe_polled, (result, interrupted), waited),
        call_ensures(move_failed, (would_block, cut_short), failed),
    ensures
        timed_out ==> looked is TimedOut,
        !timed_out ==> looked is Poll,
        waited is Move <==> result > 0,
        waited is CheckTime <==> result == 0 || (result < 0 && interrupted),
        waited is Fail <==> result < 0 && !interrupted,
        failed is CheckTime <==> would_block || cut_short,
        failed is Fail <==> !would_block && !cut_short,
{
}

/// Whether the time is up: so long after the start as a transfer may take in all, or so long
/// after the last progress as it may go without.
pub open spec fn time_is_up(deadline: Deadline, now: u128) -> bool {
    ||| deadline.total == 0
    ||| deadline.stall == 0
    ||| now >= deadline.started + deadline.total
    ||| now >= deadline.last_progress + deadline.stall
}

/// Time runs from the start, and from the last progress.
pub proof fn law_time_runs_from_the_last_progress(
    begun: Deadline,
    now: u128,
    stall: u128,
    total: u128,
    moved: &mut Deadline,
    later: u128,
    deadline: Deadline,
    timed_out: bool,
)
    requires
        call_ensures(Deadline::new, (now, stall, total), begun),
        call_ensures(Deadline::progress, (moved, later), ()),
        call_ensures(Deadline::timed_out, (&deadline, now), timed_out),
    ensures
        begun.started == now,
        begun.last_progress == now,
        begun.stall == stall,
        begun.total == total,
        final(moved).last_progress == later,
        final(moved).started == old(moved).started,
        final(moved).stall == old(moved).stall,
        final(moved).total == old(moved).total,
        timed_out <==> time_is_up(deadline, now),
{
}

/// Either limit by itself ends a transfer, and a limit of nothing does so at once.
pub proof fn law_either_limit_ends_a_transfer(
    elapsed: u128,
    idle: u128,
    stall: u128,
    total: u128,
    used_up: bool,
    started: Instant,
    last_progress: Instant,
    timed_out: bool,
)
    requires
        call_ensures(time_used_up, (elapsed, idle, stall, total), used_up),
        call_ensures(transfer_timed_out, (started, last_progress, stall, total), timed_out),
    ensures
        elapsed >= total ==> used_up,
        idle >= stall ==> used_up,
        elapsed < total && idle < stall ==> !used_up,
        total == 0 ==> timed_out,
        stall == 0 ==> timed_out,
{
}

/// Whether all but the next step of a transfer is the same.
pub open spec fn same_read(a: PipeRead, b: PipeRead) -> bool {
    a.data@ == b.data@ && a.max_size == b.max_size && a.deadline == b.deadline
}

/// Whether all but the next step of a transfer is the same.
pub open spec fn same_write(a: PipeWrite, b: PipeWrite) -> bool {
    a.data@ == b.data@ && a.written == b.written && a.deadline == b.deadline
}

/// A read begins with nothing, and with a look at the time.
pub proof fn law_a_read_begins_with_nothing(
    max_size: usize,
    now: u128,
    stall: u128,
    total: u128,
    read: PipeRead,
)
    requires
        call_ensures(PipeRead::new, (max_size, now, stall, total), read),
    ensures
        read.data@.len() == 0,
        read.max_size == max_size,
        read.action is CheckTime,
        read.deadline.started == now && read.deadline.last_progress == now,
        read.deadline.stall == stall && read.deadline.total == total,
{
    assert(read@.moved == read.data@);
    assert(read@.job == (crate::pipe::PipeJob::Read { max_size: read.max_size }));
}

/// A read goes on while there is time, waits, and tries again where the pipe was not ready.
pub proof fn law_a_read_waits_while_there_is_time(
    looked: &mut PipeRead,
    now: u128,
    waited: &mut PipeRead,
    result: i32,
    interrupted: bool,
    missed: &mut PipeRead,
    would_block: bool,
    cut_short: bool,
)
    requires
        call_ensures(PipeRead::look, (looked, now), ()),
        call_ensures(PipeRead::polled, (waited, result, interrupted), ()),
        call_ensures(PipeRead::failed, (missed, would_block, cut_short), ()),
    ensures
        same_read(*final(looked), *old(looked)),
        same_read(*final(waited), *old(waited)),
        same_read(*final(missed), *old(missed)),
        old(looked).action is CheckTime ==> {
            &&& final(looked).action is TimedOut <==> time_is_up(old(looked).deadline, now)
            &&& final(looked).action is Poll <==> !time_is_up(old(looked).deadline, now)
        },
        !(old(looked).action is CheckTime) ==> final(looked).action == old(looked).action,
        old(waited).action is Poll ==> {
            &&& final(waited).action is Move <==> result > 0
            &&& final(waited).action is CheckTime <==> result == 0 || (result < 0 && interrupted)
            &&& final(waited).action is Fail <==> result < 0 && !interrupted
        },
        !(old(waited).action is Poll) ==> final(waited).action == old(waited).action,
        old(missed).action is Move ==> {
            &&& final(missed).action is CheckTime <==> would_block || cut_short
            &&& final(missed).action is Fail <==> !would_block && !cut_short
        },
        !(old(missed).action is Move) ==> final(missed).action == old(missed).action,
{
    lemma_read_views(*old(looked), *final(looked));
    lemma_read_views(*old(waited), *final(waited));
    lemma_read_views(*old(missed), *final(missed));
}

proof fn lemma_read_views(a: PipeRead, b: PipeRead)
    requires
        a@.job == b@.job,
    ensures
        a.max_size == b.max_size,
{
    assert(a@.job->max_size == b@.job->max_size);
}

/// What is read comes after what was read before, all of it; nothing more to read ends the
/// read; and one byte too many does.
pub proof fn law_what_is_read_is_gathered(read: &mut PipeRead, chunk: &[u8], now: u128)
    requires
        call_ensures(PipeRead::on_read, (read, chunk, now), ()),
        old(read).action is Move,
    ensures
        final(read).max_size == old(read).max_size,
        final(read).action is Finish <==> chunk@.len() == 0,
        final(read).action is TooLarge <==> chunk@.len() > 0 && old(read).data@.len()
            + chunk@.len() > old(read).max_size,
        final(read).action is CheckTime <==> chunk@.len() > 0 && old(read).data@.len()
            + chunk@.len() <= old(read).max_size,
        final(read).action is CheckTime ==> {
            &&& final(read).data@ == old(read).data@ + chunk@
            &&& final(read).deadline.last_progress == now
            &&& final(read).deadline.started == old(read).deadline.started
            &&& final(read).deadline.stall == old(read).deadline.stall
            &&& final(read).deadline.total == old(read).deadline.total
        },
        !(final(read).action is CheckTime) ==> same_read(*final(read), *old(read)),
{
    lemma_read_views(*old(read), *final(read));
}

/// A write begins with nothing written, and has all to write; where that is nothing, it is done.
pub proof fn law_a_write_begins_with_nothing<'a>(
    data: &'a [u8],
    now: u128,
    stall: u128,
    total: u128,
    write: PipeWrite<'a>,
)
    requires
        call_ensures(PipeWrite::<'a>::new, (data, now, stall, total), write),
    ensures
        write.data@ == data@,
        write.written == 0,
        write.action is Finish <==> data@.len() == 0,
        write.action is CheckTime <==> data@.len() > 0,
        write.deadline.started == now && write.deadline.last_progress == now,
        write.deadline.stall == stall && write.deadline.total == total,
{
    assert(write@.job->data == write.data@);
    assert(write@.moved == write.data@.take(write.written as int));
}

/// What is to be written next is what was not written yet, all of it.
pub proof fn law_what_is_not_written_is_left<'a>(write: PipeWrite<'a>, rest: &'a [u8])
    requires
        call_ensures(PipeWrite::<'a>::rest, (&write,), rest),
        write.wf(),
    ensures
        rest@.len() == write.data@.len() - write.written,
        forall|i: int| 0 <= i < rest@.len() ==> #[trigger] rest@[i] == write.data@[write.written
            + i],
{
}

/// A write goes on while there is time, waits, and tries again where the pipe was not ready.
pub proof fn law_a_write_waits_while_there_is_time<'a>(
    looked: &mut PipeWrite<'a>,
    now: u128,
    waited: &mut PipeWrite<'a>,
    result: i32,
    interrupted: bool,
    missed: &mut PipeWrite<'a>,
    would_block: bool,
    cut_short: bool,
)
    requires
        old(looked).wf() && old(waited).wf() && old(missed).wf(),
        call_ensures(PipeWrite::<'a>::look, (looked, now), ()),
        call_ensures(PipeWrite::<'a>::polled, (waited, result, interrupted), ()),
        call_ensures(PipeWrite::<'a>::failed, (missed, would_block, cut_short), ()),
    ensures
        same_write(*final(looked), *old(looked)),
        same_write(*final(waited), *old(waited)),
        same_write(*final(missed), *old(missed)),
        old(looked).action is CheckTime ==> {
            &&& final(looked).action is TimedOut <==> time_is_up(old(looked).deadline, now)
            &&& final(looked).action is Poll <==> !time_is_up(old(looked).deadline, now)
        },
        !(old(looked).action is CheckTime) ==> final(looked).action == old(looked).action,
        old(waited).action is Poll ==> {
            &&& final(waited).action is Move <==> result > 0
            &&& final(waited).action is CheckTime <==> result == 0 || (result < 0 && interrupted)
            &&& final(waited).action is Fail <==> result < 0 && !interrupted
        },
        !(old(waited).action is Poll) ==> final(waited).action == old(waited).action,
        old(missed).action is Move ==> {
            &&& final(missed).action is CheckTime <==> would_block || cut_short
            &&& final(missed).action is Fail <==> !would_block && !cut_short
        },
        !(old(missed).action is Move) ==> final(missed).action == old(missed).action,
{
    lemma_write_views(*old(looked), *final(looked));
    lemma_write_views(*old(waited), *final(waited));
    lemma_write_views(*old(missed), *final(missed));
}

proof fn lemma_write_views(a: PipeWrite, b: PipeWrite)
    requires
        a.wf(),
        b.wf(),
        a@.job == b@.job,
    ensures
        a.data@ == b.data@,
        a@.moved.len() == a.written,
        b@.moved.len() == b.written,
{
    assert(a@.job->data == b@.job->data);
}

/// What was written is not written again; the write is done once all is written; and an end that
/// takes nothing stops it.
pub proof fn law_what_is_written_is_counted<'a>(write: &mut PipeWrite<'a>, n: usize, now: u128)
    requires
        old(write).wf(),
        n <= old(write).data@.len() - old(write).written,
        call_ensures(PipeWrite::<'a>::on_written, (write, n, now), ()),
        old(write).action is Move,
    ensures
        final(write).data@ == old(write).data@,
        final(write).written == old(write).written + n,
        final(write).action is Stopped <==> n == 0,
        final(write).action is Finish <==> n > 0 && old(write).written + n
            == old(write).data@.len(),
        final(write).action is CheckTime <==> n > 0 && old(write).written + n
            < old(write).data@.len(),
        n > 0 ==> final(write).deadline.last_progress == now,
        n == 0 ==> final(write).deadline == old(write).deadline,
        final(write).deadline.started == old(write).deadline.started,
        final(write).deadline.stall == old(write).deadline.stall,
        final(write).deadline.total == old(write).deadline.total,
{
    lemma_write_views(*old(write), *final(write));
    let bytes = old(write).data@.subrange(old(write).written as int, old(write).written + n);
    assert(bytes.len() == n);
    assert((old(write)@.moved + bytes).len() == old(write).written + n);
}

} // verus!
