//! What a transfer through a pipe promises from its beginning to its end.

use crate::deadline::time_since;
use crate::pipe::{PipeAction, PipeJob, PipeView};
use vstd::prelude::*;

verus! {

/// What can happen to a transfer.
pub enum PipeEvent {
    Look { now: u128 },
    Polled { result: i32, interrupted: bool },
    /// Bytes were read or written.
    Moved { bytes: Seq<u8>, now: u128 },
    Failed { would_block: bool, interrupted: bool },
}

impl PipeView {
    /// Whether an event can happen: nothing does out of turn, and what is written are the
    /// first of the bytes that are left.
    pub open spec fn possible(self, event: PipeEvent) -> bool {
        match event {
            PipeEvent::Look { .. } => self.action == PipeAction::CheckTime,
            PipeEvent::Polled { .. } => self.action == PipeAction::Poll,
            PipeEvent::Moved { bytes, .. } => self.action == PipeAction::Move && match self.job {
                PipeJob::Read { .. } => true,
                PipeJob::Write { data } => bytes.is_prefix_of(
                    data.skip(self.moved.len() as int),
                ),
            },
            PipeEvent::Failed { .. } => self.action == PipeAction::Move,
        }
    }

    pub open spec fn after(self, event: PipeEvent) -> PipeView {
        match event {
            PipeEvent::Look { now } => self.looked(now),
            PipeEvent::Polled { result, interrupted } => self.polled(result, interrupted),
            PipeEvent::Moved { bytes, now } => self.moved_on(bytes, now),
            PipeEvent::Failed { would_block, interrupted } => self.failed(would_block, interrupted),
        }
    }

    /// The transfer after a run of events.
    pub open spec fn run(self, events: Seq<PipeEvent>) -> PipeView
        decreases events.len(),
    {
        if events.len() == 0 {
            self
        } else {
            self.run(events.drop_last()).after(events.last())
        }
    }

    /// Whether the events can happen one after the other.
    pub open spec fn possible_run(self, events: Seq<PipeEvent>) -> bool
        decreases events.len(),
    {
        events.len() == 0 || (self.possible_run(events.drop_last()) && self.run(
            events.drop_last(),
        ).possible(events.last()))
    }
}

/// The bytes that were read or written, one after the other.
pub open spec fn carried(events: Seq<PipeEvent>) -> Seq<u8>
    decreases events.len(),
{
    if events.len() == 0 {
        Seq::empty()
    } else {
        match events.last() {
            PipeEvent::Moved { bytes, .. } => carried(events.drop_last()) + bytes,
            _ => carried(events.drop_last()),
        }
    }
}

/// When a byte was last moved; when the transfer began if none was.
pub open spec fn last_moved(began: u128, events: Seq<PipeEvent>) -> u128
    decreases events.len(),
{
    if events.len() == 0 {
        began
    } else {
        match events.last() {
            PipeEvent::Moved { bytes, now } => if bytes.len() > 0 {
                now
            } else {
                last_moved(began, events.drop_last())
            },
            _ => last_moved(began, events.drop_last()),
        }
    }
}

/// The action that a transfer begins with is over once anything has happened, and every later
/// one tells what happened last.
spec fn traced(
    job: PipeJob,
    began: u128,
    stall: u128,
    total: u128,
    events: Seq<PipeEvent>,
) -> bool {
    let v = PipeView::begun(job, began, stall, total).run(events);
    &&& v.job == job
    &&& v.deadline.started == began
    &&& v.deadline.stall == stall
    &&& v.deadline.total == total
    &&& v.action != PipeAction::TooLarge ==> {
        &&& v.moved == carried(events)
        &&& v.deadline.last_progress == last_moved(began, events)
    }
    &&& match job {
        PipeJob::Read { max_size } => {
            &&& v.moved.len() <= max_size
            &&& v.action == PipeAction::TooLarge <==> carried(events).len() > max_size
            &&& v.action != PipeAction::Stopped
        },
        PipeJob::Write { data } => {
            &&& v.action != PipeAction::TooLarge
            &&& v.moved.is_prefix_of(data)
            &&& v.action == PipeAction::Finish <==> v.moved.len() == data.len()
        },
    }
    &&& match v.action {
        PipeAction::Poll => events.len() > 0 && events.last() is Look,
        PipeAction::Move => events.len() > 0 && (events.last() matches PipeEvent::Polled {
            result,
            ..
        } && result > 0),
        PipeAction::Finish => job is Read ==> {
            &&& events.len() > 0
            &&& events.last() matches PipeEvent::Moved { bytes, .. }
            &&& bytes.len() == 0
        },
        PipeAction::TimedOut => events.len() > 0 && events.last() is Look,
        _ => true,
    }
}

proof fn lemma_traced(job: PipeJob, began: u128, stall: u128, total: u128, events: Seq<PipeEvent>)
    requires
        PipeView::begun(job, began, stall, total).possible_run(events),
    ensures
        traced(job, began, stall, total, events),
    decreases events.len(),
{
    if events.len() > 0 {
        let rest = events.drop_last();
        lemma_traced(job, began, stall, total, rest);
        let u = PipeView::begun(job, began, stall, total).run(rest);
        if let PipeEvent::Moved { bytes, now } = events.last() {
            assert(u.moved + Seq::<u8>::empty() =~= u.moved);
            if bytes.len() == 0 {
                assert(bytes =~= Seq::empty());
            }
            if let PipeJob::Write { data } = job {
                let left = data.skip(u.moved.len() as int);
                assert forall|i: int| 0 <= i < (u.moved + bytes).len() implies (u.moved + bytes)[i]
                    == data[i] by {
                    if i >= u.moved.len() {
                        assert(bytes[i - u.moved.len()] == left[i - u.moved.len()]);
                    }
                }
                assert(u.moved + bytes =~= data.take((u.moved + bytes).len() as int));
            }
        }
    }
}

/// No wait begins without a look at the deadline just before it that found time left, counted
/// from the beginning and from the last byte that was moved.
pub proof fn law_no_wait_without_a_look(
    job: PipeJob,
    began: u128,
    stall: u128,
    total: u128,
    events: Seq<PipeEvent>,
)
    requires
        PipeView::begun(job, began, stall, total).possible_run(events),
    ensures
        PipeView::begun(job, began, stall, total).run(events).action == PipeAction::Poll
            ==> events.len() > 0 && (events.last() matches PipeEvent::Look { now } && time_since(
            now,
            began,
        ) < total && time_since(now, last_moved(began, events)) < stall),
{
    lemma_traced(job, began, stall, total, events);
    if events.len() > 0 {
        lemma_traced(job, began, stall, total, events.drop_last());
    }
}

/// A transfer ends as timed out exactly where a look finds that it has run for `total`, or for
/// `stall` since the last byte was moved. Every byte begins the stall anew.
pub proof fn law_timed_out_exactly_at_a_limit(
    job: PipeJob,
    began: u128,
    stall: u128,
    total: u128,
    events: Seq<PipeEvent>,
)
    requires
        PipeView::begun(job, began, stall, total).possible_run(events),
    ensures
        PipeView::begun(job, began, stall, total).run(events).action == PipeAction::TimedOut
            <==> events.len() > 0 && (events.last() matches PipeEvent::Look { now } && (time_since(
            now,
            began,
        ) >= total || time_since(now, last_moved(began, events)) >= stall)),
{
    lemma_traced(job, began, stall, total, events);
    if events.len() > 0 {
        lemma_traced(job, began, stall, total, events.drop_last());
    }
}

/// A payload that comes in any pieces is returned whole when the other end closes, and refused
/// if and only if it is larger than allowed.
pub proof fn law_pipe_read_returns_the_payload(
    max_size: usize,
    began: u128,
    stall: u128,
    total: u128,
    events: Seq<PipeEvent>,
)
    requires
        PipeView::begun(PipeJob::Read { max_size }, began, stall, total).possible_run(events),
    ensures
        ({
            let v = PipeView::begun(PipeJob::Read { max_size }, began, stall, total).run(events);
            &&& v.action == PipeAction::TooLarge <==> carried(events).len() > max_size
            &&& v.action != PipeAction::TooLarge ==> v.moved == carried(events)
            &&& v.action == PipeAction::Finish ==> {
                &&& events.len() > 0
                &&& events.last() matches PipeEvent::Moved { bytes, .. }
                &&& bytes.len() == 0
            }
        }),
{
    lemma_traced(PipeJob::Read { max_size }, began, stall, total, events);
}

/// Bytes go into a pipe in order, none left out and none twice: at any time the other end was
/// given the first bytes of the data, and the transfer is done exactly when it was given all.
pub proof fn law_pipe_write_delivers_in_order(
    data: Seq<u8>,
    began: u128,
    stall: u128,
    total: u128,
    events: Seq<PipeEvent>,
)
    requires
        PipeView::begun(PipeJob::Write { data }, began, stall, total).possible_run(events),
    ensures
        ({
            let v = PipeView::begun(PipeJob::Write { data }, began, stall, total).run(events);
            &&& v.moved == carried(events)
            &&& carried(events).is_prefix_of(data)
            &&& v.action == PipeAction::Finish <==> carried(events) == data
        }),
{
    lemma_traced(PipeJob::Write { data }, began, stall, total, events);
    let v = PipeView::begun(PipeJob::Write { data }, began, stall, total).run(events);
    if v.moved.len() == data.len() {
        assert(v.moved =~= data);
    }
}

/// A transfer that has ended does nothing more.
pub proof fn law_an_ended_transfer_is_over(v: PipeView, event: PipeEvent)
    requires
        v.action != PipeAction::CheckTime,
        v.action != PipeAction::Poll,
        v.action != PipeAction::Move,
    ensures
        !v.possible(event),
        v.after(event) == v,
{
}

} // verus!
