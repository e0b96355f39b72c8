//! What stays of a selection and of a request over any course of events.

use crate::history::{law_every_course_keeps_the_order, Event};
use crate::model::{
    covered, position_of, OperationView, Outcome, PendingView, SelectionView, StateView,
    MAX_RETIRING,
};
use crate::preserve::lemma_filter_positions;
use crate::transfer::{ReadStep, SizeStep, Transfer};
use crate::tree::{FileDescriptor, RemoteNodeKind};
use vstd::prelude::*;

verus! {

/// One selection at two times: only sizes may have been learned in between.
pub open spec fn same_list(a: SelectionView, b: SelectionView) -> bool {
    &&& a.data_id == b.data_id
    &&& a.tree.base == b.tree.base
    &&& a.tree.roots == b.tree.roots
    &&& a.tree.nodes.len() == b.tree.nodes.len()
    &&& forall|k: int| #![trigger a.tree.nodes[k]] #![trigger b.tree.nodes[k]]
        0 <= k < a.tree.nodes.len() ==> {
            &&& a.tree.nodes[k].name == b.tree.nodes[k].name
            &&& a.tree.nodes[k].directory == b.tree.nodes[k].directory
            &&& a.tree.nodes[k].kind == b.tree.nodes[k].kind
        }
}

/// Whether a generation, as far as it serves, shows a selection.
pub open spec fn shows<A>(s: StateView<A>, generation: u64, selection: SelectionView) -> bool {
    &&& s.generation == generation && !s.closed ==> same_list(selection, s.current)
    &&& forall|i: int| #![trigger s.retiring[i]]
        0 <= i < s.retiring.len() && s.retiring[i].0 == generation ==> same_list(
            selection,
            s.retiring[i].1,
        )
}

proof fn lemma_retired_shows<A>(s: StateView<A>, generation: u64, selection: SelectionView)
    requires
        s.wf(),
        s.generation >= generation,
        shows(s, generation, selection),
    ensures
        shows(s.retire_current(), generation, selection),
{
    let t = s.retire_current();
    let kept = s.retiring.push((s.generation, s.current));
    assert forall|i: int| #![trigger t.retiring[i]]
        0 <= i < t.retiring.len() && t.retiring[i].0 == generation implies same_list(
        selection,
        t.retiring[i].1,
    ) by {
        if s.current.outlives_replacement() {
            let k = if kept.len() > MAX_RETIRING {
                assert(t.retiring == kept.drop_first());
                i + 1
            } else {
                i
            };
            assert(t.retiring[i] == kept[k]);
            if k < s.retiring.len() {
                assert(kept[k] == s.retiring[k]);
            }
        } else {
            assert(t.retiring[i] == s.retiring[i]);
        }
    }
}

proof fn lemma_sized_shows<A>(
    s: StateView<A>,
    at: u64,
    inode: u64,
    size: u64,
    generation: u64,
    selection: SelectionView,
)
    requires
        shows(s, generation, selection),
    ensures
        shows(s.with_size(at, inode, size), generation, selection),
{
    let t = s.with_size(at, inode, size);
    if t.generation == generation && !t.closed {
        assert(same_list(selection, s.current));
        assert(same_list(s.current, t.current));
    }
    assert forall|i: int| #![trigger t.retiring[i]]
        0 <= i < t.retiring.len() && t.retiring[i].0 == generation implies same_list(
        selection,
        t.retiring[i].1,
    ) by {
        assert(s.retiring[i].0 == generation);
        assert(same_list(selection, s.retiring[i].1));
        assert(same_list(s.retiring[i].1, t.retiring[i].1));
    }
}

proof fn lemma_event_shows<A>(
    s: StateView<A>,
    event: Event<A>,
    generation: u64,
    selection: SelectionView,
)
    requires
        s.wf(),
        s.possible(event),
        s.generation >= generation,
        shows(s, generation, selection),
    ensures
        shows(s.after(event), generation, selection),
{
    let t = s.after(event);
    match event {
        Event::Retire => {
            lemma_retired_shows(s, generation, selection);
        },
        Event::Accept { .. } => {
            lemma_retired_shows(s, generation, selection);
            assert(t.retiring == s.retire_current().retiring);
        },
        Event::ReleaseLocks { data_ids } => {
            let stays = |r: (u64, SelectionView)| !covered(r.1, data_ids);
            let from = lemma_filter_positions(s.retiring, stays);
            assert forall|i: int| #![trigger t.retiring[i]]
                0 <= i < t.retiring.len() && t.retiring[i].0 == generation implies same_list(
                selection,
                t.retiring[i].1,
            ) by {
                assert(t.retiring[i] == s.retiring[from[i]]);
            }
        },
        Event::Response { id, is_error, data, unwanted } => {
            let p = s.pending[s.pending_index(id)];
            if s.is_pending(id) && !unwanted && p.operation is Size && !is_error && data.len()
                == 8 {
                lemma_sized_shows(
                    s.forget(id),
                    p.generation,
                    p.operation->inode,
                    vstd::bytes::spec_u64_from_le_bytes(data),
                    generation,
                    selection,
                );
            } else {
                assert(t.retiring == s.retiring);
            }
        },
        _ => {},
    }
}

proof fn lemma_course_shows<A>(
    s: StateView<A>,
    events: Seq<Event<A>>,
    generation: u64,
    selection: SelectionView,
)
    requires
        s.wf(),
        s.possible_course(events),
        s.generation >= generation,
        shows(s, generation, selection),
    ensures
        shows(s.run(events), generation, selection),
    decreases events.len(),
{
    if events.len() > 0 {
        let rest = events.drop_last();
        lemma_course_shows(s, rest, generation, selection);
        law_every_course_keeps_the_order(s, rest);
        lemma_event_shows(s.run(rest), events.last(), generation, selection);
    }
}

/// What a generation serves is what it shows.
proof fn lemma_serves_what_it_shows<A>(
    s: StateView<A>,
    generation: u64,
    selection: SelectionView,
    served: SelectionView,
)
    requires
        shows(s, generation, selection),
        s.selection(generation) == Some(served),
    ensures
        same_list(selection, served),
{
    if s.generation != generation {
        let i = choose|i: int| s.retiring_at(generation, i);
        assert(s.retiring[i].0 == generation);
        let k = position_of(s.retiring, generation);
        assert(0 <= k < s.retiring.len() && s.retiring[k].0 == generation);
    }
}

/// A generation serves the list that it was accepted with, and under the lock that came with
/// it, for as long as it serves at all: while it is live, and once others have taken its place.
/// Whatever happens in between, the entry at `k` of the list is found under the same inode, and
/// is the directory or the file at `k` that the list has there.
pub proof fn law_a_generation_serves_what_it_was_accepted_with<A>(
    s: StateView<A>,
    files: Seq<FileDescriptor>,
    max_entries: usize,
    data_id: Option<u32>,
    events: Seq<Event<A>>,
    served: SelectionView,
    k: int,
)
    requires
        s.wf(),
        s.possible(Event::Accept { files, max_entries, data_id }),
        s.accepted(files, max_entries, data_id).possible_course(events),
        s.accepted(files, max_entries, data_id).run(events).selection(
            (s.generation + 1) as u64,
        ) == Some(served),
    ensures
        served.data_id == data_id,
        served.tree.nodes.len() <= files.len(),
        0 <= k < served.tree.nodes.len() ==> {
            let node = served.tree.nodes[k];
            &&& node.name == files[k].name@
            &&& node.kind is Directory <==> files[k].directory
            &&& node.kind matches RemoteNodeKind::File { index } ==> index == k
        },
        ({
            let begun = s.accepted(files, max_entries, data_id).current;
            &&& served.tree.base == begun.tree.base
            &&& served.tree.nodes.len() == begun.tree.nodes.len()
            &&& served.tree.roots == begun.tree.roots
        }),
{
    let begun = s.accepted(files, max_entries, data_id);
    let generation = (s.generation + 1) as u64;
    crate::preserve::lemma_retire_wf(s);
    crate::history::law_every_event_keeps_the_order(
        s,
        Event::Accept { files, max_entries, data_id },
    );
    assert forall|i: int| #![trigger begun.retiring[i]]
        0 <= i < begun.retiring.len() && begun.retiring[i].0 == generation implies same_list(
        begun.current,
        begun.retiring[i].1,
    ) by {}
    lemma_course_shows(begun, events, generation, begun.current);
    lemma_serves_what_it_shows(begun.run(events), generation, begun.current, served);
    if 0 <= k < served.tree.nodes.len() {
        assert(begun.current.tree.nodes[k] == files[k].node_view(k));
    }
}

/// Whatever has happened since a list was accepted, a request for the size or for a range of one
/// of its files names that file by its place in the list, and the lock that came with the list:
/// neither those of the list that is live by then, nor those of another.
pub proof fn law_requests_go_by_the_accepted_list<A>(
    s: StateView<A>,
    files: Seq<FileDescriptor>,
    max_entries: usize,
    data_id: Option<u32>,
    events: Seq<Event<A>>,
    sizes: &mut Transfer<A>,
    ranges: &mut Transfer<A>,
    inode: u64,
    position: u64,
    size: u32,
    gone: &[u32],
    asked: Result<SizeStep, ()>,
    read: Result<ReadStep, ()>,
)
    requires
        s.wf(),
        s.possible(Event::Accept { files, max_entries, data_id }),
        s.accepted(files, max_entries, data_id).possible_course(events),
        old(sizes).wf(),
        old(sizes).state@ == s.accepted(files, max_entries, data_id).run(events),
        call_ensures(
            Transfer::<A>::size,
            (sizes, (s.generation + 1) as u64, inode, gone),
            asked,
        ),
        old(ranges).wf(),
        old(ranges).state@ == s.accepted(files, max_entries, data_id).run(events),
        call_ensures(
            Transfer::<A>::read,
            (ranges, (s.generation + 1) as u64, inode, position, size, gone),
            read,
        ),
    ensures
        ({
            let k = inode - s.accepted(files, max_entries, data_id).current.tree.base - 2;
            &&& asked matches Ok(SizeStep::Ask(admission)) ==> {
                &&& 0 <= k < files.len() && !files[k].directory
                &&& admission.request.index == k
                &&& admission.request.data_id == data_id
            }
            &&& read matches Ok(ReadStep::Ask(admission)) ==> {
                &&& 0 <= k < files.len() && !files[k].directory
                &&& admission.request.index == k
                &&& admission.request.data_id == data_id
            }
        }),
{
    let generation = (s.generation + 1) as u64;
    let t = s.accepted(files, max_entries, data_id).run(events);
    let k = inode - s.accepted(files, max_entries, data_id).current.tree.base - 2;
    if let Some(served) = t.selection(generation) {
        law_a_generation_serves_what_it_was_accepted_with(
            s,
            files,
            max_entries,
            data_id,
            events,
            served,
            k,
        );
    }
}

/// One request at two times: only bytes may have come in between.
pub open spec fn same_order<A>(a: PendingView<A>, b: PendingView<A>) -> bool {
    &&& a.id == b.id
    &&& a.generation == b.generation
    &&& a.answer == b.answer
    &&& a.reserved == b.reserved
    &&& match (a.operation, b.operation) {
        (OperationView::Size { inode }, OperationView::Size { inode: other }) => inode == other,
        (OperationView::Range { base, fetch }, OperationView::Range { base: start, fetch: later })
            => {
            &&& base == start
            &&& fetch.stream_id == later.stream_id
            &&& fetch.index == later.index
            &&& fetch.total == later.total
            &&& fetch.chunk == later.chunk
            &&& fetch.data_id == later.data_id
            &&& fetch.received.is_prefix_of(later.received)
        },
        _ => false,
    }
}

/// Whether the request under a number, if there is one, is that request.
pub open spec fn names<A>(s: StateView<A>, request: PendingView<A>) -> bool {
    forall|i: int| #![trigger s.pending[i]]
        0 <= i < s.pending.len() && s.pending[i].id == request.id ==> same_order(
            request,
            s.pending[i],
        )
}

proof fn lemma_filter_names<A>(
    s: StateView<A>,
    t: StateView<A>,
    keep: spec_fn(PendingView<A>) -> bool,
    request: PendingView<A>,
)
    requires
        names(s, request),
        t.pending == s.pending.filter(keep),
    ensures
        names(t, request),
{
    let from = lemma_filter_positions(s.pending, keep);
    assert forall|i: int| #![trigger t.pending[i]]
        0 <= i < t.pending.len() && t.pending[i].id == request.id implies same_order(
        request,
        t.pending[i],
    ) by {
        assert(t.pending[i] == s.pending[from[i]]);
    }
}

proof fn lemma_forget_names<A>(s: StateView<A>, id: u32, request: PendingView<A>)
    requires
        names(s, request),
    ensures
        names(s.forget(id), request),
{
    let t = s.forget(id);
    if s.is_pending(id) {
        let at = s.pending_index(id);
        assert(s.pending_at(id, at));
        assert forall|i: int| #![trigger t.pending[i]]
            0 <= i < t.pending.len() && t.pending[i].id == request.id implies same_order(
            request,
            t.pending[i],
        ) by {
            assert(t.pending[i] == s.pending[if i < at { i } else { i + 1 }]);
        }
    }
}

proof fn lemma_event_names<A>(s: StateView<A>, event: Event<A>, request: PendingView<A>)
    requires
        s.wf(),
        s.possible(event),
        s.id_spent(request.id),
        names(s, request),
    ensures
        names(s.after(event), request),
{
    let t = s.after(event);
    match event {
        Event::Retire | Event::Accept { .. } => {
            let kept = s.retiring.push((s.generation, s.current));
            if !s.current.outlives_replacement() {
                lemma_filter_names(
                    s,
                    t,
                    |p: PendingView<A>| p.generation != s.generation,
                    request,
                );
            } else if kept.len() > MAX_RETIRING {
                lemma_filter_names(s, t, |p: PendingView<A>| p.generation != kept[0].0, request);
            } else {
                assert(t.pending == s.pending);
            }
        },
        Event::ReleaseLocks { data_ids } => {
            let released = s.lock_released(data_ids);
            lemma_filter_names(
                s,
                t,
                |p: PendingView<A>| !released.contains(p.generation),
                request,
            );
        },
        Event::Unsent { gone, .. } => {
            lemma_filter_names(s, t, |p: PendingView<A>| !gone.contains(p.id), request);
        },
        Event::Sent { gone, request: sent } => {
            let room = s.after_allocate(gone, sent.reserved as int);
            lemma_filter_names(s, room, |p: PendingView<A>| !gone.contains(p.id), request);
            assert forall|i: int| #![trigger t.pending[i]]
                0 <= i < t.pending.len() && t.pending[i].id == request.id implies same_order(
                request,
                t.pending[i],
            ) by {
                if i < room.pending.len() {
                    assert(t.pending[i] == room.pending[i]);
                }
            }
        },
        Event::Forget { id } => {
            lemma_forget_names(s, id, request);
        },
        Event::Response { id, .. } => {
            lemma_forget_names(s, id, request);
            let at = s.pending_index(id);
            if s.is_pending(id) && t.pending.len() == s.pending.len() {
                assert(s.pending_at(id, at));
                assert forall|i: int| #![trigger t.pending[i]]
                    0 <= i < t.pending.len() && t.pending[i].id == request.id implies same_order(
                    request,
                    t.pending[i],
                ) by {
                    assert(same_order(request, s.pending[i]));
                }
            } else {
                assert(t.pending == s.forget(id).pending);
            }
        },
        _ => {},
    }
}

/// A request stays what was sent for as long as it is unanswered: it is for the same file of the
/// same generation, under the same lock, and what has come of its range is never lost. So is
/// every request that follows an answer to it: it asks for the next bytes of that file, from
/// where the range begins and under that lock.
pub proof fn law_a_request_stays_what_was_sent<A>(
    s: StateView<A>,
    events: Seq<Event<A>>,
    i: int,
    j: int,
    data: Seq<u8>,
)
    requires
        s.wf(),
        s.possible_course(events),
        0 <= i < s.pending.len(),
        0 <= j < s.run(events).pending.len(),
        s.run(events).pending[j].id == s.pending[i].id,
    ensures
        same_order(s.pending[i], s.run(events).pending[j]),
        s.run(events).pending[j].outcome(s.run(events), false, data) matches Outcome::More {
            request,
            ..
        } ==> {
            &&& s.pending[i].operation matches OperationView::Range { base, fetch }
            &&& s.run(events).pending[j].operation matches OperationView::Range { fetch: later, .. }
            &&& request.stream_id == s.pending[i].id
            &&& request.index == fetch.index
            &&& request.data_id == fetch.data_id
            &&& request.flags == 2
            &&& request.position == base + later.received.len() + data.len()
            &&& request.position + request.requested_size <= base + fetch.total
        },
{
    lemma_names_one(s, i);
    lemma_course_names(s, events, s.pending[i]);
    law_every_course_keeps_the_order(s, events);
    let t = s.run(events);
    assert(same_order(s.pending[i], t.pending[j]));
    assert(t.pending[j].wf());
}

proof fn lemma_names_one<A>(s: StateView<A>, i: int)
    requires
        s.wf(),
        0 <= i < s.pending.len(),
    ensures
        names(s, s.pending[i]),
        s.id_spent(s.pending[i].id),
{
    assert forall|k: int| #![trigger s.pending[k]]
        0 <= k < s.pending.len() && s.pending[k].id == s.pending[i].id implies same_order(
        s.pending[i],
        s.pending[k],
    ) by {
        assert(k == i);
    }
}

proof fn lemma_course_names<A>(s: StateView<A>, events: Seq<Event<A>>, request: PendingView<A>)
    requires
        s.wf(),
        s.possible_course(events),
        s.id_spent(request.id),
        names(s, request),
    ensures
        names(s.run(events), request),
    decreases events.len(),
{
    if events.len() > 0 {
        let rest = events.drop_last();
        lemma_course_names(s, rest, request);
        law_every_course_keeps_the_order(s, rest);
        assert(s.run(rest).id_spent(request.id));
        lemma_event_names(s.run(rest), events.last(), request);
    }
}

} // verus!
