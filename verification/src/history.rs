//! What holds over any course of events.

use crate::model::{
    covered, position_of, OperationView, Outcome, PendingView, SelectionView, StateView,
    MAX_RETIRING, SIZE_ANSWER,
};
use crate::preserve::{
    lemma_accept_wf, lemma_admit_wf, lemma_allocate_wf, lemma_built_wf, lemma_filter_positions,
    lemma_release_wf, lemma_remove_wf, lemma_request_chunks, lemma_retire_wf,
    lemma_selection_chunks, lemma_shutdown_wf, lemma_update_wf, lemma_with_size_wf,
};
use crate::tree::{FileDescriptor, NodeView, FIRST_INODE};
use vstd::bytes::spec_u64_from_le_bytes;
use vstd::prelude::*;

verus! {

/// What can happen to a transfer.
#[verifier::reject_recursive_types(A)]
pub enum Event<A> {
    Capabilities { stream: bool, huge: bool },
    Retire,
    ReleaseLocks { data_ids: Seq<u32> },
    Close,
    Accept { files: Seq<FileDescriptor>, max_entries: usize, data_id: Option<u32> },
    /// Room for a request was asked for, and the request was refused or could not be sent.
    Unsent { gone: Seq<u32>, bytes: int },
    /// A request was admitted and sent.
    Sent { gone: Seq<u32>, request: PendingView<A> },
    Forget { id: u32 },
    Response { id: u32, is_error: bool, data: Seq<u8>, unwanted: bool },
}

impl<A> StateView<A> {
    /// Whether an event can happen: a list is taken over while a selection is live, and a
    /// request is sent under the number it was given, for a selection that serves.
    pub open spec fn possible(self, event: Event<A>) -> bool {
        match event {
            Event::Accept { .. } => self.live(self.generation) && self.generation < u64::MAX,
            Event::Sent { gone, request } => {
                &&& self.prune(gone).can_admit(request.reserved as int)
                &&& request.id == self.next_stream->0
                &&& request.wf()
                &&& self.generation == request.generation || self.is_retiring(request.generation)
            },
            _ => true,
        }
    }

    /// The state after an event.
    pub open spec fn after(self, event: Event<A>) -> StateView<A> {
        match event {
            Event::Capabilities { stream, huge } => self.capabilities(stream, huge),
            Event::Retire => self.retire_current(),
            Event::ReleaseLocks { data_ids } => self.release_locks(data_ids),
            Event::Close => self.close(),
            Event::Accept { files, max_entries, data_id } => self.accepted(
                files,
                max_entries,
                data_id,
            ),
            Event::Unsent { gone, bytes } => self.after_allocate(gone, bytes),
            Event::Sent { gone, request } => {
                let s = self.after_allocate(gone, request.reserved as int);
                StateView { pending: s.pending.push(request), ..s }
            },
            Event::Forget { id } => self.forget(id),
            Event::Response { id, is_error, data, unwanted } => self.responded(
                id,
                is_error,
                data,
                unwanted,
            ),
        }
    }

    /// The state after a course of events.
    pub open spec fn run(self, events: Seq<Event<A>>) -> StateView<A>
        decreases events.len(),
    {
        if events.len() == 0 {
            self
        } else {
            self.run(events.drop_last()).after(events.last())
        }
    }

    /// Whether the events can happen one after the other.
    pub open spec fn possible_course(self, events: Seq<Event<A>>) -> bool
        decreases events.len(),
    {
        events.len() == 0 || (self.possible_course(events.drop_last()) && self.run(
            events.drop_last(),
        ).possible(events.last()))
    }

    /// Whether the selection of a generation has a node under an inode.
    pub open spec fn holds(self, generation: u64, inode: u64, node: NodeView) -> bool {
        ||| self.generation == generation && self.current.tree.node(inode) == Some(node)
        ||| exists|i: int| #[trigger]
            self.retiring_at(generation, i) && self.retiring[i].1.tree.node(inode) == Some(node)
    }
}

/// Two looks at one file: only its size may have been learned in between.
pub open spec fn same_file(a: NodeView, b: NodeView) -> bool {
    a.name == b.name && a.directory == b.directory && a.kind == b.kind
}

/// An answer keeps the state well-formed.
proof fn lemma_responded_wf<A>(
    s: StateView<A>,
    id: u32,
    is_error: bool,
    data: Seq<u8>,
    unwanted: bool,
)
    requires
        s.wf(),
    ensures
        s.responded(id, is_error, data, unwanted).wf(),
        s.forget(id).wf(),
{
    if s.is_pending(id) {
        let i = s.pending_index(id);
        let p = s.pending[i];
        lemma_remove_wf(s, i);
        if !unwanted {
            match p.operation {
                OperationView::Size { inode } => {
                    lemma_with_size_wf(
                        s.forget(id),
                        p.generation,
                        inode,
                        spec_u64_from_le_bytes(data),
                    );
                },
                OperationView::Range { base, .. } => {
                    if let Outcome::More { fetch, .. } = p.outcome(s, is_error, data) {
                        let q = PendingView {
                            operation: OperationView::Range { base, fetch },
                            ..p
                        };
                        lemma_update_wf(s, i, q);
                    }
                },
            }
        }
    }
}

/// A request that is sent under the number it was given is one that the state admits.
proof fn lemma_sent_wf<A>(s: StateView<A>, gone: Seq<u32>, request: PendingView<A>)
    requires
        s.wf(),
        s.possible(Event::Sent { gone, request }),
    ensures
        s.after(Event::Sent { gone, request }).wf(),
{
    lemma_allocate_wf(s, gone, request.reserved as int);
    let room = s.prune(gone);
    let t = s.after_allocate(gone, request.reserved as int);
    assert forall|i: int| 0 <= i < t.pending.len() implies (#[trigger] t.pending[i]).id
        < request.id by {
        assert(room.id_spent(room.pending[i].id));
    }
    if t.generation != request.generation {
        let i = choose|i: int| s.retiring_at(request.generation, i);
        assert(t.retiring_at(request.generation, i));
    }
    lemma_admit_wf(t, request);
}

/// Every event keeps the state well-formed, and with it the budgets. Generations, the start
/// of the next inodes and the spent stream numbers only grow, and a closed state stays closed.
pub proof fn law_every_event_keeps_the_order<A>(s: StateView<A>, event: Event<A>)
    requires
        s.wf(),
        s.possible(event),
    ensures
        ({
            let t = s.after(event);
            &&& t.wf()
            &&& t.generation >= s.generation
            &&& t.next_base >= s.next_base
            &&& s.closed ==> t.closed
            &&& forall|id: u32| s.id_spent(id) ==> #[trigger] t.id_spent(id)
        }),
{
    match event {
        Event::Capabilities { stream, huge } => {
            lemma_shutdown_wf(s);
            assert(s.capabilities(stream, huge).wf());
        },
        Event::Retire => {
            lemma_retire_wf(s);
        },
        Event::ReleaseLocks { data_ids } => {
            lemma_release_wf(s, data_ids);
        },
        Event::Close => {
            lemma_shutdown_wf(s);
        },
        Event::Accept { files, max_entries, data_id } => {
            lemma_retire_wf(s);
            lemma_accept_wf(s, files, max_entries, data_id);
            lemma_built_wf(files, max_entries, s.retire_current().next_base);
        },
        Event::Unsent { gone, bytes } => {
            lemma_allocate_wf(s, gone, bytes);
        },
        Event::Sent { gone, request } => {
            lemma_sent_wf(s, gone, request);
        },
        Event::Forget { id } => {
            lemma_responded_wf(s, id, true, Seq::empty(), true);
        },
        Event::Response { id, is_error, data, unwanted } => {
            lemma_responded_wf(s, id, is_error, data, unwanted);
        },
    }
}

/// What holds of every event holds of every course of them: the state is well-formed and
/// within its budgets throughout, nothing that only grows falls back, and a closed state
/// serves nothing ever again.
pub proof fn law_every_course_keeps_the_order<A>(s: StateView<A>, events: Seq<Event<A>>)
    requires
        s.wf(),
        s.possible_course(events),
    ensures
        ({
            let t = s.run(events);
            &&& t.wf()
            &&& t.generation >= s.generation
            &&& t.next_base >= s.next_base
            &&& s.closed ==> t.closed && forall|g: u64| !#[trigger] t.servable(g)
            &&& forall|id: u32| s.id_spent(id) ==> #[trigger] t.id_spent(id)
        }),
    decreases events.len(),
{
    if events.len() > 0 {
        let rest = events.drop_last();
        law_every_course_keeps_the_order(s, rest);
        let u = s.run(rest);
        law_every_event_keeps_the_order(u, events.last());
        let t = s.run(events);
        assert forall|id: u32| s.id_spent(id) implies #[trigger] t.id_spent(id) by {
            assert(u.id_spent(id));
        }
    }
}

/// Recording a size gives no selection a file that it did not have.
proof fn lemma_with_size_holds<A>(
    s: StateView<A>,
    at: u64,
    file: u64,
    size: u64,
    generation: u64,
    inode: u64,
    node: NodeView,
) -> (before: NodeView)
    requires
        s.with_size(at, file, size).holds(generation, inode, node),
    ensures
        s.holds(generation, inode, before),
        same_file(before, node),
{
    let t = s.with_size(at, file, size);
    if t.generation == generation && t.current.tree.node(inode) == Some(node) {
        s.current.tree.node(inode)->0
    } else {
        let i = choose|i: int| #[trigger]
            t.retiring_at(generation, i) && t.retiring[i].1.tree.node(inode) == Some(node);
        assert(s.retiring_at(generation, i));
        s.retiring[i].1.tree.node(inode)->0
    }
}

/// Whatever a selection holds after an event it held before, but for the inodes that the
/// event gave out.
proof fn lemma_event_holds<A>(
    s: StateView<A>,
    event: Event<A>,
    generation: u64,
    inode: u64,
    node: NodeView,
) -> (before: NodeView)
    requires
        s.wf(),
        s.possible(event),
        s.after(event).holds(generation, inode, node),
    ensures
        inode >= s.next_base + FIRST_INODE || (s.holds(generation, inode, before) && same_file(
            before,
            node,
        )),
{
    let t = s.after(event);
    match event {
        Event::Response { id, is_error, data, unwanted } => {
            let p = s.pending[s.pending_index(id)];
            if s.is_pending(id) && !unwanted && p.operation is Size && !is_error && data.len()
                == SIZE_ANSWER {
                let f = s.forget(id);
                let before = lemma_with_size_holds(
                    f,
                    p.generation,
                    p.operation->inode,
                    spec_u64_from_le_bytes(data),
                    generation,
                    inode,
                    node,
                );
                lemma_same_selections_hold(f, s, generation, inode, before);
                before
            } else {
                lemma_same_selections_hold(t, s, generation, inode, node);
                node
            }
        },
        Event::Retire => {
            lemma_retired_hold(s, generation, inode, node);
            node
        },
        Event::Accept { files, max_entries, data_id } => {
            let r = s.retire_current();
            lemma_retire_wf(s);
            if t.generation == generation && t.current.tree.node(inode) == Some(node) {
                node
            } else {
                let i = choose|i: int| #[trigger]
                    t.retiring_at(generation, i) && t.retiring[i].1.tree.node(inode) == Some(node);
                assert(r.retiring_at(generation, i));
                lemma_retired_hold(s, generation, inode, node);
                node
            }
        },
        Event::ReleaseLocks { data_ids } => {
            if !(t.generation == generation && t.current.tree.node(inode) == Some(node)) {
                let i = choose|i: int| #[trigger]
                    t.retiring_at(generation, i) && t.retiring[i].1.tree.node(inode) == Some(node);
                let stays = |r: (u64, SelectionView)| !covered(r.1, data_ids);
                let from = lemma_filter_positions(s.retiring, stays);
                assert(t.retiring[i] == s.retiring[from[i]]);
                assert(s.retiring_at(generation, from[i]));
            }
            node
        },
        Event::Capabilities { stream, huge } => {
            if s.stream == stream && s.huge == huge {
                lemma_same_selections_hold(t, s, generation, inode, node);
            }
            node
        },
        Event::Close => node,
        _ => {
            lemma_same_selections_hold(t, s, generation, inode, node);
            node
        },
    }
}

/// What is held does not depend on the requests.
proof fn lemma_same_selections_hold<A>(
    t: StateView<A>,
    s: StateView<A>,
    generation: u64,
    inode: u64,
    node: NodeView,
)
    requires
        t.generation == s.generation,
        t.current == s.current,
        t.retiring == s.retiring,
        t.holds(generation, inode, node),
    ensures
        s.holds(generation, inode, node),
{
    if !(t.generation == generation && t.current.tree.node(inode) == Some(node)) {
        let i = choose|i: int| #[trigger]
            t.retiring_at(generation, i) && t.retiring[i].1.tree.node(inode) == Some(node);
        assert(s.retiring_at(generation, i));
    }
}

/// Superseding the live selection lets every selection keep what it held, or ends it.
proof fn lemma_retired_hold<A>(s: StateView<A>, generation: u64, inode: u64, node: NodeView)
    requires
        s.wf(),
        s.retire_current().holds(generation, inode, node),
    ensures
        s.holds(generation, inode, node),
{
    let t = s.retire_current();
    lemma_retire_wf(s);
    let i = choose|i: int| #[trigger]
        t.retiring_at(generation, i) && t.retiring[i].1.tree.node(inode) == Some(node);
    assert(t.retiring_at(generation, i) && t.retiring[i].1.tree.node(inode) == Some(node));
    if s.current.outlives_replacement() {
        let kept = s.retiring.push((s.generation, s.current));
        let k = if kept.len() > MAX_RETIRING {
            assert(t.retiring == kept.drop_first());
            i + 1
        } else {
            i
        };
        assert(t.retiring[i] == kept[k]);
        if k < s.retiring.len() {
            assert(s.retiring_at(generation, k));
        }
    } else {
        assert(s.retiring_at(generation, i));
    }
}

/// An inode is held under one generation only, and as one node.
proof fn lemma_held_once<A>(
    s: StateView<A>,
    a: u64,
    b: u64,
    inode: u64,
    x: NodeView,
    y: NodeView,
)
    requires
        s.wf(),
        s.holds(a, inode, x),
        s.holds(b, inode, y),
    ensures
        a == b,
        x == y,
        inode < s.next_base + FIRST_INODE,
{
    let live_a = s.generation == a && s.current.tree.node(inode) == Some(x);
    let live_b = s.generation == b && s.current.tree.node(inode) == Some(y);
    if !live_a {
        let i = choose|i: int| #[trigger]
            s.retiring_at(a, i) && s.retiring[i].1.tree.node(inode) == Some(x);
        assert(s.retiring[i].1.tree.owns(inode));
        if !live_b {
            let j = choose|j: int| #[trigger]
                s.retiring_at(b, j) && s.retiring[j].1.tree.node(inode) == Some(y);
            assert(s.retiring[j].1.tree.owns(inode));
            assert(i == j);
        }
    } else if !live_b {
        let j = choose|j: int| #[trigger]
            s.retiring_at(b, j) && s.retiring[j].1.tree.node(inode) == Some(y);
        assert(s.retiring[j].1.tree.owns(inode));
    }
}

/// A node that can be looked up is held.
proof fn lemma_found_is_held<A>(s: StateView<A>, generation: u64, inode: u64)
    requires
        s.wf(),
        s.node(generation, inode) is Some,
    ensures
        s.holds(generation, inode, s.node(generation, inode)->0),
{
    if s.generation != generation {
        let i = choose|i: int| s.retiring_at(generation, i);
        assert(s.retiring[i].0 == generation);
        let k = position_of(s.retiring, generation);
        assert(0 <= k < s.retiring.len() && s.retiring[k].0 == generation);
        assert(s.retiring_at(generation, k));
    }
}

proof fn lemma_course_holds<A>(
    s: StateView<A>,
    events: Seq<Event<A>>,
    generation: u64,
    inode: u64,
    node: NodeView,
) -> (before: NodeView)
    requires
        s.wf(),
        s.possible_course(events),
        inode < s.next_base + FIRST_INODE,
        s.run(events).holds(generation, inode, node),
    ensures
        s.holds(generation, inode, before),
        same_file(before, node),
    decreases events.len(),
{
    if events.len() == 0 {
        node
    } else {
        let rest = events.drop_last();
        law_every_course_keeps_the_order(s, rest);
        let between = lemma_event_holds(
            s.run(rest),
            events.last(),
            generation,
            inode,
            node,
        );
        lemma_course_holds(s, rest, generation, inode, between)
    }
}

/// An inode is never used for two files, across retired selections as well as successive
/// ones: an inode that names a file now names, at any later time at which it can be looked
/// up, that same file of the same selection.
pub proof fn law_inode_names_one_file<A>(
    s: StateView<A>,
    events: Seq<Event<A>>,
    generation: u64,
    later: u64,
    inode: u64,
)
    requires
        s.wf(),
        s.possible_course(events),
        s.node(generation, inode) is Some,
        s.run(events).node(later, inode) is Some,
    ensures
        later == generation,
        same_file(s.node(generation, inode)->0, s.run(events).node(later, inode)->0),
{
    let t = s.run(events);
    law_every_course_keeps_the_order(s, events);
    lemma_found_is_held(s, generation, inode);
    lemma_found_is_held(t, later, inode);
    let now = s.node(generation, inode)->0;
    lemma_held_once(s, generation, generation, inode, now, now);
    let before = lemma_course_holds(s, events, later, inode, t.node(later, inode)->0);
    lemma_held_once(s, generation, later, inode, now, before);
}

/// A stream number whose request is no longer unanswered never names an unanswered request
/// again, so that a late answer can never be taken for that of a new request.
pub proof fn law_stream_number_is_never_reused<A>(s: StateView<A>, events: Seq<Event<A>>, id: u32)
    requires
        s.wf(),
        s.possible_course(events),
        s.id_spent(id),
        !s.is_pending(id),
    ensures
        !s.run(events).is_pending(id),
    decreases events.len(),
{
    if events.len() > 0 {
        let rest = events.drop_last();
        law_stream_number_is_never_reused(s, rest, id);
        law_every_course_keeps_the_order(s, rest);
        assert(s.run(rest).id_spent(id));
        lemma_event_reuses_no_number(s.run(rest), events.last(), id);
    }
}

proof fn lemma_event_reuses_no_number<A>(s: StateView<A>, event: Event<A>, id: u32)
    requires
        s.wf(),
        s.possible(event),
        s.id_spent(id),
        !s.is_pending(id),
    ensures
        !s.after(event).is_pending(id),
{
    let t = s.after(event);
    if t.is_pending(id) {
        let k = choose|k: int| t.pending_at(id, k);
        match event {
            Event::Capabilities { stream, huge } => {
                assert(s.pending_at(id, k));
            },
            Event::Retire | Event::Accept { .. } => {
                lemma_retired_requests(s, k);
            },
            Event::ReleaseLocks { data_ids } => {
                let released = s.lock_released(data_ids);
                let from = lemma_filter_positions(
                    s.pending,
                    |p: PendingView<A>| !released.contains(p.generation),
                );
                assert(s.pending_at(id, from[k]));
            },
            Event::Close => {},
            Event::Unsent { gone, .. } => {
                let from = lemma_filter_positions(
                    s.pending,
                    |p: PendingView<A>| !gone.contains(p.id),
                );
                assert(s.pending_at(id, from[k]));
            },
            Event::Sent { gone, .. } => {
                let from = lemma_filter_positions(
                    s.pending,
                    |p: PendingView<A>| !gone.contains(p.id),
                );
                if k < t.pending.len() - 1 {
                    assert(s.pending_at(id, from[k]));
                }
            },
            Event::Forget { id: other } => {
                lemma_forgotten_requests(s, other, id);
            },
            Event::Response { id: other, is_error, data, unwanted } => {
                let i = s.pending_index(other);
                if s.is_pending(other) && t.pending.len() == s.pending.len() {
                    assert(s.pending_at(id, k));
                } else {
                    assert(t.pending == s.forget(other).pending);
                    assert(s.forget(other).pending_at(id, k));
                    lemma_forgotten_requests(s, other, id);
                }
            },
        }
    }
}

proof fn lemma_forgotten_requests<A>(s: StateView<A>, other: u32, id: u32)
    requires
        s.forget(other).is_pending(id),
    ensures
        s.is_pending(id),
{
    let t = s.forget(other);
    let k = choose|k: int| t.pending_at(id, k);
    if s.is_pending(other) {
        let i = s.pending_index(other);
        assert(s.pending_at(other, i));
        assert(s.pending_at(id, if k < i { k } else { k + 1 }));
    }
}

/// Every request left when the live selection is superseded was there before.
proof fn lemma_retired_requests<A>(s: StateView<A>, k: int)
    requires
        0 <= k < s.retire_current().pending.len(),
    ensures
        s.is_pending(s.retire_current().pending[k].id),
{
    let t = s.retire_current();
    let id = t.pending[k].id;
    let kept = s.retiring.push((s.generation, s.current));
    if !s.current.outlives_replacement() {
        let from = lemma_filter_positions(
            s.pending,
            |p: PendingView<A>| p.generation != s.generation,
        );
        assert(s.pending_at(id, from[k]));
    } else if kept.len() > MAX_RETIRING {
        let from = lemma_filter_positions(s.pending, |p: PendingView<A>| p.generation != kept[0].0);
        assert(s.pending_at(id, from[k]));
    } else {
        assert(s.pending_at(id, k));
    }
}

/// A selection that has ended never serves again.
pub proof fn law_ended_selection_never_returns<A>(
    s: StateView<A>,
    events: Seq<Event<A>>,
    generation: u64,
)
    requires
        s.wf(),
        s.possible_course(events),
        generation < s.generation,
        !s.is_retiring(generation),
    ensures
        !s.run(events).servable(generation),
        !s.run(events).is_retiring(generation),
    decreases events.len(),
{
    if events.len() > 0 {
        let rest = events.drop_last();
        law_ended_selection_never_returns(s, rest, generation);
        law_every_course_keeps_the_order(s, rest);
        law_every_course_keeps_the_order(s, events);
        let u = s.run(rest);
        let t = s.run(events);
        if t.is_retiring(generation) {
            let k = choose|k: int| t.retiring_at(generation, k);
            match events.last() {
                Event::ReleaseLocks { data_ids } => {
                    let from = lemma_filter_positions(
                        u.retiring,
                        |r: (u64, SelectionView)| !covered(r.1, data_ids),
                    );
                    assert(u.retiring_at(generation, from[k]));
                },
                Event::Retire | Event::Accept { .. } => {
                    let kept = u.retiring.push((u.generation, u.current));
                    if u.current.outlives_replacement() && kept.len() > MAX_RETIRING {
                        assert(t.retiring == kept.drop_first());
                        assert(kept[k + 1].0 == generation);
                        assert(u.retiring_at(generation, k + 1));
                    } else {
                        assert(u.retiring_at(generation, k));
                    }
                },
                _ => {
                    assert(u.retiring_at(generation, k));
                },
            }
        }
    }
}

/// Whether every range that the events send is fetched `chunk` bytes at a time.
pub open spec fn sent_in_chunks<A>(events: Seq<Event<A>>, chunk: u32) -> bool {
    forall|i: int| #![trigger events[i]]
        0 <= i < events.len() ==> match events[i] {
            Event::Sent { request, .. } => request.in_chunks(chunk),
            _ => true,
        }
}

/// Where every range is begun in chunks of one size, no more than that is ever asked for at
/// once: every unanswered request has asked for a chunk at most, and so does the request that
/// follows any answer.
pub proof fn law_no_request_exceeds_a_chunk<A>(
    s: StateView<A>,
    events: Seq<Event<A>>,
    chunk: u32,
    i: int,
    data: Seq<u8>,
)
    requires
        s.wf(),
        s.possible_course(events),
        s.in_chunks(chunk),
        sent_in_chunks(events, chunk),
        0 <= i < s.run(events).pending.len(),
    ensures
        ({
            let t = s.run(events);
            let p = t.pending[i];
            &&& p.in_chunks(chunk)
            &&& p.operation matches OperationView::Range { fetch, .. } ==> fetch.asked matches Some(
                asked,
            ) && asked <= chunk
            &&& p.outcome(t, false, data) matches Outcome::More { request, .. }
                ==> request.requested_size <= chunk
        }),
{
    law_every_course_keeps_the_order(s, events);
    lemma_course_chunks(s, events, chunk);
}

proof fn lemma_course_chunks<A>(s: StateView<A>, events: Seq<Event<A>>, chunk: u32)
    requires
        s.in_chunks(chunk),
        sent_in_chunks(events, chunk),
    ensures
        s.run(events).in_chunks(chunk),
    decreases events.len(),
{
    if events.len() > 0 {
        let rest = events.drop_last();
        assert forall|i: int| #![trigger rest[i]] 0 <= i < rest.len() implies match rest[i] {
            Event::Sent { request, .. } => request.in_chunks(chunk),
            _ => true,
        } by {
            assert(rest[i] == events[i]);
        }
        lemma_course_chunks(s, rest, chunk);
        let u = s.run(rest);
        let e = events[events.len() - 1];
        match e {
            Event::ReleaseLocks { data_ids } => {
                lemma_selection_chunks(u, data_ids, chunk);
            },
            Event::Unsent { gone, bytes } => {
                lemma_request_chunks(u, gone, bytes, 0, true, Seq::empty(), true, chunk);
            },
            Event::Sent { gone, request } => {
                lemma_request_chunks(
                    u,
                    gone,
                    request.reserved as int,
                    0,
                    true,
                    Seq::empty(),
                    true,
                    chunk,
                );
                let r = u.after_allocate(gone, request.reserved as int);
                assert forall|i: int| 0 <= i < u.after(e).pending.len() implies (
                #[trigger] u.after(e).pending[i]).in_chunks(chunk) by {
                    if i < r.pending.len() {
                        assert(r.pending[i].in_chunks(chunk));
                    }
                }
            },
            Event::Forget { id } => {
                lemma_request_chunks(u, Seq::empty(), 0, id, true, Seq::empty(), true, chunk);
            },
            Event::Response { id, is_error, data, unwanted } => {
                lemma_request_chunks(u, Seq::empty(), 0, id, is_error, data, unwanted, chunk);
            },
            _ => {
                lemma_selection_chunks(u, Seq::empty(), chunk);
            },
        }
    }
}

} // verus!
