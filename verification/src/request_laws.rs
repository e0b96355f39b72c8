//! What a caller can rely on of requests: what is asked of the remote, for which file, under
//! which lock, and what its answers come to.

use crate::fetch::{
    fetch_asked, fetch_order, fetch_received, fetch_view, FileContentsResponse,
};
use crate::model::{position_of, reserved_total, PendingView, StateView};
use crate::selection_laws::{
    among, lemma_requests_left, lemma_same_requests, lemma_same_selections, lemma_serves,
    lemma_serves_none, requests_left, same_request, same_requests, same_selections, serves,
};
use crate::state::{pending_view, Operation, Pending, Selection, State};
use crate::transfer::{
    told_bytes, told_size, Admission, ReadStep, ResponseStep, SizeStep, StartStep, Transfer, Value,
};
use crate::tree::{FileDescriptor, RemoteNodeKind, RemoteTree};
use crate::tree_laws::{lemma_same_tree, path_text, same_tree};
use vstd::bytes::spec_u64_from_le_bytes;
use vstd::prelude::*;

verus! {

/// The bytes that requests have room kept for.
pub open spec fn room_taken<A>(requests: Seq<Pending<A>>) -> nat
    decreases requests.len(),
{
    if requests.len() == 0 {
        0
    } else {
        requests[requests.len() - 1].reserved as nat + room_taken(requests.drop_last())
    }
}

proof fn lemma_room_taken<A>(requests: Seq<Pending<A>>)
    ensures
        room_taken(requests) == reserved_total(pending_view(requests)),
    decreases requests.len(),
{
    let views = pending_view(requests);
    assert(views.len() == requests.len());
    if requests.len() > 0 {
        lemma_room_taken(requests.drop_last());
        assert(views.drop_last() =~= pending_view(requests.drop_last()));
        assert(views.last() == requests[requests.len() - 1]@);
    }
}

/// Whether nothing has changed.
pub open spec fn unchanged<A>(before: State<A>, after: State<A>) -> bool {
    &&& same_selections(before, after)
    &&& same_requests(before.pending@, after.pending@)
    &&& after.next_stream == before.next_stream
}

/// What asking for room comes to. Requests that nobody waits for make way first. There is
/// room for fewer than sixty-four others and sixteen mebibytes with them, as long as stream
/// numbers last; each number is handed out once, one after the other.
pub open spec fn room_asked<A>(
    before: State<A>,
    after: State<A>,
    bytes: int,
    gone: Seq<u32>,
    id: Option<u32>,
) -> bool {
    let room = after.pending@.len() < 64 && room_taken(after.pending@) + bytes <= 16 * 1024 * 1024
        && before.next_stream is Some;
    &&& requests_left(before.pending@, after.pending@, Seq::empty(), gone)
    &&& same_selections(before, after)
    &&& id is Some <==> room
    &&& match id {
        Some(n) => {
            &&& before.next_stream == Some(n)
            &&& n < u32::MAX ==> after.next_stream == Some((n + 1) as u32)
            &&& n == u32::MAX ==> after.next_stream is None
        },
        None => after.next_stream == before.next_stream,
    }
}

proof fn lemma_unchanged<A>(before: State<A>, after: State<A>)
    requires
        after@ == before@,
    ensures
        unchanged(before, after),
{
    lemma_same_selections(before, after);
    lemma_same_requests(before, after);
}

proof fn lemma_room_asked<A>(before: State<A>, after: State<A>, bytes: int, gone: Seq<u32>)
    requires
        after@ == before@.after_allocate(gone, bytes),
    ensures
        room_asked(
            before,
            after,
            bytes,
            gone,
            if before@.prune(gone).can_admit(bytes) { before.next_stream } else { None },
        ),
{
    let keep = |p: PendingView<A>| !gone.contains(p.id);
    lemma_requests_left(before, after, keep, Seq::empty(), gone);
    lemma_same_selections(before, after);
    lemma_room_taken(after.pending@);
    assert(after@.pending.len() == after.pending@.len());
}

/// A stream number is handed out exactly where there is room.
pub proof fn law_allocate_keeps_to_the_budgets<A>(
    transfer: &mut Transfer<A>,
    bytes: usize,
    gone: &[u32],
    id: Result<u32, ()>,
)
    requires
        call_ensures(Transfer::<A>::allocate, (transfer, bytes, gone), id),
        old(transfer).wf(),
    ensures
        room_asked(
            old(transfer).state,
            final(transfer).state,
            bytes as int,
            gone@,
            match id {
                Ok(n) => Some(n),
                Err(()) => None,
            },
        ),
{
    lemma_room_asked(old(transfer).state, final(transfer).state, bytes as int, gone@);
}

/// Where an inode stands among the nodes of a tree.
pub open spec fn place(tree: RemoteTree, inode: u64) -> int {
    inode - tree.base - 2
}

/// Whether an inode is one of a tree's.
pub open spec fn owned(tree: RemoteTree, inode: u64) -> bool {
    0 <= place(tree, inode) < tree.nodes@.len()
}

/// A request for the size of the file at a place of the announced list, under a lock.
pub open spec fn asks_size(
    step: Result<SizeStep, ()>,
    id: u32,
    generation: u64,
    inode: u64,
    index: i32,
    data_id: Option<u32>,
) -> bool {
    &&& step matches Ok(SizeStep::Ask(admission))
    &&& admission.generation == generation
    &&& admission.request.stream_id == id
    &&& admission.request.index == index
    &&& admission.request.flags == 1
    &&& admission.request.position == 0
    &&& admission.request.requested_size == 8
    &&& admission.request.data_id == data_id
    &&& admission.operation == (Operation::Size { inode })
    &&& admission.reserved == 8
}

/// The stream number of an admitted size request.
pub open spec fn size_id(step: Result<SizeStep, ()>) -> Option<u32> {
    match step {
        Ok(SizeStep::Ask(admission)) => Some(admission.request.stream_id),
        _ => None,
    }
}

/// What asking for the size of one of a selection's files comes to: the size that is known, if
/// it may be told, and otherwise a request that names the file by its place in the list, under
/// the selection's own lock.
pub open spec fn size_of_file<A>(
    before: State<A>,
    after: State<A>,
    selection: Selection,
    generation: u64,
    inode: u64,
    gone: Seq<u32>,
    step: Result<SizeStep, ()>,
) -> bool {
    let node = selection.tree.nodes@[place(selection.tree, inode)];
    if !owned(selection.tree, inode) {
        step is Err && unchanged(before, after)
    } else if node.size is Some {
        &&& unchanged(before, after)
        &&& if before.huge || node.size->0 <= 0xffff_ffff {
            step == Ok::<SizeStep, ()>(SizeStep::Known(node.size->0))
        } else {
            step is Err
        }
    } else {
        match node.kind {
            RemoteNodeKind::Directory => step is Err && unchanged(before, after),
            RemoteNodeKind::File { index } => {
                &&& room_asked(before, after, 8, gone, size_id(step))
                &&& match size_id(step) {
                    Some(id) => asks_size(step, id, generation, inode, index, selection.data_id),
                    None => step is Err,
                }
            },
        }
    }
}

/// The stream number of an admitted read.
pub open spec fn read_id(step: Result<ReadStep, ()>) -> Option<u32> {
    match step {
        Ok(ReadStep::Ask(admission)) => Some(admission.request.stream_id),
        _ => None,
    }
}

/// The first request for a range of the file at a place of the announced list, under a lock:
/// it begins at the position and asks for a chunk at most.
pub open spec fn asks_range(
    step: Result<ReadStep, ()>,
    id: u32,
    generation: u64,
    index: i32,
    data_id: Option<u32>,
    position: u64,
    amount: int,
    chunk: u32,
) -> bool {
    let first = if amount <= chunk { amount } else { chunk as int };
    &&& step matches Ok(ReadStep::Ask(admission))
    &&& admission.generation == generation
    &&& admission.request.stream_id == id
    &&& admission.request.index == index
    &&& admission.request.flags == 2
    &&& admission.request.position == position
    &&& admission.request.requested_size == first
    &&& admission.request.data_id == data_id
    &&& admission.reserved == amount
    &&& admission.operation matches Operation::Range { base, fetch }
    &&& base == position
    &&& fetch_order(fetch) == (id, index, amount as u64, chunk, data_id)
    &&& fetch_received(fetch).len() == 0
    &&& fetch_asked(fetch) == Some(first as u32)
}

/// What reading a range of one of a selection's files comes to, once its size is known: as
/// many bytes as there are from the position on, up to `size` of them, asked for by the file's
/// place in the list and under the selection's own lock.
pub open spec fn range_of_file<A>(
    before: Transfer<A>,
    after: Transfer<A>,
    selection: Selection,
    generation: u64,
    inode: u64,
    position: u64,
    size: u32,
    gone: Seq<u32>,
    step: Result<ReadStep, ()>,
) -> bool {
    let node = selection.tree.nodes@[place(selection.tree, inode)];
    if size > 8 * 1024 * 1024 || !owned(selection.tree, inode) || node.size is None {
        step is Err && unchanged(before.state, after.state)
    } else {
        match node.kind {
            RemoteNodeKind::Directory => step is Err && unchanged(before.state, after.state),
            RemoteNodeKind::File { index } => {
                let total = node.size->0;
                let left = if total >= position { total - position } else { 0 };
                let amount = if left <= size { left } else { size as int };
                if amount == 0 {
                    step == Ok::<ReadStep, ()>(ReadStep::Empty) && unchanged(
                        before.state,
                        after.state,
                    )
                } else {
                    &&& room_asked(before.state, after.state, amount, gone, read_id(step))
                    &&& match read_id(step) {
                        Some(id) => asks_range(
                            step,
                            id,
                            generation,
                            index,
                            selection.data_id,
                            position,
                            amount,
                            before.max_chunk,
                        ),
                        None => step is Err,
                    }
                }
            },
        }
    }
}

proof fn lemma_node<A>(
    state: State<A>,
    generation: u64,
    selection: Selection,
    inode: u64,
)
    requires
        state.wf(),
        serves(state, generation, selection),
    ensures
        state@.selection(generation) == Some(selection@),
        owned(selection.tree, inode) ==> state@.node(generation, inode) == Some(
            selection.tree.nodes@[place(selection.tree, inode)]@,
        ),
        !owned(selection.tree, inode) ==> state@.node(generation, inode) is None,
{
    lemma_serves(state, generation, selection);
    let tree = selection.tree;
    assert(tree@.nodes.len() == tree.nodes@.len());
    if owned(tree, inode) {
        let k = place(tree, inode);
        assert(tree@.nodes[k] == tree.nodes@[k]@);
        assert(tree@.owns(inode));
    }
}

/// The size of a file is told or asked for under the name and the lock of the selection that
/// the file belongs to, whether that one is live or retired. Of a selection that does not serve
/// nothing is told.
pub proof fn law_a_size_is_that_of_the_file<A>(
    transfer: &mut Transfer<A>,
    generation: u64,
    inode: u64,
    gone: &[u32],
    step: Result<SizeStep, ()>,
    selection: Selection,
)
    requires
        call_ensures(Transfer::<A>::size, (transfer, generation, inode, gone), step),
        old(transfer).wf(),
    ensures
        serves(old(transfer).state, generation, selection) ==> size_of_file(
            old(transfer).state,
            final(transfer).state,
            selection,
            generation,
            inode,
            gone@,
            step,
        ),
        (forall|other: Selection| !#[trigger] serves(old(transfer).state, generation, other))
            ==> step is Err && unchanged(old(transfer).state, final(transfer).state),
{
    let before = old(transfer).state;
    let after = final(transfer).state;
    if forall|other: Selection| !#[trigger] serves(before, generation, other) {
        lemma_serves_none(before, generation);
        lemma_unchanged(before, after);
    }
    if serves(before, generation, selection) {
        lemma_size(
            before,
            after,
            selection,
            generation,
            inode,
            gone@,
            *old(transfer),
            *final(transfer),
            step,
        );
    }
}

proof fn lemma_size<A>(
    before: State<A>,
    after: State<A>,
    selection: Selection,
    generation: u64,
    inode: u64,
    gone: Seq<u32>,
    first: Transfer<A>,
    last: Transfer<A>,
    step: Result<SizeStep, ()>,
)
    requires
        first.wf(),
        before == first.state,
        after == last.state,
        serves(before, generation, selection),
        crate::transfer::size_step(first, last, generation, inode, gone, step),
    ensures
        size_of_file(before, after, selection, generation, inode, gone, step),
{
    lemma_node(before, generation, selection, inode);
    let node = selection.tree.nodes@[place(selection.tree, inode)];
    if !owned(selection.tree, inode) || node.size is Some || node.kind is Directory {
        lemma_unchanged(before, after);
    } else {
        lemma_room_asked(before, after, 8, gone);
        if let Ok(SizeStep::Ask(admission)) = step {
            assert(admission@.operation == admission.operation@);
        }
    }
}

proof fn lemma_range<A>(
    first: Transfer<A>,
    last: Transfer<A>,
    selection: Selection,
    generation: u64,
    inode: u64,
    position: u64,
    size: u32,
    gone: Seq<u32>,
    step: Result<ReadStep, ()>,
)
    requires
        first.wf(),
        serves(first.state, generation, selection),
        crate::transfer::read_step(first, last, generation, inode, position, size, gone, step),
    ensures
        range_of_file(first, last, selection, generation, inode, position, size, gone, step),
{
    let before = first.state;
    let after = last.state;
    lemma_node(before, generation, selection, inode);
    let node = selection.tree.nodes@[place(selection.tree, inode)];
    if size > 8 * 1024 * 1024 || !owned(selection.tree, inode) || node.size is None
        || node.kind is Directory {
        lemma_unchanged(before, after);
    } else {
        let total = node.size->0;
        let left = if total >= position { total - position } else { 0 };
        let amount = if left <= size { left } else { size as int };
        if amount == 0 {
            lemma_unchanged(before, after);
        } else {
            lemma_room_asked(before, after, amount, gone);
            if let Ok(ReadStep::Ask(admission)) = step {
                assert(admission@.operation == admission.operation@);
                if let Operation::Range { base, fetch } = admission.operation {
                    assert(admission@.operation == (crate::model::OperationView::Range {
                        base,
                        fetch: fetch_view(fetch),
                    }));
                    let order = fetch_order(fetch);
                    assert(order == (order.0, order.1, order.2, order.3, order.4));
                }
            }
        }
    }
}

/// A range is read of the file and under the lock of the selection that the file belongs to,
/// whether that one is live or retired.
pub proof fn law_a_range_is_that_of_the_file<A>(
    transfer: &mut Transfer<A>,
    generation: u64,
    inode: u64,
    position: u64,
    size: u32,
    gone: &[u32],
    step: Result<ReadStep, ()>,
    selection: Selection,
)
    requires
        call_ensures(
            Transfer::<A>::read,
            (transfer, generation, inode, position, size, gone),
            step,
        ),
        old(transfer).wf(),
    ensures
        serves(old(transfer).state, generation, selection) ==> range_of_file(
            *old(transfer),
            *final(transfer),
            selection,
            generation,
            inode,
            position,
            size,
            gone@,
            step,
        ),
        (forall|other: Selection| !#[trigger] serves(old(transfer).state, generation, other))
            ==> step is Err && unchanged(old(transfer).state, final(transfer).state),
        final(transfer).max_chunk == old(transfer).max_chunk,
        final(transfer).max_entries == old(transfer).max_entries,
{
    let before = old(transfer).state;
    let after = final(transfer).state;
    if forall|other: Selection| !#[trigger] serves(before, generation, other) {
        lemma_serves_none(before, generation);
        lemma_unchanged(before, after);
    }
    if serves(before, generation, selection) {
        lemma_range(
            *old(transfer),
            *final(transfer),
            selection,
            generation,
            inode,
            position,
            size,
            gone@,
            step,
        );
    }
}

/// A read begins with its range where the size of the file is known and may be told, and with
/// a request for the size where it is not known.
pub proof fn law_a_read_begins_with_what_is_known<A>(
    transfer: &mut Transfer<A>,
    generation: u64,
    inode: u64,
    position: u64,
    size: u32,
    gone: &[u32],
    step: Result<StartStep, ()>,
    selection: Selection,
)
    requires
        call_ensures(
            Transfer::<A>::start_read,
            (transfer, generation, inode, position, size, gone),
            step,
        ),
        old(transfer).wf(),
        serves(old(transfer).state, generation, selection),
    ensures
        ({
            let node = selection.tree.nodes@[place(selection.tree, inode)];
            let before = *old(transfer);
            let after = *final(transfer);
            if !owned(selection.tree, inode) || (node.size is None && node.kind is Directory) || (
            node.size is Some && node.size->0 > 0xffff_ffff && !before.state.huge) {
                step is Err && unchanged(before.state, after.state)
            } else if node.size is Some {
                &&& !(step matches Ok(StartStep::Size(_)))
                &&& range_of_file(
                    before,
                    after,
                    selection,
                    generation,
                    inode,
                    position,
                    size,
                    gone@,
                    match step {
                        Ok(StartStep::Range(range)) => Ok(range),
                        _ => Err(()),
                    },
                )
            } else {
                &&& !(step matches Ok(StartStep::Range(_)))
                &&& size_of_file(
                    before.state,
                    after.state,
                    selection,
                    generation,
                    inode,
                    gone@,
                    match step {
                        Ok(StartStep::Size(admission)) => Ok(SizeStep::Ask(admission)),
                        _ => Err(()),
                    },
                )
            }
        }),
{
    let before = *old(transfer);
    let after = *final(transfer);
    lemma_node(before.state, generation, selection, inode);
    let node = selection.tree.nodes@[place(selection.tree, inode)];
    if !owned(selection.tree, inode) || (node.size is None && node.kind is Directory) || (node.size
        is Some && node.size->0 > 0xffff_ffff && !before.state.huge) {
        lemma_unchanged(before.state, after.state);
    } else if node.size is Some {
        let range = match step {
            Ok(StartStep::Range(range)) => Ok(range),
            _ => Err(()),
        };
        lemma_range(before, after, selection, generation, inode, position, size, gone@, range);
    } else {
        let asked = match step {
            Ok(StartStep::Size(admission)) => Ok(SizeStep::Ask(admission)),
            _ => Err(()),
        };
        lemma_size(
            before.state,
            after.state,
            selection,
            generation,
            inode,
            gone@,
            before,
            after,
            asked,
        );
    }
}

/// A request that was sent joins the unanswered ones as the last, with its reader; one that
/// could not be sent changes nothing.
pub proof fn law_a_sent_request_is_waited_for<A>(
    transfer: &mut Transfer<A>,
    admission: Admission,
    answer: A,
    sent: bool,
    submitted: Result<(), ()>,
)
    requires
        call_ensures(Transfer::<A>::submit, (transfer, admission, answer, sent), submitted),
        old(transfer).wf(),
        old(transfer).state@.admits(admission@.pending(answer)),
        admission@.pending(answer).in_chunks(old(transfer).max_chunk),
    ensures
        submitted is Ok <==> sent,
        same_selections(old(transfer).state, final(transfer).state),
        final(transfer).state.next_stream == old(transfer).state.next_stream,
        !sent ==> same_requests(old(transfer).state.pending@, final(transfer).state.pending@),
        sent ==> {
            let before = old(transfer).state.pending@;
            let after = final(transfer).state.pending@;
            &&& after.len() == before.len() + 1
            &&& forall|i: int| #![trigger after[i]]
                0 <= i < before.len() ==> same_request(after[i], before[i])
            &&& same_request(
                after[before.len() as int],
                Pending {
                    id: admission.request.stream_id,
                    generation: admission.generation,
                    operation: admission.operation,
                    answer,
                    reserved: admission.reserved,
                },
            )
        },
{
    let before = old(transfer).state;
    let after = final(transfer).state;
    lemma_same_selections(before, after);
    assert(after@.pending.len() == after.pending@.len());
    assert(before@.pending.len() == before.pending@.len());
    if sent {
        assert forall|i: int| #![trigger after.pending@[i]] 0 <= i < before.pending@.len() implies
            same_request(after.pending@[i], before.pending@[i]) by {
            assert(after@.pending[i] == after.pending@[i]@);
            assert(before@.pending[i] == before.pending@[i]@);
        }
        let n = before.pending@.len() as int;
        assert(after@.pending[n] == after.pending@[n]@);
    } else {
        lemma_same_requests(before, after);
    }
}

/// Giving a request up takes exactly that one away and hands its reader back.
pub proof fn law_giving_up_takes_one_request<A>(
    transfer: &mut Transfer<A>,
    id: u32,
    answer: Option<A>,
)
    requires
        call_ensures(Transfer::<A>::forget, (transfer, id), answer),
        old(transfer).wf(),
    ensures
        same_selections(old(transfer).state, final(transfer).state),
        final(transfer).state.next_stream == old(transfer).state.next_stream,
        requests_left(
            old(transfer).state.pending@,
            final(transfer).state.pending@,
            Seq::empty(),
            seq![id],
        ),
        forall|i: int| #![trigger old(transfer).state.pending@[i]]
            0 <= i < old(transfer).state.pending@.len() && old(transfer).state.pending@[i].id == id
                ==> answer == Some(old(transfer).state.pending@[i].answer),
        answer is Some ==> exists|i: int| #![trigger old(transfer).state.pending@[i]]
            0 <= i < old(transfer).state.pending@.len() && old(transfer).state.pending@[i].id == id,
{
    lemma_forgotten(old(transfer).state, final(transfer).state, id);
    let before = old(transfer).state;
    let s = before@;
    assert forall|i: int| #![trigger before.pending@[i]]
        0 <= i < before.pending@.len() && before.pending@[i].id == id implies answer == Some(
        before.pending@[i].answer,
    ) by {
        lemma_at(before, id, i);
    }
    if answer is Some {
        let i = s.pending_index(id);
        assert(s.pending_at(id, i));
        assert(s.pending[i] == before.pending@[i]@);
    }
}

/// Where a request stands is where the model finds it.
proof fn lemma_at<A>(state: State<A>, id: u32, i: int)
    requires
        state.wf(),
        0 <= i < state.pending@.len(),
        state.pending@[i].id == id,
    ensures
        state@.is_pending(id),
        state@.pending_index(id) == i,
        state@.pending[i] == state.pending@[i]@,
{
    let s = state@;
    assert(s.pending.len() == state.pending@.len());
    assert(s.pending[i] == state.pending@[i]@);
    assert(s.pending_at(id, i));
    let k = s.pending_index(id);
    assert(s.pending_at(id, k));
    if i < k {
        assert(s.pending[i].id < s.pending[k].id);
    } else if k < i {
        assert(s.pending[k].id < s.pending[i].id);
    }
}

proof fn lemma_forgotten<A>(before: State<A>, after: State<A>, id: u32)
    requires
        before.wf(),
        after@.pending == before@.forget(id).pending,
    ensures
        requests_left(before.pending@, after.pending@, Seq::empty(), seq![id]),
        after@ == before@.forget(id) ==> same_selections(before, after),
{
    let s = before@;
    let t = after@;
    assert(t.pending.len() == after.pending@.len());
    assert(s.pending.len() == before.pending@.len());
    assert(seq![id][0] == id);
    if s.is_pending(id) {
        let k = s.pending_index(id);
        assert(s.pending_at(id, k));
        assert forall|i: int| #![trigger before.pending@[i]]
            0 <= i < before.pending@.len() && !seq![id].contains(before.pending@[i].id) implies among(
            after.pending@,
            before.pending@[i],
        ) by {
            assert(s.pending[i] == before.pending@[i]@);
            let j = if i < k { i } else { i - 1 };
            assert(t.pending[j] == s.pending[i]);
            assert(t.pending[j] == after.pending@[j]@);
            assert(same_request(after.pending@[j], before.pending@[i]));
        }
        assert forall|j: int| #![trigger after.pending@[j]] 0 <= j < after.pending@.len() implies {
            &&& !seq![id].contains(after.pending@[j].id)
            &&& among(before.pending@, after.pending@[j])
        } by {
            let i = if j < k { j } else { j + 1 };
            assert(t.pending[j] == s.pending[i]);
            assert(t.pending[j] == after.pending@[j]@);
            assert(s.pending[i] == before.pending@[i]@);
            assert(same_request(before.pending@[i], after.pending@[j]));
            if i < k {
                assert(s.pending[i].id < s.pending[k].id);
            } else {
                assert(s.pending[k].id < s.pending[i].id);
            }
        }
    } else {
        lemma_same_requests(before, after);
        assert forall|j: int| #![trigger after.pending@[j]] 0 <= j < after.pending@.len() implies
            !seq![id].contains(after.pending@[j].id) by {
            assert(t.pending[j] == after.pending@[j]@);
            if after.pending@[j].id == id {
                assert(s.pending_at(id, j));
            }
        }
    }
    if t == s.forget(id) {
        lemma_same_selections(before, after);
    }
}

/// An answer to a request that is not waited for changes nothing.
pub proof fn law_a_strange_answer_is_ignored<A>(
    transfer: &mut Transfer<A>,
    response: FileContentsResponse,
    unwanted: bool,
    step: ResponseStep<A>,
)
    requires
        call_ensures(Transfer::<A>::on_response, (transfer, response, unwanted), step),
        old(transfer).wf(),
        forall|i: int| #![trigger old(transfer).state.pending@[i]]
            0 <= i < old(transfer).state.pending@.len() ==> old(transfer).state.pending@[i].id
                != response.stream_id,
    ensures
        step is Ignored,
        unchanged(old(transfer).state, final(transfer).state),
{
    let before = old(transfer).state;
    let id = response.stream_id;
    if before@.is_pending(id) {
        let i = choose|i: int| before@.pending_at(id, i);
        assert(before@.pending[i] == before.pending@[i]@);
        assert(before.pending@[i].id == id);
    }
    lemma_unchanged(before, final(transfer).state);
}

/// Whether a request is over: it alone has gone, and no selection has changed.
pub open spec fn over<A>(before: State<A>, after: State<A>, id: u32) -> bool {
    &&& requests_left(before.pending@, after.pending@, Seq::empty(), seq![id])
    &&& same_selections(before, after)
    &&& after.next_stream == before.next_stream
}

/// An answer that nobody wants, or that reports an error, ends its request. The reader who
/// still waits is told that the read failed.
pub proof fn law_an_error_fails_its_reader<A>(
    transfer: &mut Transfer<A>,
    response: FileContentsResponse,
    unwanted: bool,
    step: ResponseStep<A>,
    i: int,
)
    requires
        call_ensures(Transfer::<A>::on_response, (transfer, response, unwanted), step),
        old(transfer).wf(),
        0 <= i < old(transfer).state.pending@.len(),
        old(transfer).state.pending@[i].id == response.stream_id,
        unwanted || response.is_error,
    ensures
        over(old(transfer).state, final(transfer).state, response.stream_id),
        unwanted ==> step is Ignored,
        !unwanted ==> step == (ResponseStep::Answer {
            answer: old(transfer).state.pending@[i].answer,
            result: Err(()),
        }),
{
    let before = old(transfer).state;
    lemma_at(before, response.stream_id, i);
    lemma_forgotten(before, final(transfer).state, response.stream_id);
}

/// A size that was told ends its request. Eight bytes are the size of the file: it is recorded
/// for that file of the selection that asked, and told to the reader if it may be. Anything
/// else fails the read.
pub proof fn law_a_told_size_reaches_its_file<A>(
    transfer: &mut Transfer<A>,
    response: FileContentsResponse,
    step: ResponseStep<A>,
    i: int,
    inode: u64,
    selection: Selection,
)
    requires
        call_ensures(Transfer::<A>::on_response, (transfer, response, false), step),
        old(transfer).wf(),
        0 <= i < old(transfer).state.pending@.len(),
        old(transfer).state.pending@[i].id == response.stream_id,
        old(transfer).state.pending@[i].operation == (Operation::Size { inode }),
        !response.is_error,
        serves(
            old(transfer).state,
            old(transfer).state.pending@[i].generation,
            selection,
        ),
    ensures
        ({
            let before = old(transfer).state;
            let after = final(transfer).state;
            let p = before.pending@[i];
            let size = spec_u64_from_le_bytes(response.data@);
            let known = response.data@.len() == 8 && owned(selection.tree, inode)
                && selection.tree.nodes@[place(selection.tree, inode)].kind is File;
            &&& requests_left(
                before.pending@,
                after.pending@,
                Seq::empty(),
                seq![response.stream_id],
            )
            &&& after.next_stream == before.next_stream
            &&& step == (ResponseStep::Answer {
                answer: p.answer,
                result: if known && (before.huge || size <= 0xffff_ffff) {
                    Ok(Value::Size(size))
                } else {
                    Err(())
                },
            })
            &&& !known ==> same_selections(before, after)
            &&& known ==> size_recorded(before, after, p.generation, inode, size)
        }),
{
    let before = old(transfer).state;
    let after = final(transfer).state;
    let p = before.pending@[i];
    let s = before@;
    let id = response.stream_id;
    lemma_at(before, id, i);
    lemma_node(before, p.generation, selection, inode);
    lemma_forgotten(before, after, id);
    let size = spec_u64_from_le_bytes(response.data@);
    let f = s.forget(id);
    assert(selection.tree@.nodes.len() == selection.tree.nodes@.len());
    let k = place(selection.tree, inode);
    if owned(selection.tree, inode) {
        assert(selection.tree@.nodes[k] == selection.tree.nodes@[k]@);
    }
    crate::preserve::lemma_remove_wf(s, i);
    if s.generation != p.generation {
        let j = choose|j: int| s.retiring_at(p.generation, j);
        assert(f.retiring_at(p.generation, j));
    }
    if response.data@.len() == 8 {
        assert(after@ == f.with_size(p.generation, inode, size));
        if owned(selection.tree, inode) && selection.tree.nodes@[k].kind is File {
            lemma_size_recorded(before, after, p.generation, inode, size, selection);
        } else {
            assert(f.selection(p.generation) == s.selection(p.generation));
            lemma_nothing_recorded(before, after, p.generation, inode, size, selection);
        }
    } else {
        lemma_same_selections(before, after);
    }
}

/// Whether a size was recorded for one file of one selection, and for nothing else.
pub open spec fn sized(before: RemoteTree, after: RemoteTree, inode: u64, size: u64) -> bool {
    &&& after.base == before.base
    &&& after.roots@ == before.roots@
    &&& after.nodes@.len() == before.nodes@.len()
    &&& forall|k: int| #![trigger after.nodes@[k]]
        0 <= k < before.nodes@.len() ==> {
            &&& after.nodes@[k].name@ == before.nodes@[k].name@
            &&& path_text(after.nodes@[k].relative_path) == path_text(
                before.nodes@[k].relative_path,
            )
            &&& after.nodes@[k].kind == before.nodes@[k].kind
            &&& after.nodes@[k].size == if k == place(before, inode) {
                Some(size)
            } else {
                before.nodes@[k].size
            }
        }
}

/// Whether a size was recorded for a file of the selection of a generation, all others being as
/// they were.
pub open spec fn size_recorded<A>(
    before: State<A>,
    after: State<A>,
    generation: u64,
    inode: u64,
    size: u64,
) -> bool {
    &&& after.generation == before.generation
    &&& after.closed == before.closed
    &&& after.stream == before.stream
    &&& after.huge == before.huge
    &&& after.next_base == before.next_base
    &&& after.current.data_id == before.current.data_id
    &&& if generation == before.generation {
        sized(before.current.tree, after.current.tree, inode, size)
    } else {
        same_tree(before.current.tree, after.current.tree)
    }
    &&& after.retiring@.len() == before.retiring@.len()
    &&& forall|i: int| #![trigger after.retiring@[i]]
        0 <= i < before.retiring@.len() ==> {
            &&& after.retiring@[i].0 == before.retiring@[i].0
            &&& after.retiring@[i].1.data_id == before.retiring@[i].1.data_id
            &&& if before.retiring@[i].0 == generation && generation != before.generation {
                sized(before.retiring@[i].1.tree, after.retiring@[i].1.tree, inode, size)
            } else {
                same_tree(before.retiring@[i].1.tree, after.retiring@[i].1.tree)
            }
        }
}

proof fn lemma_sized(before: RemoteTree, after: RemoteTree, inode: u64, size: u64)
    requires
        after@ == before@.with_size(inode, size),
        owned(before, inode),
        before.nodes@[place(before, inode)].kind is File,
    ensures
        sized(before, after, inode, size),
{
    assert(before@.nodes.len() == before.nodes@.len());
    assert(after@.nodes.len() == after.nodes@.len());
    let at = place(before, inode);
    assert(before@.nodes[at] == before.nodes@[at]@);
    assert forall|k: int| #![trigger after.nodes@[k]] 0 <= k < before.nodes@.len() implies {
        &&& after.nodes@[k].name@ == before.nodes@[k].name@
        &&& path_text(after.nodes@[k].relative_path) == path_text(before.nodes@[k].relative_path)
        &&& after.nodes@[k].kind == before.nodes@[k].kind
        &&& after.nodes@[k].size == if k == at {
            Some(size)
        } else {
            before.nodes@[k].size
        }
    } by {
        assert(before@.nodes[k] == before.nodes@[k]@);
        assert(after@.nodes[k] == after.nodes@[k]@);
    }
}

proof fn lemma_size_recorded<A>(
    before: State<A>,
    after: State<A>,
    generation: u64,
    inode: u64,
    size: u64,
    selection: Selection,
)
    requires
        before.wf(),
        serves(before, generation, selection),
        owned(selection.tree, inode),
        selection.tree.nodes@[place(selection.tree, inode)].kind is File,
        ({
            let f = StateView { pending: after@.pending, ..before@ };
            after@ == f.with_size(generation, inode, size)
        }),
    ensures
        size_recorded(before, after, generation, inode, size),
{
    let s = before@;
    let t = after@;
    let f = StateView { pending: t.pending, ..s };
    lemma_serves(before, generation, selection);
    assert(s.retiring.len() == before.retiring@.len());
    assert(t.retiring.len() == after.retiring@.len());
    if s.generation != generation {
        let j = choose|j: int| s.retiring_at(generation, j);
        assert(f.retiring_at(generation, j));
        assert(f.servable(generation));
    }
    if generation == before.generation {
        lemma_sized(before.current.tree, after.current.tree, inode, size);
    } else {
        lemma_same_tree(before.current.tree, after.current.tree);
    }
    assert forall|i: int| #![trigger after.retiring@[i]] 0 <= i < before.retiring@.len() implies {
        &&& after.retiring@[i].0 == before.retiring@[i].0
        &&& after.retiring@[i].1.data_id == before.retiring@[i].1.data_id
        &&& if before.retiring@[i].0 == generation && generation != before.generation {
            sized(before.retiring@[i].1.tree, after.retiring@[i].1.tree, inode, size)
        } else {
            same_tree(before.retiring@[i].1.tree, after.retiring@[i].1.tree)
        }
    } by {
        assert(s.retiring[i] == (before.retiring@[i].0, before.retiring@[i].1@));
        assert(t.retiring[i] == (after.retiring@[i].0, after.retiring@[i].1@));
        let a = before.retiring@[i].1.tree;
        let b = after.retiring@[i].1.tree;
        if before.retiring@[i].0 == generation && generation != before.generation {
            let k = position_of(s.retiring, generation);
            assert(s.retiring[i].0 == generation);
            assert(0 <= k < s.retiring.len() && s.retiring[k].0 == generation);
            if i < k {
                assert(s.retiring[i].0 < s.retiring[k].0);
            } else if k < i {
                assert(s.retiring[k].0 < s.retiring[i].0);
            }
            let m = choose|m: int|
                0 <= m < before.retiring@.len() && #[trigger] before.retiring@[m] == (
                    generation,
                    selection,
                );
            assert(s.retiring[m].0 == generation);
            if i < m {
                assert(s.retiring[i].0 < s.retiring[m].0);
            } else if m < i {
                assert(s.retiring[m].0 < s.retiring[i].0);
            }
            lemma_sized(a, b, inode, size);
        } else {
            lemma_same_tree(a, b);
        }
    }
}

proof fn lemma_nothing_recorded<A>(
    before: State<A>,
    after: State<A>,
    generation: u64,
    inode: u64,
    size: u64,
    selection: Selection,
)
    requires
        before.wf(),
        serves(before, generation, selection),
        !owned(selection.tree, inode) || selection.tree.nodes@[place(selection.tree, inode)].kind
            is Directory,
        ({
            let f = StateView { pending: after@.pending, ..before@ };
            after@ == f.with_size(generation, inode, size)
        }),
    ensures
        same_selections(before, after),
{
    let s = before@;
    let f = StateView { pending: after@.pending, ..s };
    lemma_serves(before, generation, selection);
    let tree = selection.tree;
    assert(tree@.nodes.len() == tree.nodes@.len());
    if owned(tree, inode) {
        let k = place(tree, inode);
        assert(tree@.nodes[k] == tree.nodes@[k]@);
    }
    assert(!tree@.is_file(inode));
    assert(tree@.with_size(inode, size) == tree@);
    if s.generation != generation {
        let j = choose|j: int| s.retiring_at(generation, j);
        assert(f.retiring_at(generation, j));
        let k = position_of(s.retiring, generation);
        assert(s.retiring[j].0 == generation);
        assert(0 <= k < s.retiring.len() && s.retiring[k].0 == generation);
        assert(s.retiring.update(k, s.retiring[k]) =~= s.retiring);
    }
    assert(after@ =~= f);
    lemma_same_selections(before, after);
}

/// Bytes of a range are added to those before them. As few as one and as many as were asked for
/// are taken; the reader has them all when the range is full, and otherwise the rest is asked
/// for: of the same file, under the same lock, from where the bytes so far end.
pub proof fn law_a_range_is_gathered_from_its_answers<A>(
    transfer: &mut Transfer<A>,
    response: FileContentsResponse,
    step: ResponseStep<A>,
    i: int,
)
    requires
        call_ensures(Transfer::<A>::on_response, (transfer, response, false), step),
        old(transfer).wf(),
        0 <= i < old(transfer).state.pending@.len(),
        old(transfer).state.pending@[i].id == response.stream_id,
        old(transfer).state.pending@[i].operation is Range,
        !response.is_error,
    ensures
        ({
            let before = old(transfer).state;
            let after = final(transfer).state;
            let p = before.pending@[i];
            let base = p.operation->base;
            let fetch = p.operation->fetch;
            let got = fetch_received(fetch);
            let (_, index, total, chunk, lock) = fetch_order(fetch);
            let data = response.data@;
            let left = total - got.len() - data.len();
            &&& same_selections(before, after)
            &&& after.next_stream == before.next_stream
            &&& if data.len() == 0 || data.len() > total - got.len() || data.len() > chunk {
                &&& step == (ResponseStep::Answer { answer: p.answer, result: Err(()) })
                &&& over(before, after, response.stream_id)
            } else if left == 0 {
                &&& step matches ResponseStep::Answer { answer, result: Ok(Value::Bytes(bytes)) }
                &&& answer == p.answer
                &&& bytes@ == got + data
                &&& over(before, after, response.stream_id)
            } else {
                let next = if left <= chunk { left } else { chunk as int };
                &&& step matches ResponseStep::Continue { request }
                &&& request.stream_id == response.stream_id
                &&& request.index == index
                &&& request.flags == 2
                &&& request.data_id == lock
                &&& request.position == base + got.len() + data.len()
                &&& request.requested_size == next
                &&& after.pending@.len() == before.pending@.len()
                &&& forall|j: int| #![trigger after.pending@[j]]
                    0 <= j < before.pending@.len() && j != i ==> same_request(
                        after.pending@[j],
                        before.pending@[j],
                    )
                &&& after.pending@[i].id == p.id
                &&& after.pending@[i].generation == p.generation
                &&& after.pending@[i].answer == p.answer
                &&& after.pending@[i].reserved == p.reserved
                &&& after.pending@[i].operation matches Operation::Range {
                    base: same,
                    fetch: gathered,
                }
                &&& same == base
                &&& fetch_received(gathered) == got + data
                &&& fetch_order(gathered) == fetch_order(fetch)
                &&& fetch_asked(gathered) == Some(next as u32)
            }
        }),
{
    let before = old(transfer).state;
    let after = final(transfer).state;
    let p = before.pending@[i];
    let id = response.stream_id;
    lemma_at(before, id, i);
    assert(before@.pending[i].wf());
    lemma_same_selections(before, after);
    let fetch = p.operation->fetch;
    let got = fetch_received(fetch);
    let order = fetch_order(fetch);
    let data = response.data@;
    let left = order.2 - got.len() - data.len();
    assert(order == (order.0, order.1, order.2, order.3, order.4));
    if data.len() == 0 || data.len() > order.2 - got.len() || data.len() > order.3 || left == 0 {
        lemma_forgotten(before, after, id);
    } else {
        assert(after@.pending.len() == after.pending@.len());
        assert(before@.pending.len() == before.pending@.len());
        assert forall|j: int| #![trigger after.pending@[j]]
            0 <= j < before.pending@.len() && j != i implies same_request(
            after.pending@[j],
            before.pending@[j],
        ) by {
            assert(after@.pending[j] == after.pending@[j]@);
            assert(before@.pending[j] == before.pending@[j]@);
        }
        assert(after@.pending[i] == after.pending@[i]@);
        let q = after.pending@[i];
        let there = fetch_order(q.operation->fetch);
        assert(there == (there.0, there.1, there.2, there.3, there.4));
    }
}

/// A reader is told a size where a size was answered, and bytes where bytes were; nothing else,
/// and an answer that was dropped, tells it anything.
pub proof fn law_readers_are_told_what_was_answered(
    answer: Option<Result<Value, ()>>,
    size: Result<u64, ()>,
    bytes: Result<Vec<u8>, ()>,
)
    requires
        call_ensures(told_size, (answer,), size),
        call_ensures(told_bytes, (answer,), bytes),
    ensures
        answer matches Some(Ok(Value::Size(n))) ==> size == Ok::<u64, ()>(n) && bytes is Err,
        answer matches Some(Ok(Value::Bytes(b))) ==> bytes == Ok::<Vec<u8>, ()>(b) && size is Err,
        answer is None || answer == Some(Err::<Value, ()>(())) ==> size is Err && bytes is Err,
{
}

/// Pruning and failing take exactly the requests they are to take.
pub proof fn law_requests_are_dropped_by_number_or_generation<A>(
    pruned: &mut State<A>,
    gone: &[u32],
    failed: &mut State<A>,
    generation: u64,
)
    requires
        call_ensures(State::<A>::prune, (pruned, gone), ()),
        call_ensures(State::<A>::fail_pending, (failed, generation), ()),
    ensures
        requests_left(old(pruned).pending@, final(pruned).pending@, Seq::empty(), gone@),
        same_selections(*old(pruned), *final(pruned)),
        requests_left(old(failed).pending@, final(failed).pending@, seq![generation], Seq::empty()),
        same_selections(*old(failed), *final(failed)),
{
    lemma_requests_left(
        *old(pruned),
        *final(pruned),
        |p: PendingView<A>| !gone@.contains(p.id),
        Seq::empty(),
        gone@,
    );
    lemma_same_selections(*old(pruned), *final(pruned));
    assert(seq![generation][0] == generation);
    lemma_requests_left(
        *old(failed),
        *final(failed),
        |p: PendingView<A>| p.generation != generation,
        seq![generation],
        Seq::empty(),
    );
    lemma_same_selections(*old(failed), *final(failed));
}

/// The room that requests take is the sum of what each has kept.
pub proof fn law_room_is_the_sum_of_what_is_reserved<A>(state: State<A>, total: usize)
    requires
        call_ensures(State::<A>::reserved, (&state,), total),
        state.wf(),
    ensures
        total == room_taken(state.pending@),
        total <= 16 * 1024 * 1024,
        state.pending@.len() <= 64,
        state.retiring@.len() <= 4,
{
    lemma_room_taken(state.pending@);
    assert(state@.pending.len() == state.pending@.len());
    assert(state@.retiring.len() == state.retiring@.len());
}

/// A size is recorded for one file of the selection that serves under a generation, and for
/// nothing else: not for directories, nor for what is not in that selection.
pub proof fn law_a_size_is_recorded_where_it_belongs<A>(
    state: &mut State<A>,
    generation: u64,
    inode: u64,
    size: u64,
    stored: bool,
    selection: Selection,
)
    requires
        call_ensures(State::<A>::store_size, (state, generation, inode, size), stored),
        old(state).wf(),
    ensures
        serves(*old(state), generation, selection) ==> {
            let known = owned(selection.tree, inode) && selection.tree.nodes@[place(
                selection.tree,
                inode,
            )].kind is File;
            &&& stored <==> known
            &&& known ==> size_recorded(*old(state), *final(state), generation, inode, size)
            &&& !known ==> same_selections(*old(state), *final(state))
        },
        (forall|other: Selection| !#[trigger] serves(*old(state), generation, other)) ==> !stored
            && unchanged(*old(state), *final(state)),
        same_requests(old(state).pending@, final(state).pending@),
        final(state).next_stream == old(state).next_stream,
{
    let before = *old(state);
    let after = *final(state);
    lemma_same_requests(before, after);
    if forall|other: Selection| !#[trigger] serves(before, generation, other) {
        lemma_serves_none(before, generation);
        lemma_unchanged(before, after);
    }
    if serves(before, generation, selection) {
        lemma_node(before, generation, selection, inode);
        let f = StateView { pending: after@.pending, ..before@ };
        assert(f == before@);
        assert(selection.tree@.nodes.len() == selection.tree.nodes@.len());
        if owned(selection.tree, inode) {
            let k = place(selection.tree, inode);
            assert(selection.tree@.nodes[k] == selection.tree.nodes@[k]@);
        }
        if owned(selection.tree, inode) && selection.tree.nodes@[place(
            selection.tree,
            inode,
        )].kind is File {
            lemma_size_recorded(before, after, generation, inode, size, selection);
        } else {
            lemma_nothing_recorded(before, after, generation, inode, size, selection);
        }
    }
}

/// A request is found by its number, and giving it up takes that one alone.
pub proof fn law_a_request_goes_by_its_number<A>(
    state: State<A>,
    id: u32,
    index: Option<usize>,
    given_up: &mut State<A>,
    answer: Option<A>,
)
    requires
        call_ensures(State::<A>::pending_index, (&state, id), index),
        state.wf(),
        call_ensures(State::<A>::forget, (given_up, id), answer),
        old(given_up).wf(),
    ensures
        index matches Some(i) ==> i < state.pending@.len() && state.pending@[i as int].id == id,
        index is None ==> forall|i: int| #![trigger state.pending@[i]]
            0 <= i < state.pending@.len() ==> state.pending@[i].id != id,
        over(*old(given_up), *final(given_up), id),
        forall|i: int| #![trigger old(given_up).pending@[i]]
            0 <= i < old(given_up).pending@.len() && old(given_up).pending@[i].id == id ==> answer
                == Some(old(given_up).pending@[i].answer),
        answer is Some ==> exists|i: int| #![trigger old(given_up).pending@[i]]
            0 <= i < old(given_up).pending@.len() && old(given_up).pending@[i].id == id,
{
    assert(state@.pending.len() == state.pending@.len());
    if index is Some {
        assert(state@.pending[index->0 as int] == state.pending@[index->0 as int]@);
    } else {
        assert forall|i: int| #![trigger state.pending@[i]]
            0 <= i < state.pending@.len() implies state.pending@[i].id != id by {
            if state.pending@[i].id == id {
                lemma_at(state, id, i);
            }
        }
    }
    let before = *old(given_up);
    lemma_forgotten(before, *final(given_up), id);
    assert forall|i: int| #![trigger before.pending@[i]]
        0 <= i < before.pending@.len() && before.pending@[i].id == id implies answer == Some(
        before.pending@[i].answer,
    ) by {
        lemma_at(before, id, i);
    }
    if answer is Some {
        let i = before@.pending_index(id);
        assert(before@.pending_at(id, i));
        assert(before@.pending[i] == before.pending@[i]@);
    }
}

/// Whether the limits of a transfer are the same.
pub open spec fn limits_kept<A>(before: Transfer<A>, after: Transfer<A>) -> bool {
    after.max_entries == before.max_entries && after.max_chunk == before.max_chunk
}

/// The limits that a transfer was made with hold for good, whatever it is told.
pub proof fn law_limits_hold_for_good<A>(
    told: &mut Transfer<A>,
    stream: bool,
    huge: bool,
    ended: Vec<u64>,
    retired: &mut Transfer<A>,
    next: (Option<u64>, Vec<u64>),
    unlocked: &mut Transfer<A>,
    data_ids: &[u32],
    closed: &mut Transfer<A>,
    accepted: &mut Transfer<A>,
    generation: u64,
    files: &[FileDescriptor],
    data_id: Option<u32>,
    list: Option<(u64, Vec<String>, Vec<u64>)>,
    sized: &mut Transfer<A>,
    inode: u64,
    gone: &[u32],
    size: Result<SizeStep, ()>,
    answered: &mut Transfer<A>,
    response: FileContentsResponse,
    unwanted: bool,
    step: ResponseStep<A>,
    sent: &mut Transfer<A>,
    admission: Admission,
    answer: A,
    submitted: Result<(), ()>,
)
    requires
        call_ensures(Transfer::<A>::capabilities, (told, stream, huge), ended),
        call_ensures(Transfer::<A>::retire_generation, (retired,), next),
        call_ensures(Transfer::<A>::release_locks, (unlocked, data_ids), ended),
        call_ensures(Transfer::<A>::close, (closed,), ended),
        call_ensures(Transfer::<A>::accept_for, (accepted, generation, files, data_id), list),
        call_ensures(Transfer::<A>::size, (sized, generation, inode, gone), size),
        call_ensures(Transfer::<A>::on_response, (answered, response, unwanted), step),
        call_ensures(Transfer::<A>::submit, (sent, admission, answer, true), submitted),
    ensures
        limits_kept(*old(told), *final(told)),
        limits_kept(*old(retired), *final(retired)),
        limits_kept(*old(unlocked), *final(unlocked)),
        limits_kept(*old(closed), *final(closed)),
        limits_kept(*old(accepted), *final(accepted)),
        limits_kept(*old(sized), *final(sized)),
        limits_kept(*old(answered), *final(answered)),
        limits_kept(*old(sent), *final(sent)),
{
}

} // verus!
