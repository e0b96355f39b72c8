//! What a caller can rely on of the selections: which of them serve, and what ends them.

use crate::fetch::{fetch_asked, fetch_order, fetch_ready, fetch_received};
use crate::model::{covered, generations, PendingView, SelectionView, StateView};
use crate::preserve::lemma_filter_positions;
use crate::state::{Operation, Pending, Selection, State};
use crate::transfer::Transfer;
use crate::tree::{FileDescriptor, RemoteTree};
use crate::tree_laws::{lemma_same_tree, same_tree, tree_of_list};
use vstd::prelude::*;

verus! {

/// The same files under the same lock.
pub open spec fn same_selection(a: Selection, b: Selection) -> bool {
    a.data_id == b.data_id && same_tree(a.tree, b.tree)
}

/// The same thing asked for, and as much of it received.
pub open spec fn same_operation(a: Operation, b: Operation) -> bool {
    match (a, b) {
        (Operation::Size { inode: x }, Operation::Size { inode: y }) => x == y,
        (Operation::Range { base: x, fetch: f }, Operation::Range { base: y, fetch: g }) => {
            &&& x == y
            &&& fetch_received(f) == fetch_received(g)
            &&& fetch_order(f) == fetch_order(g)
            &&& fetch_ready(f) == fetch_ready(g)
            &&& fetch_asked(f) == fetch_asked(g)
        },
        _ => false,
    }
}

/// The same request, waited for by the same reader.
pub open spec fn same_request<A>(a: Pending<A>, b: Pending<A>) -> bool {
    &&& a.id == b.id
    &&& a.generation == b.generation
    &&& a.answer == b.answer
    &&& a.reserved == b.reserved
    &&& same_operation(a.operation, b.operation)
}

/// Whether a request of these is the given one.
pub open spec fn among<A>(requests: Seq<Pending<A>>, request: Pending<A>) -> bool {
    exists|j: int| 0 <= j < requests.len() && same_request(#[trigger] requests[j], request)
}

/// Whether the requests `after` are those `before` but for the ones of the ended selections
/// and those that are gone.
pub open spec fn requests_left<A>(
    before: Seq<Pending<A>>,
    after: Seq<Pending<A>>,
    ended: Seq<u64>,
    gone: Seq<u32>,
) -> bool {
    &&& forall|i: int| #![trigger before[i]]
        0 <= i < before.len() && !ended.contains(before[i].generation) && !gone.contains(
            before[i].id,
        ) ==> among(after, before[i])
    &&& forall|j: int| #![trigger after[j]]
        0 <= j < after.len() ==> {
            &&& !ended.contains(after[j].generation)
            &&& !gone.contains(after[j].id)
            &&& among(before, after[j])
        }
}

/// Whether nothing came of the requests.
pub open spec fn same_requests<A>(before: Seq<Pending<A>>, after: Seq<Pending<A>>) -> bool {
    &&& after.len() == before.len()
    &&& forall|i: int| #![trigger after[i]]
        0 <= i < before.len() ==> same_request(after[i], before[i])
}

/// Whether the selections are as they were.
pub open spec fn same_selections<A>(before: State<A>, after: State<A>) -> bool {
    &&& after.generation == before.generation
    &&& after.closed == before.closed
    &&& after.stream == before.stream
    &&& after.huge == before.huge
    &&& after.next_base == before.next_base
    &&& same_selection(after.current, before.current)
    &&& after.retiring@.len() == before.retiring@.len()
    &&& forall|i: int| #![trigger after.retiring@[i]]
        0 <= i < before.retiring@.len() ==> after.retiring@[i].0 == before.retiring@[i].0
            && same_selection(after.retiring@[i].1, before.retiring@[i].1)
}

/// What becomes of the selections when the live one is superseded.
///
/// One with a root or more and a lock goes on serving as the newest of the retired, with its
/// requests; a fifth makes the oldest of them end. Any other ends at once. Whatever ends is
/// reported and loses its requests, and nothing else does.
pub open spec fn superseded<A>(before: State<A>, after: State<A>, released: Seq<u64>) -> bool {
    let keeps = before.current.tree.roots@.len() >= 1 && before.current.data_id is Some;
    let n = before.retiring@.len() as int;
    &&& !keeps ==> {
        &&& released == seq![before.generation]
        &&& after.retiring@.len() == n
        &&& forall|i: int| #![trigger after.retiring@[i]]
            0 <= i < n ==> after.retiring@[i].0 == before.retiring@[i].0 && same_selection(
                after.retiring@[i].1,
                before.retiring@[i].1,
            )
        &&& requests_left(before.pending@, after.pending@, seq![before.generation], Seq::empty())
    }
    &&& keeps && n < 4 ==> {
        &&& released.len() == 0
        &&& after.retiring@.len() == n + 1
        &&& after.retiring@[n].0 == before.generation
        &&& same_selection(after.retiring@[n].1, before.current)
        &&& forall|i: int| #![trigger after.retiring@[i]]
            0 <= i < n ==> after.retiring@[i].0 == before.retiring@[i].0 && same_selection(
                after.retiring@[i].1,
                before.retiring@[i].1,
            )
        &&& same_requests(before.pending@, after.pending@)
    }
    &&& keeps && n >= 4 ==> {
        &&& released == seq![before.retiring@[0].0]
        &&& after.retiring@.len() == n
        &&& after.retiring@[n - 1].0 == before.generation
        &&& same_selection(after.retiring@[n - 1].1, before.current)
        &&& forall|i: int| #![trigger after.retiring@[i]]
            0 <= i < n - 1 ==> after.retiring@[i].0 == before.retiring@[i + 1].0 && same_selection(
                after.retiring@[i].1,
                before.retiring@[i + 1].1,
            )
        &&& requests_left(
            before.pending@,
            after.pending@,
            seq![before.retiring@[0].0],
            Seq::empty(),
        )
    }
    &&& after.stream == before.stream
    &&& after.huge == before.huge
    &&& after.next_stream == before.next_stream
    &&& before.generation < u64::MAX ==> after.generation == before.generation + 1 && after.closed
        == before.closed
    &&& before.generation == u64::MAX ==> after.generation == u64::MAX && after.closed
}

/// Whether every selection has ended, and every generation that might be mounted is reported.
pub open spec fn all_ended<A>(before: State<A>, after: State<A>, released: Seq<u64>) -> bool {
    &&& after.retiring@.len() == 0
    &&& after.pending@.len() == 0
    &&& after.current.tree.nodes@.len() == 0
    &&& after.current.tree.roots@.len() == 0
    &&& after.current.data_id is None
    &&& released.len() == before.retiring@.len() + 1
    &&& released[released.len() - 1] == before.generation
    &&& forall|i: int| #![trigger released[i]]
        0 <= i < before.retiring@.len() ==> released[i] == before.retiring@[i].0
    &&& after.next_stream == before.next_stream
    &&& after.next_base >= before.next_base
    &&& before.generation < u64::MAX ==> after.generation == before.generation + 1
    &&& before.generation == u64::MAX ==> after.closed
}

pub proof fn lemma_same_selection(a: Selection, b: Selection)
    requires
        a@ == b@,
    ensures
        same_selection(a, b),
{
    lemma_same_tree(a.tree, b.tree);
}

pub proof fn lemma_same_requests<A>(before: State<A>, after: State<A>)
    requires
        after@.pending == before@.pending,
    ensures
        same_requests(before.pending@, after.pending@),
        requests_left(before.pending@, after.pending@, Seq::empty(), Seq::empty()),
{
    assert(after@.pending.len() == after.pending@.len());
    assert(before@.pending.len() == before.pending@.len());
    assert forall|i: int| #![trigger after.pending@[i]] 0 <= i < before.pending@.len() implies
        same_request(after.pending@[i], before.pending@[i]) by {
        assert(after@.pending[i] == after.pending@[i]@);
        assert(before@.pending[i] == before.pending@[i]@);
    }
    assert forall|i: int| #![trigger before.pending@[i]] 0 <= i < before.pending@.len() implies among(
        after.pending@,
        before.pending@[i],
    ) by {
        assert(same_request(after.pending@[i], before.pending@[i]));
    }
    assert forall|i: int| #![trigger after.pending@[i]] 0 <= i < after.pending@.len() implies among(
        before.pending@,
        after.pending@[i],
    ) by {
        assert(same_request(before.pending@[i], after.pending@[i]));
    }
}

pub proof fn lemma_requests_left<A>(
    before: State<A>,
    after: State<A>,
    keep: spec_fn(PendingView<A>) -> bool,
    ended: Seq<u64>,
    gone: Seq<u32>,
)
    requires
        after@.pending == before@.pending.filter(keep),
        forall|p: PendingView<A>| #[trigger]
            keep(p) <==> !ended.contains(p.generation) && !gone.contains(p.id),
    ensures
        requests_left(before.pending@, after.pending@, ended, gone),
{
    let from = lemma_filter_positions(before@.pending, keep);
    assert(after@.pending.len() == after.pending@.len());
    assert(before@.pending.len() == before.pending@.len());
    assert forall|i: int| #![trigger before.pending@[i]]
        0 <= i < before.pending@.len() && !ended.contains(before.pending@[i].generation)
            && !gone.contains(before.pending@[i].id) implies among(
        after.pending@,
        before.pending@[i],
    ) by {
        assert(before@.pending[i] == before.pending@[i]@);
        assert(keep(before@.pending[i]));
        before@.pending.lemma_filter_contains(keep, i);
        let j = choose|j: int|
            0 <= j < after@.pending.len() && after@.pending[j] == before@.pending[i];
        assert(after@.pending[j] == after.pending@[j]@);
        assert(same_request(after.pending@[j], before.pending@[i]));
    }
    assert forall|j: int| #![trigger after.pending@[j]] 0 <= j < after.pending@.len() implies {
        &&& !ended.contains(after.pending@[j].generation)
        &&& !gone.contains(after.pending@[j].id)
        &&& among(before.pending@, after.pending@[j])
    } by {
        assert(after@.pending[j] == after.pending@[j]@);
        let i = from[j];
        assert(before@.pending[i] == before.pending@[i]@);
        assert(keep(before@.pending[i]));
        assert(same_request(before.pending@[i], after.pending@[j]));
    }
}

/// The selections at two places stand for the same.
proof fn lemma_retired_same<A>(before: State<A>, after: State<A>, i: int, j: int)
    requires
        0 <= i < before.retiring@.len(),
        0 <= j < after.retiring@.len(),
        after@.retiring[j] == before@.retiring[i],
    ensures
        after.retiring@[j].0 == before.retiring@[i].0,
        same_selection(after.retiring@[j].1, before.retiring@[i].1),
{
    assert(before@.retiring[i] == (before.retiring@[i].0, before.retiring@[i].1@));
    assert(after@.retiring[j] == (after.retiring@[j].0, after.retiring@[j].1@));
    lemma_same_selection(after.retiring@[j].1, before.retiring@[i].1);
}

pub proof fn lemma_same_selections<A>(before: State<A>, after: State<A>)
    requires
        after@ == (StateView {
            pending: after@.pending,
            next_stream: after@.next_stream,
            ..before@
        }),
    ensures
        same_selections(before, after),
{
    assert(before@.retiring.len() == before.retiring@.len());
    assert(after@.retiring.len() == after.retiring@.len());
    lemma_same_selection(after.current, before.current);
    assert forall|i: int| #![trigger after.retiring@[i]] 0 <= i < before.retiring@.len() implies
        after.retiring@[i].0 == before.retiring@[i].0 && same_selection(
        after.retiring@[i].1,
        before.retiring@[i].1,
    ) by {
        lemma_retired_same(before, after, i, i);
    }
}

pub proof fn lemma_superseded<A>(before: State<A>, after: State<A>)
    requires
        before.wf(),
        ({
            let r = before@.retire_current();
            &&& after@.retiring == r.retiring
            &&& after@.pending == r.pending
            &&& after@.generation == r.generation
            &&& after@.closed == r.closed
            &&& after@.stream == r.stream
            &&& after@.huge == r.huge
            &&& after@.next_stream == r.next_stream
        }),
    ensures
        superseded(before, after, before@.retire_released()),
{
    let s = before@;
    let n = before.retiring@.len() as int;
    assert(s.retiring.len() == n);
    assert(after@.retiring.len() == after.retiring@.len());
    assert(s.current.tree.roots == before.current.tree.roots@);
    let keeps = before.current.tree.roots@.len() >= 1 && before.current.data_id is Some;
    let kept = s.retiring.push((s.generation, s.current));
    if !keeps {
        let keep = |p: PendingView<A>| p.generation != s.generation;
        assert(seq![before.generation][0] == before.generation);
        lemma_requests_left(before, after, keep, seq![before.generation], Seq::empty());
        assert forall|i: int| #![trigger after.retiring@[i]] 0 <= i < n implies after.retiring@[i].0
            == before.retiring@[i].0 && same_selection(
            after.retiring@[i].1,
            before.retiring@[i].1,
        ) by {
            lemma_retired_same(before, after, i, i);
        }
    } else if n < 4 {
        lemma_same_requests(before, after);
        assert(after@.retiring == kept);
        assert(after@.retiring[n] == (after.retiring@[n].0, after.retiring@[n].1@));
        lemma_same_selection(after.retiring@[n].1, before.current);
        assert forall|i: int| #![trigger after.retiring@[i]] 0 <= i < n implies after.retiring@[i].0
            == before.retiring@[i].0 && same_selection(
            after.retiring@[i].1,
            before.retiring@[i].1,
        ) by {
            lemma_retired_same(before, after, i, i);
        }
    } else {
        let oldest = before.retiring@[0].0;
        assert(kept[0] == s.retiring[0]);
        assert(s.retiring[0] == (before.retiring@[0].0, before.retiring@[0].1@));
        assert(generations(kept)[0] == oldest);
        assert(after@.retiring == kept.drop_first());
        let keep = |p: PendingView<A>| p.generation != oldest;
        assert(seq![oldest][0] == oldest);
        assert(after@.pending == s.pending.filter(|p: PendingView<A>| p.generation != kept[0].0));
        lemma_requests_left(before, after, keep, seq![oldest], Seq::empty());
        assert(after@.retiring[n - 1] == (after.retiring@[n - 1].0, after.retiring@[n - 1].1@));
        lemma_same_selection(after.retiring@[n - 1].1, before.current);
        assert forall|i: int| #![trigger after.retiring@[i]] 0 <= i < n - 1 implies
            after.retiring@[i].0 == before.retiring@[i + 1].0 && same_selection(
            after.retiring@[i].1,
            before.retiring@[i + 1].1,
        ) by {
            lemma_retired_same(before, after, i + 1, i);
        }
    }
}

pub proof fn lemma_all_ended<A>(before: State<A>, after: State<A>)
    requires
        before.wf(),
        after@.retiring == before@.shutdown().retiring,
        after@.pending == before@.shutdown().pending,
        after@.current == before@.shutdown().current,
        after@.generation == before@.shutdown().generation,
        before@.shutdown().closed ==> after@.closed,
        after@.next_stream == before@.shutdown().next_stream,
        after@.next_base == before@.shutdown().next_base,
    ensures
        all_ended(before, after, before@.shutdown_released()),
{
    assert(after@.retiring.len() == after.retiring@.len());
    assert(after@.pending.len() == after.pending@.len());
    assert(before@.retiring.len() == before.retiring@.len());
    assert(after@.current.tree.nodes.len() == after.current.tree.nodes@.len());
    assert(after@.current.tree.roots == after.current.tree.roots@);
    let released = before@.shutdown_released();
    assert forall|i: int| #![trigger released[i]] 0 <= i < before.retiring@.len() implies released[i]
        == before.retiring@[i].0 by {
        assert(before@.retiring[i] == (before.retiring@[i].0, before.retiring@[i].1@));
    }
}

/// A superseded selection goes on serving if it has a root or more and a lock, and ends if not.
pub proof fn law_superseding_spares_what_a_lock_keeps<A>(state: &mut State<A>, released: Vec<u64>)
    requires
        call_ensures(State::<A>::retire_current, (state,), released),
        old(state).wf(),
    ensures
        superseded(*old(state), *final(state), released@),
        final(state).current.tree.nodes@.len() == 0,
        final(state).current.tree.roots@.len() == 0,
        final(state).current.data_id is None,
        final(state).next_base >= old(state).next_base,
        final(state).next_base >= old(state).current.tree.base
            + old(state).current.tree.nodes@.len(),
{
    lemma_superseded(*old(state), *final(state));
    assert(final(state)@.current.tree.nodes.len() == final(state).current.tree.nodes@.len());
    assert(final(state)@.current.tree.roots == final(state).current.tree.roots@);
    assert(old(state)@.current.tree.nodes.len() == old(state).current.tree.nodes@.len());
}

/// The same of a transfer, which hands back the generation that is advertised from now on.
pub proof fn law_retiring_a_generation_supersedes_it<A>(
    transfer: &mut Transfer<A>,
    result: (Option<u64>, Vec<u64>),
)
    requires
        call_ensures(Transfer::<A>::retire_generation, (transfer,), result),
        old(transfer).wf(),
    ensures
        superseded(old(transfer).state, final(transfer).state, result.1@),
        result.0 == if !final(transfer).state.closed && final(transfer).state.stream {
            Some(final(transfer).state.generation)
        } else {
            None
        },
        final(transfer).max_entries == old(transfer).max_entries,
        final(transfer).max_chunk == old(transfer).max_chunk,
{
    lemma_superseded(old(transfer).state, final(transfer).state);
}

/// A list is taken over exactly while the expected generation is the advertised one and another
/// is to be had. The list then serves under the lock that came with it, from inodes that no
/// list before it had, and the selection before it is superseded.
pub proof fn law_an_accepted_list_serves_under_its_lock<A>(
    transfer: &mut Transfer<A>,
    expected: u64,
    files: &[FileDescriptor],
    data_id: Option<u32>,
    accepted: Option<(u64, Vec<String>, Vec<u64>)>,
)
    requires
        call_ensures(Transfer::<A>::accept_for, (transfer, expected, files, data_id), accepted),
        old(transfer).wf(),
    ensures
        ({
            let before = old(transfer).state;
            let after = final(transfer).state;
            &&& accepted is Some <==> !before.closed && before.stream && before.generation
                == expected && expected < u64::MAX
            &&& accepted matches Some((generation, names, released)) ==> {
                &&& superseded(before, after, released@)
                &&& generation == before.generation + 1
                &&& after.generation == generation
                &&& after.current.data_id == data_id
                &&& tree_of_list(after.current.tree, files@, old(transfer).max_entries)
                &&& after.current.tree.base >= before.next_base
                &&& after.current.tree.base >= before.current.tree.base
                    + before.current.tree.nodes@.len()
                &&& after.next_base == after.current.tree.base + after.current.tree.nodes@.len()
                &&& names@.len() == after.current.tree.roots@.len()
                &&& forall|i: int| #![trigger names@[i]]
                    0 <= i < names@.len() ==> names@[i]@ == after.current.tree.nodes@[
                    after.current.tree.roots@[i] - after.current.tree.base - 2].name@
            }
            &&& accepted is None && !(!before.closed && before.stream && before.generation
                == expected) ==> same_selections(before, after) && same_requests(
                before.pending@,
                after.pending@,
            )
            &&& final(transfer).max_entries == old(transfer).max_entries
            &&& final(transfer).max_chunk == old(transfer).max_chunk
        }),
{
    let before = old(transfer).state;
    let after = final(transfer).state;
    if accepted is Some {
        lemma_superseded(before, after);
        let (_, names, _) = accepted->0;
        let tree = after.current.tree;
        let base = before@.retire_current().next_base;
        crate::preserve::lemma_retire_wf(before@);
        crate::tree_laws::lemma_built_is_of_list(tree, files@, old(transfer).max_entries, base);
        assert(before@.current.tree.nodes.len() == before.current.tree.nodes@.len());
        assert(after@.current.tree == tree@);
        assert(tree@.nodes.len() == tree.nodes@.len());
        assert(tree@.roots == tree.roots@);
        let views = names@.map_values(|n: String| n@);
        assert(views.len() == names@.len());
        assert forall|i: int| #![trigger names@[i]] 0 <= i < names@.len() implies names@[i]@
            == tree.nodes@[tree.roots@[i] - tree.base - 2].name@ by {
            assert(views[i] == names@[i]@);
            assert(tree@.owns(tree@.roots[i]));
            let k = tree.roots@[i] - tree.base - 2;
            assert(tree@.nodes[k] == tree.nodes@[k]@);
        }
    } else if !(!before.closed && before.stream && before.generation == expected) {
        lemma_same_selections(before, after);
        lemma_same_requests(before, after);
    }
}

/// What the release of locks comes to: the retired selections under them end, with their
/// requests, and are reported; all else stays as it was.
pub open spec fn locks_released<A>(
    before: State<A>,
    after: State<A>,
    data_ids: Seq<u32>,
    released: Seq<u64>,
) -> bool {
    &&& forall|i: int| #![trigger before.retiring@[i]]
        0 <= i < before.retiring@.len() ==> {
            let (generation, selection) = before.retiring@[i];
            if selection.data_id is Some && data_ids.contains(selection.data_id->0) {
                &&& released.contains(generation)
                &&& forall|j: int| #![trigger after.retiring@[j]]
                    0 <= j < after.retiring@.len() ==> after.retiring@[j].0 != generation
            } else {
                &&& !released.contains(generation)
                &&& exists|j: int| #![trigger after.retiring@[j]]
                    0 <= j < after.retiring@.len() && after.retiring@[j].0 == generation
                        && same_selection(after.retiring@[j].1, selection)
            }
        }
    &&& forall|j: int| #![trigger after.retiring@[j]]
        0 <= j < after.retiring@.len() ==> exists|i: int| #![trigger before.retiring@[i]]
            0 <= i < before.retiring@.len() && before.retiring@[i].0 == after.retiring@[j].0
    &&& forall|k: int| #![trigger released[k]]
        0 <= k < released.len() ==> exists|i: int| #![trigger before.retiring@[i]]
            0 <= i < before.retiring@.len() && before.retiring@[i].0 == released[k]
    &&& requests_left(before.pending@, after.pending@, released, Seq::empty())
    &&& after.generation == before.generation
    &&& after.closed == before.closed
    &&& after.stream == before.stream
    &&& after.huge == before.huge
    &&& after.next_base == before.next_base
    &&& after.next_stream == before.next_stream
    &&& same_selection(after.current, before.current)
}

pub proof fn lemma_locks_released<A>(before: State<A>, after: State<A>, data_ids: Seq<u32>)
    requires
        before.wf(),
        after@ == before@.release_locks(data_ids),
    ensures
        locks_released(before, after, data_ids, before@.lock_released(data_ids)),
{
    let s = before@;
    let t = after@;
    let released = s.lock_released(data_ids);
    assert(s.retiring.len() == before.retiring@.len());
    assert(t.retiring.len() == after.retiring@.len());
    let goes = |r: (u64, SelectionView)| covered(r.1, data_ids);
    let stays = |r: (u64, SelectionView)| !covered(r.1, data_ids);
    let gone = s.retiring.filter(goes);
    let from = lemma_filter_positions(s.retiring, goes);
    let kept = lemma_filter_positions(s.retiring, stays);
    assert forall|i: int, m: int|
        0 <= i < s.retiring.len() && 0 <= m < s.retiring.len() && s.retiring[i].0
            == s.retiring[m].0 implies i == m by {
        if i < m {
            assert(s.retiring[i].0 < s.retiring[m].0);
        } else if m < i {
            assert(s.retiring[m].0 < s.retiring[i].0);
        }
    }
    assert forall|i: int| #![trigger before.retiring@[i]] 0 <= i < before.retiring@.len() implies {
        let (generation, selection) = before.retiring@[i];
        if selection.data_id is Some && data_ids.contains(selection.data_id->0) {
            &&& released.contains(generation)
            &&& forall|j: int| #![trigger after.retiring@[j]]
                0 <= j < after.retiring@.len() ==> after.retiring@[j].0 != generation
        } else {
            &&& !released.contains(generation)
            &&& exists|j: int| #![trigger after.retiring@[j]]
                0 <= j < after.retiring@.len() && after.retiring@[j].0 == generation
                    && same_selection(after.retiring@[j].1, selection)
        }
    } by {
        let (generation, selection) = before.retiring@[i];
        assert(s.retiring[i] == (generation, selection@));
        if selection.data_id is Some && data_ids.contains(selection.data_id->0) {
            assert(goes(s.retiring[i]));
            s.retiring.lemma_filter_contains(goes, i);
            let j = choose|j: int| 0 <= j < gone.len() && gone[j] == s.retiring[i];
            assert(released[j] == generation);
            assert forall|j: int| #![trigger after.retiring@[j]]
                0 <= j < after.retiring@.len() implies after.retiring@[j].0 != generation by {
                assert(t.retiring[j] == (after.retiring@[j].0, after.retiring@[j].1@));
                let m = kept[j];
                assert(stays(s.retiring[m]));
                if after.retiring@[j].0 == generation {
                    assert(m == i);
                }
            }
        } else {
            if released.contains(generation) {
                let j = choose|j: int| 0 <= j < released.len() && released[j] == generation;
                let m = from[j];
                assert(goes(s.retiring[m]));
                assert(m == i);
            }
            assert(stays(s.retiring[i]));
            s.retiring.lemma_filter_contains(stays, i);
            let j = choose|j: int| 0 <= j < t.retiring.len() && t.retiring[j] == s.retiring[i];
            lemma_retired_same(before, after, i, j);
        }
    }
    assert forall|j: int| #![trigger after.retiring@[j]] 0 <= j < after.retiring@.len() implies
        exists|i: int| #![trigger before.retiring@[i]]
            0 <= i < before.retiring@.len() && before.retiring@[i].0 == after.retiring@[j].0 by {
        lemma_retired_same(before, after, kept[j], j);
    }
    assert forall|k: int| #![trigger released[k]] 0 <= k < released.len() implies exists|i: int|
        #![trigger before.retiring@[i]]
        0 <= i < before.retiring@.len() && before.retiring@[i].0 == released[k] by {
        let i = from[k];
        assert(s.retiring[i] == (before.retiring@[i].0, before.retiring@[i].1@));
        assert(released[k] == gone[k].0);
    }
    let keep = |p: PendingView<A>| !released.contains(p.generation);
    lemma_requests_left(before, after, keep, released, Seq::empty());
    lemma_same_selection(after.current, before.current);
}

/// The release of a lock ends exactly the retired selections under it.
pub proof fn law_releasing_locks_ends_what_they_kept<A>(
    transfer: &mut Transfer<A>,
    data_ids: &[u32],
    released: Vec<u64>,
)
    requires
        call_ensures(Transfer::<A>::release_locks, (transfer, data_ids), released),
        old(transfer).wf(),
    ensures
        locks_released(old(transfer).state, final(transfer).state, data_ids@, released@),
{
    lemma_locks_released(old(transfer).state, final(transfer).state, data_ids@);
}

/// The same of the state alone.
pub proof fn law_the_state_releases_what_locks_kept<A>(
    state: &mut State<A>,
    data_ids: &[u32],
    released: Vec<u64>,
)
    requires
        call_ensures(State::<A>::release_locks, (state, data_ids), released),
        old(state).wf(),
    ensures
        locks_released(*old(state), *final(state), data_ids@, released@),
{
    lemma_locks_released(*old(state), *final(state), data_ids@);
}

/// Ending all selections ends every one of them, live and retired, with all requests.
pub proof fn law_shutting_down_ends_everything<A>(state: &mut State<A>, released: Vec<u64>)
    requires
        call_ensures(State::<A>::shutdown, (state,), released),
        old(state).wf(),
    ensures
        all_ended(*old(state), *final(state), released@),
        final(state).stream == old(state).stream,
        final(state).huge == old(state).huge,
{
    lemma_all_ended(*old(state), *final(state));
}

/// Closing ends everything, and nothing is served afterwards.
pub proof fn law_closing_ends_everything<A>(transfer: &mut Transfer<A>, released: Vec<u64>)
    requires
        call_ensures(Transfer::<A>::close, (transfer,), released),
        old(transfer).wf(),
    ensures
        all_ended(old(transfer).state, final(transfer).state, released@),
        final(transfer).state.closed,
{
    lemma_all_ended(old(transfer).state, final(transfer).state);
}

/// What the remote can do is taken over; a change of it ends everything, and no change
/// nothing.
pub proof fn law_capabilities_are_taken_over<A>(
    transfer: &mut Transfer<A>,
    stream: bool,
    huge: bool,
    released: Vec<u64>,
)
    requires
        call_ensures(Transfer::<A>::capabilities, (transfer, stream, huge), released),
        old(transfer).wf(),
    ensures
        final(transfer).state.stream == stream,
        final(transfer).state.huge == huge,
        old(transfer).state.closed ==> final(transfer).state.closed,
        if old(transfer).state.stream == stream && old(transfer).state.huge == huge {
            &&& released@.len() == 0
            &&& same_selections(old(transfer).state, final(transfer).state)
            &&& same_requests(old(transfer).state.pending@, final(transfer).state.pending@)
        } else {
            all_ended(old(transfer).state, final(transfer).state, released@)
        },
{
    if old(transfer).state.stream == stream && old(transfer).state.huge == huge {
        lemma_same_selections(old(transfer).state, final(transfer).state);
        lemma_same_requests(old(transfer).state, final(transfer).state);
    } else {
        lemma_all_ended(old(transfer).state, final(transfer).state);
    }
}

/// Whether `selection` is the one that serves under a generation.
pub open spec fn serves<A>(state: State<A>, generation: u64, selection: Selection) -> bool {
    &&& !state.closed
    &&& state.stream
    &&& {
        ||| generation == state.generation && selection == state.current
        ||| generation != state.generation && exists|i: int|
            0 <= i < state.retiring@.len() && #[trigger] state.retiring@[i] == (
                generation,
                selection,
            )
    }
}

/// The selection that serves is the one that the model finds.
pub proof fn lemma_serves<A>(state: State<A>, generation: u64, selection: Selection)
    requires
        state.wf(),
        serves(state, generation, selection),
    ensures
        state@.selection(generation) == Some(selection@),
        state@.servable(generation),
{
    assert(state@.retiring.len() == state.retiring@.len());
    if generation != state.generation {
        let i = choose|i: int|
            0 <= i < state.retiring@.len() && #[trigger] state.retiring@[i] == (
                generation,
                selection,
            );
        assert(state@.retiring[i] == (generation, selection@));
        assert(state@.retiring_at(generation, i));
        let k = crate::model::position_of(state@.retiring, generation);
        assert(0 <= k < state@.retiring.len() && state@.retiring[k].0 == generation);
        if i < k {
            assert(state@.retiring[i].0 < state@.retiring[k].0);
        } else if k < i {
            assert(state@.retiring[k].0 < state@.retiring[i].0);
        }
    }
}

/// Where the model finds no selection, none serves, and the other way round.
pub proof fn lemma_serves_none<A>(state: State<A>, generation: u64)
    requires
        state.wf(),
        forall|selection: Selection| !#[trigger] serves(state, generation, selection),
    ensures
        state@.selection(generation) is None,
        !state@.servable(generation),
{
    if state@.servable(generation) {
        if state.generation == generation {
            assert(serves(state, generation, state.current));
        } else {
            let i = choose|i: int| state@.retiring_at(generation, i);
            assert(state@.retiring[i] == (state.retiring@[i].0, state.retiring@[i].1@));
            assert(state.retiring@[i] == (generation, state.retiring@[i].1));
            assert(serves(state, generation, state.retiring@[i].1));
        }
    }
}

/// The files that can be looked at under a generation are those of the selection that serves
/// under it, and only the live one's are looked at as the advertised ones.
pub proof fn law_a_generation_shows_its_own_files<A>(
    transfer: Transfer<A>,
    generation: u64,
    shown: Option<&RemoteTree>,
    live: Option<&RemoteTree>,
    advertised: Option<u64>,
    enabled: bool,
)
    requires
        call_ensures(Transfer::<A>::tree, (&transfer, generation), shown),
        call_ensures(Transfer::<A>::live_tree, (&transfer, generation), live),
        call_ensures(Transfer::<A>::generation, (&transfer,), advertised),
        call_ensures(Transfer::<A>::enabled, (&transfer,), enabled),
        transfer.wf(),
    ensures
        forall|selection: Selection| #[trigger]
            serves(transfer.state, generation, selection) ==> shown is Some && same_tree(
                *shown->0,
                selection.tree,
            ),
        shown is Some ==> exists|selection: Selection| #[trigger]
            serves(transfer.state, generation, selection),
        live is Some <==> !transfer.state.closed && transfer.state.stream
            && transfer.state.generation == generation,
        live matches Some(tree) ==> same_tree(*tree, transfer.state.current.tree),
        enabled <==> !transfer.state.closed && transfer.state.stream,
        advertised == if !transfer.state.closed && transfer.state.stream {
            Some(transfer.state.generation)
        } else {
            None
        },
{
    let state = transfer.state;
    assert forall|selection: Selection| #[trigger]
        serves(state, generation, selection) implies shown is Some && same_tree(
        *shown->0,
        selection.tree,
    ) by {
        lemma_serves(state, generation, selection);
        lemma_same_tree(*shown->0, selection.tree);
    }
    if shown is Some && forall|selection: Selection| !#[trigger] serves(
        state,
        generation,
        selection,
    ) {
        lemma_serves_none(state, generation);
    }
    if live is Some {
        lemma_same_tree(*live->0, state.current.tree);
    }
}

/// The same of the state alone.
pub proof fn law_the_state_knows_what_serves<A>(
    state: State<A>,
    generation: u64,
    live: bool,
    servable: bool,
    found: Option<&Selection>,
)
    requires
        call_ensures(State::<A>::live, (&state, generation), live),
        call_ensures(State::<A>::servable, (&state, generation), servable),
        call_ensures(State::<A>::selection, (&state, generation), found),
        state.wf(),
    ensures
        live <==> !state.closed && state.stream && state.generation == generation,
        servable <==> exists|selection: Selection| #[trigger]
            serves(state, generation, selection),
        found is Some <==> servable,
        forall|selection: Selection| #[trigger]
            serves(state, generation, selection) ==> found is Some && same_selection(
                *found->0,
                selection,
            ),
{
    assert forall|selection: Selection| #[trigger]
        serves(state, generation, selection) implies found is Some && same_selection(
        *found->0,
        selection,
    ) by {
        lemma_serves(state, generation, selection);
        lemma_same_selection(*found->0, selection);
    }
    if forall|selection: Selection| !#[trigger] serves(state, generation, selection) {
        lemma_serves_none(state, generation);
    } else {
        let selection = choose|selection: Selection| #[trigger]
            serves(state, generation, selection);
        lemma_serves(state, generation, selection);
    }
}

/// A transfer begins with nothing served, nothing asked for, and the limits it was given.
pub proof fn law_a_transfer_begins_empty<A>(
    max_entries: usize,
    max_chunk: u32,
    transfer: Transfer<A>,
)
    requires
        call_ensures(Transfer::<A>::new, (max_entries, max_chunk), transfer),
    ensures
        transfer.wf(),
        transfer.max_entries == max_entries,
        max_chunk > 0 ==> transfer.max_chunk == max_chunk,
        max_chunk == 0 ==> transfer.max_chunk == 1,
        transfer.state.generation == 0,
        !transfer.state.closed && !transfer.state.stream && !transfer.state.huge,
        transfer.state.next_stream == Some(1u32),
        transfer.state.next_base == 0,
        transfer.state.pending@.len() == 0,
        transfer.state.retiring@.len() == 0,
        transfer.state.current.tree.nodes@.len() == 0,
        transfer.state.current.data_id is None,
{
    let s = transfer.state@;
    assert(s.pending.len() == transfer.state.pending@.len());
    assert(s.retiring.len() == transfer.state.retiring@.len());
    assert(s.current.tree.nodes.len() == transfer.state.current.tree.nodes@.len());
}

/// The same of a state by itself.
pub proof fn law_a_state_begins_empty<A>(state: State<A>)
    requires
        call_ensures(State::<A>::new, (), state),
    ensures
        state.generation == 0,
        !state.closed && !state.stream && !state.huge,
        state.next_stream == Some(1u32),
        state.next_base == 0,
        state.pending@.len() == 0,
        state.retiring@.len() == 0,
        state.current.tree.nodes@.len() == 0,
        state.current.data_id is None,
{
    let s = state@;
    assert(s.pending.len() == state.pending@.len());
    assert(s.retiring.len() == state.retiring@.len());
    assert(s.current.tree.nodes.len() == state.current.tree.nodes@.len());
}

} // verus!
