//! Every event keeps the transfer state well-formed.

use crate::model::{
    covered, reserved_total, PendingView, SelectionView, StateView, MAX_RETIRING,
};
use crate::tree::{
    kept_entries, lemma_root_inodes_owned, root_inodes, FileDescriptor, TreeView, FIRST_INODE,
};
use vstd::prelude::*;

verus! {

/// What a filter keeps stands in the order it stood in: the positions it came from rise.
pub proof fn lemma_filter_positions<T>(s: Seq<T>, keep: spec_fn(T) -> bool) -> (from: Seq<int>)
    ensures
        from.len() == s.filter(keep).len(),
        forall|i: int|
            #![trigger from[i]]
            0 <= i < from.len() ==> 0 <= from[i] < s.len() && s.filter(keep)[i] == s[from[i]]
                && keep(s[from[i]]),
        forall|i: int, j: int|
            #![trigger from[i], from[j]]
            0 <= i < j < from.len() ==> from[i] < from[j],
    decreases s.len(),
{
    reveal(Seq::filter);
    if s.len() == 0 {
        Seq::empty()
    } else {
        let before = lemma_filter_positions(s.drop_last(), keep);
        if keep(s.last()) {
            before.push(s.len() - 1)
        } else {
            before
        }
    }
}

/// Dropping requests frees what they had reserved.
pub proof fn lemma_filter_reserved<A>(
    s: Seq<PendingView<A>>,
    keep: spec_fn(PendingView<A>) -> bool,
)
    ensures
        reserved_total(s.filter(keep)) <= reserved_total(s),
        s.filter(keep).len() <= s.len(),
    decreases s.len(),
{
    reveal(Seq::filter);
    if s.len() > 0 {
        lemma_filter_reserved(s.drop_last(), keep);
        let before = s.drop_last().filter(keep);
        assert(before.push(s.last()).drop_last() =~= before);
    }
}

/// Removing one request frees what it had reserved.
pub proof fn lemma_remove_reserved<A>(s: Seq<PendingView<A>>, i: int)
    requires
        0 <= i < s.len(),
    ensures
        reserved_total(s.remove(i)) + s[i].reserved == reserved_total(s),
    decreases s.len(),
{
    if i == s.len() - 1 {
        assert(s.remove(i) =~= s.drop_last());
    } else {
        lemma_remove_reserved(s.drop_last(), i);
        assert(s.remove(i).drop_last() =~= s.drop_last().remove(i));
        assert(s.remove(i).last() == s.last());
    }
}

/// A request that reserves as much as the one whose place it takes changes no total.
pub proof fn lemma_update_reserved<A>(s: Seq<PendingView<A>>, i: int, p: PendingView<A>)
    requires
        0 <= i < s.len(),
        p.reserved == s[i].reserved,
    ensures
        reserved_total(s.update(i, p)) == reserved_total(s),
    decreases s.len(),
{
    if i == s.len() - 1 {
        assert(s.update(i, p).drop_last() =~= s.drop_last());
    } else {
        lemma_update_reserved(s.drop_last(), i, p);
        assert(s.update(i, p).drop_last() =~= s.drop_last().update(i, p));
    }
}

/// Any choice among the unanswered requests of selections that go on is in order.
pub proof fn lemma_filter_pending_wf<A>(
    s: StateView<A>,
    t: StateView<A>,
    keep: spec_fn(PendingView<A>) -> bool,
)
    requires
        s.pending_wf(),
        t.pending == s.pending.filter(keep),
        t.next_stream == s.next_stream,
        forall|p: PendingView<A>|
            s.pending.contains(p) && #[trigger] keep(p) ==> t.generation == p.generation
                || t.is_retiring(p.generation),
    ensures
        t.pending_wf(),
{
    let from = lemma_filter_positions(s.pending, keep);
    lemma_filter_reserved(s.pending, keep);
    assert forall|i: int| #![trigger t.pending[i]] 0 <= i < t.pending.len() implies {
        &&& t.pending[i].wf()
        &&& t.id_spent(t.pending[i].id)
        &&& t.generation == t.pending[i].generation || t.is_retiring(t.pending[i].generation)
    } by {
        let k = from[i];
        assert(t.pending[i] == s.pending[k]);
        assert(s.pending.contains(s.pending[k]));
        assert(keep(s.pending[k]));
    }
    assert forall|i: int, j: int|
        #![trigger t.pending[i], t.pending[j]]
        0 <= i < j < t.pending.len() implies t.pending[i].id < t.pending[j].id by {
        assert(from[i] < from[j]);
        assert(t.pending[i] == s.pending[from[i]]);
        assert(t.pending[j] == s.pending[from[j]]);
    }
}

/// The first state is well-formed.
pub proof fn lemma_initial_wf<A>()
    ensures
        StateView::<A>::initial().wf(),
{
    assert(reserved_total(StateView::<A>::initial().pending) == 0);
}

/// Superseding the live selection keeps the state well-formed.
pub proof fn lemma_retire_wf<A>(s: StateView<A>)
    requires
        s.wf(),
    ensures
        s.retire_current().wf(),
        s.retire_current().current == SelectionView::empty(),
{
    let taken = s.take_current();
    let t = s.retire_current();
    if !s.current.outlives_replacement() {
        let keep = |p: PendingView<A>| p.generation != s.generation;
        assert forall|p: PendingView<A>| s.pending.contains(p) && #[trigger] keep(p) implies
            t.generation == p.generation || t.is_retiring(p.generation) by {
            let k = choose|k: int| 0 <= k < s.pending.len() && s.pending[k] == p;
            assert(s.is_retiring(s.pending[k].generation));
            let i = choose|i: int| s.retiring_at(p.generation, i);
            assert(t.retiring_at(p.generation, i));
        }
        lemma_filter_pending_wf(s, t, keep);
    } else {
        // A selection with a root has a node, so it lies above those before it.
        assert(s.current.tree.owns(s.current.tree.roots[0]));
        let kept = s.retiring.push((s.generation, s.current));
        if kept.len() > MAX_RETIRING {
            let oldest = kept[0].0;
            let keep = |p: PendingView<A>| p.generation != oldest;
            assert(t.retiring == kept.drop_first());
            assert forall|p: PendingView<A>| s.pending.contains(p) && #[trigger] keep(p) implies
                t.generation == p.generation || t.is_retiring(p.generation) by {
                let k = choose|k: int| 0 <= k < s.pending.len() && s.pending[k] == p;
                assert(s.generation == s.pending[k].generation || s.is_retiring(
                    s.pending[k].generation,
                ));
                if s.generation == p.generation {
                    assert(t.retiring_at(p.generation, kept.len() - 2));
                } else {
                    let i = choose|i: int| s.retiring_at(p.generation, i);
                    assert(kept[i].0 == p.generation);
                    assert(t.retiring_at(p.generation, i - 1));
                }
            }
            lemma_filter_pending_wf(s, t, keep);
            assert forall|i: int| #![trigger t.retiring[i]] 0 <= i < t.retiring.len() implies
                t.retiring[i] == kept[i + 1] by {}
        } else {
            assert(t.retiring == kept);
            assert forall|i: int| #![trigger t.pending[i]] 0 <= i < t.pending.len() implies {
                &&& t.pending[i].wf()
                &&& t.id_spent(t.pending[i].id)
                &&& t.generation == t.pending[i].generation || t.is_retiring(
                    t.pending[i].generation,
                )
            } by {
                let g = t.pending[i].generation;
                assert(s.pending[i] == t.pending[i]);
                if s.generation == g {
                    assert(t.retiring_at(g, kept.len() - 1));
                } else {
                    let k = choose|k: int| s.retiring_at(g, k);
                    assert(t.retiring_at(g, k));
                }
            }
        }
    }
}

/// Ending every selection keeps the state well-formed.
pub proof fn lemma_shutdown_wf<A>(s: StateView<A>)
    requires
        s.wf(),
    ensures
        s.shutdown().wf(),
        s.close().wf(),
        forall|stream: bool, huge: bool| #[trigger] s.capabilities(stream, huge).wf(),
{
    assert(reserved_total(s.shutdown().pending) == 0);
    assert forall|stream: bool, huge: bool| #[trigger] s.capabilities(stream, huge).wf() by {
        let u = if s.stream != stream || s.huge != huge {
            s.shutdown()
        } else {
            s
        };
        let t = s.capabilities(stream, huge);
        assert forall|g: u64| u.is_retiring(g) implies #[trigger] t.is_retiring(g) by {
            let i = choose|i: int| u.retiring_at(g, i);
            assert(t.retiring_at(g, i));
        }
        assert forall|i: int| #![trigger t.pending[i]] 0 <= i < t.pending.len() implies {
            &&& t.pending[i].wf()
            &&& t.id_spent(t.pending[i].id)
            &&& t.generation == t.pending[i].generation || t.is_retiring(t.pending[i].generation)
        } by {
            assert(u.pending[i] == t.pending[i]);
        }
    }
}

/// Releasing locks keeps the state well-formed.
pub proof fn lemma_release_wf<A>(s: StateView<A>, data_ids: Seq<u32>)
    requires
        s.wf(),
    ensures
        s.release_locks(data_ids).wf(),
{
    let t = s.release_locks(data_ids);
    let released = s.lock_released(data_ids);
    let stays = |r: (u64, SelectionView)| !covered(r.1, data_ids);
    let goes = |r: (u64, SelectionView)| covered(r.1, data_ids);
    let from = lemma_filter_positions(s.retiring, stays);
    assert forall|i: int| #![trigger t.retiring[i]] 0 <= i < t.retiring.len() implies 0 <= from[i]
        < s.retiring.len() && t.retiring[i] == s.retiring[from[i]] by {}
    assert(t.retiring.len() <= s.retiring.len()) by {
        s.retiring.lemma_filter_len(stays);
    }
    let keep = |p: PendingView<A>| !released.contains(p.generation);
    assert forall|p: PendingView<A>| s.pending.contains(p) && #[trigger] keep(p) implies
        t.generation == p.generation || t.is_retiring(p.generation) by {
        let k = choose|k: int| 0 <= k < s.pending.len() && s.pending[k] == p;
        if s.generation != s.pending[k].generation {
            let i = choose|i: int| s.retiring_at(p.generation, i);
            let r = s.retiring[i];
            if goes(r) {
                s.retiring.lemma_filter_contains(goes, i);
                let gone = s.retiring.filter(goes);
                let j = choose|j: int| 0 <= j < gone.len() && gone[j] == r;
                assert(released[j] == p.generation);
            } else {
                assert(stays(r));
                s.retiring.lemma_filter_contains(stays, i);
                let j = choose|j: int| 0 <= j < t.retiring.len() && t.retiring[j] == r;
                assert(t.retiring_at(p.generation, j));
            }
        }
    }
    lemma_filter_pending_wf(s, t, keep);
}

/// A tree built above `base` is well-formed, and ends below the largest number.
pub proof fn lemma_built_wf(files: Seq<FileDescriptor>, max_entries: usize, base: u64)
    requires
        base + FIRST_INODE <= u64::MAX,
    ensures
        TreeView::built(files, max_entries, base).wf(),
        TreeView::built(files, max_entries, base).next_base() + FIRST_INODE <= u64::MAX,
{
    let n = kept_entries(files.len(), max_entries, base);
    lemma_root_inodes_owned(files, base, n);
    let tree = TreeView::built(files, max_entries, base);
    assert forall|i: int| 0 <= i < tree.roots.len() implies tree.owns(#[trigger] tree.roots[i]) by {
        assert(root_inodes(files, base, n)[i] == tree.roots[i]);
    }
}

/// Accepting a list keeps the state well-formed, where it is not closed by it.
pub proof fn lemma_accept_wf<A>(
    s: StateView<A>,
    files: Seq<FileDescriptor>,
    max_entries: usize,
    data_id: Option<u32>,
)
    requires
        s.wf(),
        !s.retire_current().closed,
    ensures
        s.accepted(files, max_entries, data_id).wf(),
{
    lemma_retire_wf(s);
    let r = s.retire_current();
    let t = s.accepted(files, max_entries, data_id);
    lemma_built_wf(files, max_entries, r.next_base);
    lemma_same_requests(r, t);
}

/// Requests stay in order where the selections go on under their generations.
pub proof fn lemma_same_requests<A>(s: StateView<A>, t: StateView<A>)
    requires
        s.pending_wf(),
        t.pending == s.pending,
        t.next_stream == s.next_stream || (forall|id: u32|
            s.id_spent(id) ==> #[trigger] t.id_spent(id)),
        t.generation == s.generation,
        t.retiring.len() == s.retiring.len(),
        forall|i: int|
            #![trigger t.retiring[i]]
            0 <= i < s.retiring.len() ==> t.retiring[i].0 == s.retiring[i].0,
    ensures
        t.pending_wf(),
{
    assert forall|i: int| #![trigger t.pending[i]] 0 <= i < t.pending.len() implies {
        &&& t.pending[i].wf()
        &&& t.id_spent(t.pending[i].id)
        &&& t.generation == t.pending[i].generation || t.is_retiring(t.pending[i].generation)
    } by {
        let g = s.pending[i].generation;
        assert(s.id_spent(s.pending[i].id));
        if s.generation != g {
            let k = choose|k: int| s.retiring_at(g, k);
            assert(t.retiring[k].0 == g);
            assert(t.retiring_at(g, k));
        }
    }
}

/// Pruning and handing out a stream number keep the state well-formed.
pub proof fn lemma_allocate_wf<A>(s: StateView<A>, gone: Seq<u32>, bytes: int)
    requires
        s.wf(),
    ensures
        s.prune(gone).wf(),
        s.after_allocate(gone, bytes).wf(),
{
    let p = s.prune(gone);
    let keep = |p: PendingView<A>| !gone.contains(p.id);
    assert forall|q: PendingView<A>| s.pending.contains(q) && #[trigger] keep(q) implies
        p.generation == q.generation || p.is_retiring(q.generation) by {
        let k = choose|k: int| 0 <= k < s.pending.len() && s.pending[k] == q;
        if s.generation != s.pending[k].generation {
            let i = choose|i: int| s.retiring_at(q.generation, i);
            assert(p.retiring_at(q.generation, i));
        }
    }
    lemma_filter_pending_wf(s, p, keep);
    if p.can_admit(bytes) {
        lemma_same_requests(p, p.allocated());
    }
}

/// A request that the state admits may join the others.
pub proof fn lemma_admit_wf<A>(s: StateView<A>, p: PendingView<A>)
    requires
        s.wf(),
        s.admits(p),
    ensures
        (StateView { pending: s.pending.push(p), ..s }).wf(),
{
    let t = StateView { pending: s.pending.push(p), ..s };
    assert(t.pending.drop_last() =~= s.pending);
    assert forall|g: u64| s.is_retiring(g) implies #[trigger] t.is_retiring(g) by {
        let i = choose|i: int| s.retiring_at(g, i);
        assert(t.retiring_at(g, i));
    }
    assert forall|i: int| #![trigger t.pending[i]] 0 <= i < t.pending.len() implies {
        &&& t.pending[i].wf()
        &&& t.id_spent(t.pending[i].id)
        &&& t.generation == t.pending[i].generation || t.is_retiring(t.pending[i].generation)
    } by {
        if i < s.pending.len() {
            assert(t.pending[i] == s.pending[i]);
        }
    }
}

/// Removing one request keeps the state well-formed.
pub proof fn lemma_remove_wf<A>(s: StateView<A>, i: int)
    requires
        s.wf(),
        0 <= i < s.pending.len(),
    ensures
        (StateView { pending: s.pending.remove(i), ..s }).wf(),
{
    let t = StateView { pending: s.pending.remove(i), ..s };
    lemma_remove_reserved(s.pending, i);
    assert forall|g: u64| s.is_retiring(g) implies #[trigger] t.is_retiring(g) by {
        let i = choose|i: int| s.retiring_at(g, i);
        assert(t.retiring_at(g, i));
    }
    assert forall|k: int| #![trigger t.pending[k]] 0 <= k < t.pending.len() implies t.pending[k]
        == s.pending[if k < i { k } else { k + 1 }] by {}
}

/// A request may be replaced by one of the same number, selection and size.
pub proof fn lemma_update_wf<A>(s: StateView<A>, i: int, p: PendingView<A>)
    requires
        s.wf(),
        0 <= i < s.pending.len(),
        p.wf(),
        p.id == s.pending[i].id,
        p.generation == s.pending[i].generation,
        p.reserved == s.pending[i].reserved,
    ensures
        (StateView { pending: s.pending.update(i, p), ..s }).wf(),
{
    let t = StateView { pending: s.pending.update(i, p), ..s };
    lemma_update_reserved(s.pending, i, p);
    assert forall|g: u64| s.is_retiring(g) implies #[trigger] t.is_retiring(g) by {
        let i = choose|i: int| s.retiring_at(g, i);
        assert(t.retiring_at(g, i));
    }
    assert forall|k: int| #![trigger t.pending[k]] 0 <= k < t.pending.len() implies {
        &&& t.pending[k].wf()
        &&& t.id_spent(t.pending[k].id)
        &&& t.generation == t.pending[k].generation || t.is_retiring(t.pending[k].generation)
    } by {
        assert(s.pending[k].id == t.pending[k].id);
    }
}

/// Recording a size keeps the state well-formed.
pub proof fn lemma_with_size_wf<A>(s: StateView<A>, generation: u64, inode: u64, size: u64)
    requires
        s.wf(),
    ensures
        s.with_size(generation, inode, size).wf(),
{
    let t = s.with_size(generation, inode, size);
    lemma_same_requests(s, t);
}

/// Any choice among the requests is fetched in the same chunks.
pub proof fn lemma_filter_chunks<A>(
    s: StateView<A>,
    t: StateView<A>,
    keep: spec_fn(PendingView<A>) -> bool,
    chunk: u32,
)
    requires
        s.in_chunks(chunk),
        t.pending == s.pending.filter(keep),
    ensures
        t.in_chunks(chunk),
{
    let from = lemma_filter_positions(s.pending, keep);
    assert forall|i: int| 0 <= i < t.pending.len() implies (#[trigger] t.pending[i]).in_chunks(
        chunk,
    ) by {
        assert(s.pending[from[i]].in_chunks(chunk));
    }
}

/// Superseding the live selection and releasing locks leave the chunks as they are.
pub proof fn lemma_selection_chunks<A>(s: StateView<A>, data_ids: Seq<u32>, chunk: u32)
    requires
        s.in_chunks(chunk),
    ensures
        s.retire_current().in_chunks(chunk),
        s.release_locks(data_ids).in_chunks(chunk),
{
    let t = s.retire_current();
    let kept = s.retiring.push((s.generation, s.current));
    if !s.current.outlives_replacement() {
        lemma_filter_chunks(s, t, |p: PendingView<A>| p.generation != s.generation, chunk);
    } else if kept.len() > MAX_RETIRING {
        lemma_filter_chunks(s, t, |p: PendingView<A>| p.generation != kept[0].0, chunk);
    } else {
        assert(t.pending == s.pending);
    }
    let released = s.lock_released(data_ids);
    lemma_filter_chunks(
        s,
        s.release_locks(data_ids),
        |p: PendingView<A>| !released.contains(p.generation),
        chunk,
    );
}

/// Asking for room, giving a request up and an answer leave the chunks as they are.
pub proof fn lemma_request_chunks<A>(
    s: StateView<A>,
    gone: Seq<u32>,
    bytes: int,
    id: u32,
    is_error: bool,
    data: Seq<u8>,
    unwanted: bool,
    chunk: u32,
)
    requires
        s.in_chunks(chunk),
    ensures
        s.prune(gone).in_chunks(chunk),
        s.after_allocate(gone, bytes).in_chunks(chunk),
        s.forget(id).in_chunks(chunk),
        s.responded(id, is_error, data, unwanted).in_chunks(chunk),
{
    lemma_filter_chunks(s, s.prune(gone), |p: PendingView<A>| !gone.contains(p.id), chunk);
    assert(s.after_allocate(gone, bytes).pending == s.prune(gone).pending);
    let f = s.forget(id);
    let k = s.pending_index(id);
    if s.is_pending(id) {
        assert(s.pending_at(id, k));
        assert forall|i: int| 0 <= i < f.pending.len() implies (#[trigger] f.pending[i]).in_chunks(
            chunk,
        ) by {
            assert(s.pending[if i < k { i } else { i + 1 }].in_chunks(chunk));
        }
        assert(s.pending[k].in_chunks(chunk));
    }
    let t = s.responded(id, is_error, data, unwanted);
    assert(t.pending == f.pending || (forall|i: int|
        0 <= i < t.pending.len() ==> (#[trigger] t.pending[i]).in_chunks(chunk)));
}

} // verus!
