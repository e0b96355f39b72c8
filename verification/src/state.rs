//! The selections that are being served, and the requests made for them.
//!
//! A selection survives being replaced. The lock held over the remote's file list is
//! what keeps its bytes available, so replacing the clipboard *retires* the old
//! selection instead of destroying it: its reads keep working, and only the lock's
//! release ends it.

use crate::fetch::fetch_view;
use crate::model::{
    covered, generations, position_of, reserved_total, OperationView, PendingView,
    SelectionView, StateView, MAX_BUFFERED, MAX_RETIRING,
};
use crate::preserve::{
    lemma_release_wf, lemma_remove_wf, lemma_retire_wf, lemma_shutdown_wf, lemma_with_size_wf,
};
use crate::tree::RemoteTree;
use ironrdp_cliprdr::chunked_fetch::ChunkedFetch;
use vstd::prelude::*;

verus! {

/// One announced file list, with the lock that keeps the remote's copy alive.
pub struct Selection {
    pub tree: RemoteTree,
    pub data_id: Option<u32>,
}

/// What a request was made for.
pub enum Operation {
    Size { inode: u64 },
    Range { base: u64, fetch: ChunkedFetch },
}

/// One unanswered request. The reader waits at `answer`, and learns that its read
/// failed when `answer` is dropped.
#[verifier::reject_recursive_types(A)]
pub struct Pending<A> {
    pub id: u32,
    pub generation: u64,
    pub operation: Operation,
    pub answer: A,
    pub reserved: usize,
}

#[verifier::reject_recursive_types(A)]
pub struct State<A> {
    pub generation: u64,
    pub closed: bool,
    /// Whether the remote serves file contents at all.
    pub stream: bool,
    /// Whether it serves files of four gigabytes and more.
    pub huge: bool,
    pub current: Selection,
    /// Superseded selections that still serve, by generation, oldest first.
    pub retiring: Vec<(u64, Selection)>,
    /// Where the next inode range begins. An inode is never used for two files.
    pub next_base: u64,
    /// The next stream number; none once they are spent.
    pub next_stream: Option<u32>,
    /// The unanswered requests of every selection, oldest first.
    pub pending: Vec<Pending<A>>,
}

impl View for Selection {
    type V = SelectionView;

    open spec fn view(&self) -> SelectionView {
        SelectionView { tree: self.tree@, data_id: self.data_id }
    }
}

impl View for Operation {
    type V = OperationView;

    open spec fn view(&self) -> OperationView {
        match *self {
            Operation::Size { inode } => OperationView::Size { inode },
            Operation::Range { base, fetch } => OperationView::Range {
                base,
                fetch: fetch_view(fetch),
            },
        }
    }
}

impl<A> View for Pending<A> {
    type V = PendingView<A>;

    open spec fn view(&self) -> PendingView<A> {
        PendingView {
            id: self.id,
            generation: self.generation,
            operation: self.operation@,
            answer: self.answer,
            reserved: self.reserved,
        }
    }
}

/// What a list of retired selections stands for.
pub open spec fn retiring_view(retiring: Seq<(u64, Selection)>) -> Seq<(u64, SelectionView)> {
    retiring.map_values(|r: (u64, Selection)| (r.0, r.1@))
}

/// What a list of requests stands for.
pub open spec fn pending_view<A>(pending: Seq<Pending<A>>) -> Seq<PendingView<A>> {
    pending.map_values(|p: Pending<A>| p@)
}

impl<A> View for State<A> {
    type V = StateView<A>;

    open spec fn view(&self) -> StateView<A> {
        StateView {
            generation: self.generation,
            closed: self.closed,
            stream: self.stream,
            huge: self.huge,
            current: self.current@,
            retiring: retiring_view(self.retiring@),
            next_base: self.next_base,
            next_stream: self.next_stream,
            pending: pending_view(self.pending@),
        }
    }
}

/// Whether `values` holds `value`.
pub fn contains_u64(values: &Vec<u64>, value: u64) -> (found: bool)
    ensures
        found == values@.contains(value),
{
    let mut i: usize = 0;
    while i < values.len()
        invariant
            i <= values.len(),
            forall|j: int| 0 <= j < i ==> values@[j] != value,
        decreases values.len() - i,
    {
        if values[i] == value {
            return true;
        }
        i = i + 1;
    }
    false
}

/// Whether `values` holds `value`.
pub fn contains_u32(values: &[u32], value: u32) -> (found: bool)
    ensures
        found == values@.contains(value),
{
    let mut i: usize = 0;
    while i < values.len()
        invariant
            i <= values.len(),
            forall|j: int| 0 <= j < i ==> values@[j] != value,
        decreases values.len() - i,
    {
        if values[i] == value {
            return true;
        }
        i = i + 1;
    }
    false
}

/// Drops the requests of the given selections, and those of the given numbers.
fn drop_requests<A>(pending: &mut Vec<Pending<A>>, ended: &Vec<u64>, gone: &[u32])
    ensures
        pending_view(final(pending)@) == pending_view(old(pending)@).filter(
            |p: PendingView<A>| !ended@.contains(p.generation) && !gone@.contains(p.id),
        ),
{
    let ghost all = pending_view(pending@);
    let ghost keep = |p: PendingView<A>|
        !ended@.contains(p.generation) && !gone@.contains(p.id);
    let ghost mut seen: int = 0;
    let mut i: usize = 0;
    assert(all.take(0).filter(keep) =~= Seq::empty()) by {
        reveal(Seq::filter);
    }
    assert(all.skip(0) =~= all);
    while i < pending.len()
        invariant
            0 <= i <= pending.len(),
            0 <= seen <= all.len(),
            all.len() - seen == pending.len() - i,
            keep == (|p: PendingView<A>|
                !ended@.contains(p.generation) && !gone@.contains(p.id)),
            pending_view(pending@).take(i as int) == all.take(seen).filter(keep),
            pending_view(pending@).skip(i as int) == all.skip(seen),
        decreases pending.len() - i,
    {
        let ghost before = pending_view(pending@);
        proof {
            assert(all.take(seen + 1).drop_last() =~= all.take(seen));
            assert(before.skip(i as int)[0] == all.skip(seen)[0]);
            assert(all.take(seen + 1).last() == before[i as int]);
            reveal(Seq::filter);
        }
        if contains_u64(ended, pending[i].generation) || contains_u32(gone, pending[i].id) {
            pending.remove(i);
            proof {
                let after = pending_view(pending@);
                assert(after =~= before.remove(i as int));
                assert(after.take(i as int) =~= before.take(i as int));
                assert(after.skip(i as int) =~= before.skip(i as int).drop_first());
                assert(all.skip(seen + 1) =~= all.skip(seen).drop_first());
                seen = seen + 1;
            }
        } else {
            i = i + 1;
            proof {
                assert(before.take(i as int) =~= before.take(i - 1).push(before[i - 1]));
                assert(before.skip(i as int) =~= before.skip(i - 1).drop_first());
                assert(all.skip(seen + 1) =~= all.skip(seen).drop_first());
                seen = seen + 1;
            }
        }
    }
    proof {
        assert(pending_view(pending@).take(i as int) =~= pending_view(pending@));
        assert(all.take(seen) =~= all);
    }
}

impl Selection {
    fn empty() -> (selection: Self)
        ensures
            selection@ == SelectionView::empty(),
    {
        Selection { tree: RemoteTree::empty(), data_id: None }
    }
}

impl<A> State<A> {
    pub open spec fn wf(&self) -> bool {
        self@.wf()
    }

    pub fn new() -> (state: Self)
        ensures
            state@ == StateView::<A>::initial(),
            state.wf(),
    {
        let state = State {
            generation: 0,
            closed: false,
            stream: false,
            huge: false,
            current: Selection::empty(),
            retiring: Vec::new(),
            next_base: 0,
            next_stream: Some(1),
            pending: Vec::new(),
        };
        proof {
            assert(state@ =~= StateView::<A>::initial());
            crate::preserve::lemma_initial_wf::<A>();
        }
        state
    }

    /// The selection that is advertised now.
    pub fn live(&self, generation: u64) -> (live: bool)
        ensures
            live == self@.live(generation),
    {
        !self.closed && self.stream && self.generation == generation
    }

    fn retiring_index(&self, generation: u64) -> (index: Option<usize>)
        ensures
            match index {
                Some(i) => self@.retiring_at(generation, i as int),
                None => !self@.is_retiring(generation),
            },
    {
        let mut i: usize = 0;
        while i < self.retiring.len()
            invariant
                i <= self.retiring.len(),
                forall|j: int| 0 <= j < i ==> !self@.retiring_at(generation, j),
            decreases self.retiring.len() - i,
        {
            if self.retiring[i].0 == generation {
                assert(self@.retiring_at(generation, i as int));
                return Some(i);
            }
            i = i + 1;
        }
        None
    }

    /// A selection that still answers: the live one, or one retired and not released.
    pub fn servable(&self, generation: u64) -> (servable: bool)
        ensures
            servable == self@.servable(generation),
    {
        !self.closed && self.stream && (self.generation == generation || self.retiring_index(
            generation,
        ).is_some())
    }

    /// A selection that still answers.
    pub fn selection(&self, generation: u64) -> (selection: Option<&Selection>)
        requires
            self.wf(),
        ensures
            match selection {
                Some(s) => self@.selection(generation) == Some(s@) && s.tree.wf(),
                None => self@.selection(generation) is None,
            },
    {
        if !self.closed && self.stream {
            if self.generation == generation {
                return Some(&self.current);
            }
            return match self.retiring_index(generation) {
                Some(i) => {
                    assert(self@.retiring[i as int].1 == self.retiring[i as int].1@);
                    Some(&self.retiring[i].1)
                },
                None => None,
            };
        }
        None
    }

    /// Records the size of a file in the selection that asked for it. False where the
    /// selection has ended or the inode is none of its files.
    pub fn store_size(&mut self, generation: u64, inode: u64, size: u64) -> (stored: bool)
        requires
            old(self).wf(),
        ensures
            final(self).wf(),
            stored == old(self)@.is_file(generation, inode),
            final(self)@ == old(self)@.with_size(generation, inode, size),
    {
        proof {
            lemma_with_size_wf(self@, generation, inode, size);
        }
        let ghost before = self@;
        if self.closed || !self.stream {
            return false;
        }
        if self.generation == generation {
            let stored = self.current.tree.set_size(inode, size);
            assert(self@ =~= before.with_size(generation, inode, size));
            return stored;
        }
        match self.retiring_index(generation) {
            None => false,
            Some(i) => {
                assert(before.retiring[i as int].1 == self.retiring[i as int].1@);
                assert(i as int == position_of(before.retiring, generation));
                let stored = self.retiring[i].1.tree.set_size(inode, size);
                assert(self@.retiring =~= before.with_size(generation, inode, size).retiring);
                stored
            },
        }
    }

    /// Drops the answers of one selection, so every waiting read fails at once.
    pub fn fail_pending(&mut self, generation: u64)
        ensures
            final(self)@ == old(self)@.fail_pending(generation),
    {
        let mut ended: Vec<u64> = Vec::new();
        ended.push(generation);
        let gone: Vec<u32> = Vec::new();
        let ghost before = self@;
        drop_requests(&mut self.pending, &ended, gone.as_slice());
        proof {
            let a = |p: PendingView<A>|
                !ended@.contains(p.generation) && !gone@.contains(p.id);
            let b = |p: PendingView<A>| p.generation != generation;
            assert(ended@[0] == generation);
            assert(a =~= b);
            assert(self@ =~= before.fail_pending(generation));
        }
    }

    fn take_current(&mut self) -> (selection: Selection)
        requires
            old(self)@.current.tree.wf(),
        ensures
            selection == old(self).current,
            final(self)@ == old(self)@.take_current(),
            final(self).pending == old(self).pending,
            final(self).retiring == old(self).retiring,
    {
        let base: u64 = self.current.tree.next_base();
        if base > self.next_base {
            self.next_base = base;
        }
        let mut selection = Selection::empty();
        core::mem::swap(&mut selection, &mut self.current);
        selection
    }

    fn bump(&mut self)
        ensures
            final(self)@ == old(self)@.bump(),
    {
        match self.generation.checked_add(1) {
            Some(next) => self.generation = next,
            None => self.closed = true,
        }
    }

    /// Supersedes the live selection without ending it, and reports every generation
    /// whose mount must now come down.
    ///
    /// A selection for which nothing was mounted ends at once, and so does one without
    /// a lock: nothing keeps the remote's copy alive to serve from.
    pub fn retire_current(&mut self) -> (released: Vec<u64>)
        requires
            old(self).wf(),
        ensures
            final(self).wf(),
            final(self)@ == old(self)@.retire_current(),
            released@ == old(self)@.retire_released(),
    {
        proof {
            lemma_retire_wf(self@);
        }
        let ghost before = self@;
        let superseded: u64 = self.generation;
        let selection = self.take_current();
        let mut released: Vec<u64> = Vec::new();
        if selection.tree.roots().is_empty() || selection.data_id.is_none() {
            self.fail_pending(superseded);
            released.push(superseded);
        } else {
            self.retiring.push((superseded, selection));
            assert(self@.retiring =~= before.retiring.push((superseded, before.current)));
            if self.retiring.len() > MAX_RETIRING {
                let ghost kept = self@;
                let (oldest, _) = self.retiring.remove(0);
                assert(self@.retiring =~= kept.retiring.drop_first());
                assert(oldest == kept.retiring[0].0);
                self.fail_pending(oldest);
                released.push(oldest);
                assert(self@ =~= kept.evict_oldest());
            }
        }
        self.bump();
        released
    }

    /// Ends every selection, live and retired. Dropping the answers wakes every reader.
    pub fn shutdown(&mut self) -> (released: Vec<u64>)
        requires
            old(self).wf(),
        ensures
            final(self).wf(),
            final(self)@ == old(self)@.shutdown(),
            released@ == old(self)@.shutdown_released(),
    {
        proof {
            lemma_shutdown_wf(self@);
        }
        let ghost before = self@;
        let mut released: Vec<u64> = Vec::new();
        let mut i: usize = 0;
        while i < self.retiring.len()
            invariant
                i <= self.retiring.len(),
                self@ == before,
                released@ == generations(before.retiring.take(i as int)),
            decreases self.retiring.len() - i,
        {
            released.push(self.retiring[i].0);
            i = i + 1;
            assert(generations(before.retiring.take(i as int)) =~= generations(
                before.retiring.take(i - 1),
            ).push(before.retiring[i - 1].0));
        }
        assert(before.retiring.take(i as int) =~= before.retiring);
        released.push(self.generation);
        self.retiring.clear();
        self.pending.clear();
        assert(self@ =~= StateView { retiring: Seq::empty(), pending: Seq::empty(), ..before });
        self.take_current();
        self.bump();
        released
    }

    /// Ends the retired selections that the given locks covered, and reports their
    /// generations.
    pub fn release_locks(&mut self, data_ids: &[u32]) -> (released: Vec<u64>)
        requires
            old(self).wf(),
        ensures
            final(self).wf(),
            final(self)@ == old(self)@.release_locks(data_ids@),
            released@ == old(self)@.lock_released(data_ids@),
    {
        proof {
            lemma_release_wf(self@, data_ids@);
        }
        let ghost before = self@;
        let ghost all = before.retiring;
        let ghost goes = |r: (u64, SelectionView)| covered(r.1, data_ids@);
        let ghost stays = |r: (u64, SelectionView)| !covered(r.1, data_ids@);
        let mut released: Vec<u64> = Vec::new();
        let mut i: usize = 0;
        let ghost mut seen: int = 0;
        proof {
            reveal(Seq::filter);
            assert(all.take(0).filter(stays) =~= Seq::empty());
            assert(generations(all.take(0).filter(goes)) =~= Seq::empty());
            assert(all.skip(0) =~= all);
            assert(self@ =~= StateView { retiring: self@.retiring, ..before });
        }
        while i < self.retiring.len()
            invariant
                0 <= i <= self.retiring.len(),
                0 <= seen <= all.len(),
                all == before.retiring,
                all.len() - seen == self.retiring.len() - i,
                goes == (|r: (u64, SelectionView)| covered(r.1, data_ids@)),
                stays == (|r: (u64, SelectionView)| !covered(r.1, data_ids@)),
                self@ == (StateView { retiring: self@.retiring, ..before }),
                released@ == generations(all.take(seen).filter(goes)),
                self@.retiring.take(i as int) == all.take(seen).filter(stays),
                self@.retiring.skip(i as int) == all.skip(seen),
            decreases self.retiring.len() - i,
        {
            let ghost view = self@.retiring;
            proof {
                assert(all.take(seen + 1).drop_last() =~= all.take(seen));
                assert(view.skip(i as int)[0] == all.skip(seen)[0]);
                assert(all.take(seen + 1).last() == view[i as int]);
                reveal(Seq::filter);
                assert(generations(all.take(seen).filter(goes).push(view[i as int]))
                    =~= generations(all.take(seen).filter(goes)).push(view[i as int].0));
            }
            let is_covered = match self.retiring[i].1.data_id {
                Some(data_id) => contains_u32(data_ids, data_id),
                None => false,
            };
            assert(is_covered == covered(view[i as int].1, data_ids@));
            if is_covered {
                let (generation, _) = self.retiring.remove(i);
                released.push(generation);
                proof {
                    assert(self@.retiring =~= view.remove(i as int));
                    assert(self@.retiring.take(i as int) =~= view.take(i as int));
                    assert(self@.retiring.skip(i as int) =~= view.skip(i as int).drop_first());
                    assert(all.skip(seen + 1) =~= all.skip(seen).drop_first());
                    assert(self@ =~= StateView { retiring: self@.retiring, ..before });
                    seen = seen + 1;
                }
            } else {
                i = i + 1;
                proof {
                    assert(view.take(i as int) =~= view.take(i - 1).push(view[i - 1]));
                    assert(view.skip(i as int) =~= view.skip(i - 1).drop_first());
                    assert(all.skip(seen + 1) =~= all.skip(seen).drop_first());
                    seen = seen + 1;
                }
            }
        }
        assert(self@.retiring.take(i as int) =~= self@.retiring);
        assert(all.take(seen) =~= all);
        let gone: Vec<u32> = Vec::new();
        drop_requests(&mut self.pending, &released, gone.as_slice());
        proof {
            let a = |p: PendingView<A>|
                !released@.contains(p.generation) && !gone@.contains(p.id);
            let b = |p: PendingView<A>| !released@.contains(p.generation);
            assert(a =~= b);
            assert(self@ =~= before.release_locks(data_ids@));
        }
        released
    }

    /// Drops the requests that nobody waits for any more.
    pub fn prune(&mut self, gone: &[u32])
        ensures
            final(self)@ == old(self)@.prune(gone@),
    {
        let ended: Vec<u64> = Vec::new();
        let ghost before = self@;
        drop_requests(&mut self.pending, &ended, gone);
        proof {
            let a = |p: PendingView<A>|
                !ended@.contains(p.generation) && !gone@.contains(p.id);
            let b = |p: PendingView<A>| !gone@.contains(p.id);
            assert(a =~= b);
            assert(self@ =~= before.prune(gone@));
        }
    }

    /// Where the request of the given number stands among the unanswered ones.
    pub fn pending_index(&self, id: u32) -> (index: Option<usize>)
        requires
            self.wf(),
        ensures
            match index {
                Some(i) => self@.pending_at(id, i as int) && i as int == self@.pending_index(id),
                None => !self@.is_pending(id),
            },
    {
        let mut i: usize = 0;
        while i < self.pending.len()
            invariant
                self.wf(),
                i <= self.pending.len(),
                forall|j: int| 0 <= j < i ==> !self@.pending_at(id, j),
            decreases self.pending.len() - i,
        {
            if self.pending[i].id == id {
                assert(self@.pending_at(id, i as int));
                return Some(i);
            }
            assert(self@.pending[i as int].id == self.pending[i as int].id);
            i = i + 1;
        }
        None
    }

    /// Takes back the answer of an unanswered request that is given up: its time ran
    /// out, or it could not be sent.
    pub fn forget(&mut self, id: u32) -> (answer: Option<A>)
        requires
            old(self).wf(),
        ensures
            final(self).wf(),
            final(self)@ == old(self)@.forget(id),
            answer == if old(self)@.is_pending(id) {
                Some(old(self)@.pending[old(self)@.pending_index(id)].answer)
            } else {
                None
            },
    {
        let ghost before = self@;
        match self.pending_index(id) {
            None => None,
            Some(i) => {
                proof {
                    lemma_remove_wf(self@, i as int);
                }
                let pending = self.pending.remove(i);
                assert(self@.pending =~= before.pending.remove(i as int));
                assert(self@ =~= before.forget(id));
                Some(pending.answer)
            },
        }
    }

    /// The bytes that the unanswered requests may bring in.
    pub fn reserved(&self) -> (total: usize)
        requires
            self.wf(),
        ensures
            total == reserved_total(self@.pending),
    {
        let ghost all = self@.pending;
        let mut total: usize = 0;
        let mut i: usize = 0;
        while i < self.pending.len()
            invariant
                self.wf(),
                all == self@.pending,
                i <= self.pending.len(),
                total == reserved_total(all.take(i as int)),
                total <= MAX_BUFFERED,
            decreases self.pending.len() - i,
        {
            proof {
                assert(all.take(i + 1).drop_last() =~= all.take(i as int));
                lemma_take_reserved(all, i + 1);
            }
            total = total + self.pending[i].reserved;
            i = i + 1;
        }
        assert(all.take(i as int) =~= all);
        total
    }
}

/// The first requests reserve no more than all of them.
proof fn lemma_take_reserved<A>(all: Seq<PendingView<A>>, n: int)
    requires
        0 <= n <= all.len(),
    ensures
        reserved_total(all.take(n)) <= reserved_total(all),
    decreases all.len(),
{
    if n == all.len() {
        assert(all.take(n) =~= all);
    } else {
        lemma_take_reserved(all.drop_last(), n);
        assert(all.drop_last().take(n) =~= all.take(n));
    }
}

} // verus!
