//! What the transfer state promises as a whole.

use crate::model::{
    covered, generations, position_of, reserved_total, Lookup, OperationView, Outcome, PendingView,
    ReadPlan, SelectionView, StateView, MAX_BUFFERED, MAX_PENDING, MAX_READ, MAX_RETIRING,
};
use crate::preserve::{lemma_filter_positions, lemma_remove_wf, lemma_retire_wf, lemma_with_size_wf};
use crate::tree::{FileDescriptor, FIRST_INODE};
use vstd::prelude::*;

verus! {

/// However many selections are alive, the requests and the bytes they may bring in stay
/// within one budget, and few superseded selections serve.
pub proof fn law_budgets<A>(s: StateView<A>)
    requires
        s.wf(),
    ensures
        s.pending.len() <= MAX_PENDING,
        reserved_total(s.pending) <= MAX_BUFFERED,
        s.retiring.len() <= MAX_RETIRING,
{
}

/// In a well-formed state the selection of a retired generation is the one that stands
/// where it is found.
proof fn lemma_found<A>(s: StateView<A>, generation: u64, i: int)
    requires
        s.retiring_wf(),
        s.retiring_at(generation, i),
    ensures
        position_of(s.retiring, generation) == i,
        s.is_retiring(generation),
{
    let k = position_of(s.retiring, generation);
    assert(s.retiring[i].0 == generation);
    assert(0 <= k < s.retiring.len() && s.retiring[k].0 == generation);
    if k < i {
        assert(s.retiring[k].0 < s.retiring[i].0);
    } else if i < k {
        assert(s.retiring[i].0 < s.retiring[k].0);
    }
}

/// No inode belongs to the files of two selections that serve at once.
pub proof fn law_inodes_not_shared<A>(s: StateView<A>, a: u64, b: u64, inode: u64)
    requires
        s.wf(),
        a != b,
        s.selection(a) is Some,
        s.selection(b) is Some,
    ensures
        s.node(a, inode) is None || s.node(b, inode) is None,
{
    if s.generation != a {
        let i = choose|i: int| s.retiring_at(a, i);
        lemma_found(s, a, i);
    }
    if s.generation != b {
        let j = choose|j: int| s.retiring_at(b, j);
        lemma_found(s, b, j);
    }
}

/// The inodes of a list that is accepted belong to no file of any selection before it.
pub proof fn law_new_inodes_are_fresh<A>(
    s: StateView<A>,
    files: Seq<FileDescriptor>,
    max_entries: usize,
    data_id: Option<u32>,
    inode: u64,
)
    requires
        s.wf(),
        s.accepted(files, max_entries, data_id).current.tree.owns(inode),
    ensures
        inode >= s.next_base + FIRST_INODE,
        !s.current.tree.owns(inode),
        forall|i: int|
            0 <= i < s.retiring.len() ==> !(#[trigger] s.retiring[i]).1.tree.owns(inode),
{
    lemma_retire_wf(s);
}

/// A stream number that is handed out belongs to no unanswered request and is spent: it
/// is never handed out again.
pub proof fn law_stream_numbers_are_fresh<A>(s: StateView<A>, gone: Seq<u32>, bytes: int)
    requires
        s.wf(),
        s.prune(gone).can_admit(bytes),
    ensures
        ({
            let id = s.next_stream->0;
            let t = s.after_allocate(gone, bytes);
            &&& !s.is_pending(id)
            &&& !s.id_spent(id)
            &&& t.id_spent(id)
            &&& forall|old: u32| s.id_spent(old) ==> #[trigger] t.id_spent(old)
            &&& t.next_stream matches Some(next) ==> id < next
        }),
{
    let id = s.next_stream->0;
    if s.is_pending(id) {
        let i = choose|i: int| s.pending_at(id, i);
        assert(s.id_spent(s.pending[i].id));
    }
}

/// An answer that comes late, after its request was given up, changes nothing.
pub proof fn law_late_answers_change_nothing<A>(
    s: StateView<A>,
    id: u32,
    is_error: bool,
    data: Seq<u8>,
    unwanted: bool,
)
    requires
        !s.is_pending(id),
    ensures
        s.responded(id, is_error, data, unwanted) == s,
{
}

/// Closing ends every selection.
pub proof fn law_close_ends_all<A>(s: StateView<A>, generation: u64)
    ensures
        !s.close().servable(generation),
        s.close().pending.len() == 0,
        s.servable(generation) ==> s.shutdown_released().contains(generation),
{
    if s.servable(generation) {
        let released = s.shutdown_released();
        if s.generation == generation {
            assert(released[released.len() - 1] == generation);
        } else {
            let i = choose|i: int| s.retiring_at(generation, i);
            assert(released[i] == generation);
        }
    }
}

/// A selection that can outlive its replacement keeps serving its files under its own
/// generation, its unanswered requests go on, and only the new one is advertised.
pub proof fn law_superseded_selection_keeps_serving<A>(s: StateView<A>)
    requires
        s.wf(),
        s.live(s.generation),
        s.current.outlives_replacement(),
        s.generation < u64::MAX,
    ensures
        ({
            let t = s.retire_current();
            &&& t.selection(s.generation) == Some(s.current)
            &&& !t.live(s.generation)
            &&& t.live(t.generation)
            &&& !s.retire_released().contains(s.generation)
            &&& forall|p: PendingView<A>|
                s.pending.contains(p) && p.generation == s.generation
                    ==> #[trigger] t.pending.contains(p)
        }),
{
    lemma_retire_wf(s);
    let t = s.retire_current();
    let kept = s.retiring.push((s.generation, s.current));
    if kept.len() > MAX_RETIRING {
        assert(t.retiring == kept.drop_first());
        assert(t.retiring_at(s.generation, kept.len() - 2));
        lemma_found(t, s.generation, kept.len() - 2);
        assert(generations(kept)[0] == s.retiring[0].0);
        let keep = |p: PendingView<A>| p.generation != kept[0].0;
        assert(t.pending == s.pending.filter(keep));
        assert forall|p: PendingView<A>|
            s.pending.contains(p) && p.generation == s.generation implies #[trigger] t.pending.contains(
            p,
        ) by {
            let i = choose|i: int| 0 <= i < s.pending.len() && s.pending[i] == p;
            assert(keep(s.pending[i]));
            s.pending.lemma_filter_contains(keep, i);
        }
    } else {
        assert(t.retiring_at(s.generation, kept.len() - 1));
        lemma_found(t, s.generation, kept.len() - 1);
    }
}

/// Without a lock, or with nothing mounted, a selection is ended by its replacement: it
/// serves no more, none of its requests is left, and its generation is reported.
pub proof fn law_unlocked_selection_is_ended<A>(s: StateView<A>)
    requires
        s.wf(),
        s.live(s.generation),
        !s.current.outlives_replacement(),
        s.generation < u64::MAX,
    ensures
        ({
            let t = s.retire_current();
            &&& s.retire_released() == seq![s.generation]
            &&& !t.servable(s.generation)
            &&& forall|i: int|
                0 <= i < t.pending.len() ==> (#[trigger] t.pending[i]).generation != s.generation
        }),
{
    let t = s.retire_current();
    if t.is_retiring(s.generation) {
        let i = choose|i: int| t.retiring_at(s.generation, i);
        assert(s.retiring[i].0 == s.generation);
    }
    let keep = |p: PendingView<A>| p.generation != s.generation;
    assert(t.pending == s.pending.filter(keep));
    let from = lemma_filter_positions(s.pending, keep);
    assert forall|i: int| 0 <= i < t.pending.len() implies (#[trigger] t.pending[i]).generation
        != s.generation by {
        assert(keep(s.pending[from[i]]));
    }
}

/// The generations reported when the live selection is superseded are the ones that
/// served before and do not serve after. (At the last generation the state closes, and
/// those that close with it are not reported.)
pub proof fn law_retirement_reports_what_ends<A>(s: StateView<A>, generation: u64)
    requires
        s.wf(),
        s.live(s.generation),
        s.generation < u64::MAX,
    ensures
        s.retire_released().contains(generation) <==> s.servable(generation)
            && !s.retire_current().servable(generation),
{
    let t = s.retire_current();
    let released = s.retire_released();
    lemma_retire_wf(s);
    if !s.current.outlives_replacement() {
        law_unlocked_selection_is_ended(s);
        assert(released[0] == s.generation);
        if s.servable(generation) && generation != s.generation {
            let i = choose|i: int| s.retiring_at(generation, i);
            assert(t.retiring_at(generation, i));
        }
    } else {
        law_superseded_selection_keeps_serving(s);
        let kept = s.retiring.push((s.generation, s.current));
        if kept.len() > MAX_RETIRING {
            let oldest = kept[0].0;
            assert(released[0] == oldest);
            assert(s.retiring_at(oldest, 0));
            assert(t.retiring == kept.drop_first());
            assert(s.servable(oldest));
            assert(!t.is_retiring(oldest)) by {
                if t.is_retiring(oldest) {
                    let i = choose|i: int| t.retiring_at(oldest, i);
                    assert(kept[i + 1].0 == oldest);
                    assert(t.retiring[i] == kept[i + 1]);
                    if i + 1 < s.retiring.len() {
                        assert(s.retiring[0].0 < s.retiring[i + 1].0);
                    }
                }
            }
            if s.servable(generation) && generation != s.generation && generation != oldest {
                let i = choose|i: int| s.retiring_at(generation, i);
                assert(kept[i].0 == generation);
                assert(t.retiring_at(generation, i - 1));
            }
        } else if s.servable(generation) && generation != s.generation {
            let i = choose|i: int| s.retiring_at(generation, i);
            assert(t.retiring_at(generation, i));
        }
    }
}

/// The release of its lock ends a retired selection: it is reported, serves no more, and
/// has no request left. One whose lock is not released goes on as it was.
pub proof fn law_release_ends_the_covered<A>(s: StateView<A>, data_ids: Seq<u32>, i: int)
    requires
        s.wf(),
        !s.closed,
        s.stream,
        0 <= i < s.retiring.len(),
    ensures
        ({
            let t = s.release_locks(data_ids);
            let (generation, selection) = s.retiring[i];
            if covered(selection, data_ids) {
                &&& s.lock_released(data_ids).contains(generation)
                &&& !t.servable(generation)
                &&& forall|k: int|
                    0 <= k < t.pending.len() ==> (#[trigger] t.pending[k]).generation != generation
            } else {
                &&& !s.lock_released(data_ids).contains(generation)
                &&& t.selection(generation) == Some(selection)
                &&& forall|p: PendingView<A>|
                    s.pending.contains(p) && p.generation == generation
                        ==> #[trigger] t.pending.contains(p)
            }
        }),
{
    let t = s.release_locks(data_ids);
    crate::preserve::lemma_release_wf(s, data_ids);
    let (generation, selection) = s.retiring[i];
    let goes = |r: (u64, SelectionView)| covered(r.1, data_ids);
    let stays = |r: (u64, SelectionView)| !covered(r.1, data_ids);
    let released = s.lock_released(data_ids);
    let from = lemma_filter_positions(s.retiring, goes);
    let kept = lemma_filter_positions(s.retiring, stays);
    let keep = |p: PendingView<A>| !released.contains(p.generation);
    let pending_from = lemma_filter_positions(s.pending, keep);
    if covered(selection, data_ids) {
        assert(goes(s.retiring[i]));
        s.retiring.lemma_filter_contains(goes, i);
        let gone = s.retiring.filter(goes);
        let j = choose|j: int| 0 <= j < gone.len() && gone[j] == s.retiring[i];
        assert(released[j] == generation);
        if t.is_retiring(generation) {
            let k = choose|k: int| t.retiring_at(generation, k);
            let m = kept[k];
            assert(s.retiring[m].0 == generation);
            assert(stays(s.retiring[m]));
            if m < i {
                assert(s.retiring[m].0 < s.retiring[i].0);
            } else if i < m {
                assert(s.retiring[i].0 < s.retiring[m].0);
            }
        }
        assert forall|k: int| 0 <= k < t.pending.len() implies (#[trigger] t.pending[k]).generation
            != generation by {
            assert(keep(s.pending[pending_from[k]]));
        }
    } else {
        if released.contains(generation) {
            let j = choose|j: int| 0 <= j < released.len() && released[j] == generation;
            let m = from[j];
            assert(goes(s.retiring[m]));
            assert(s.retiring[m].0 == generation);
            if m < i {
                assert(s.retiring[m].0 < s.retiring[i].0);
            } else if i < m {
                assert(s.retiring[i].0 < s.retiring[m].0);
            }
        }
        assert(stays(s.retiring[i]));
        s.retiring.lemma_filter_contains(stays, i);
        let k = choose|k: int| 0 <= k < t.retiring.len() && t.retiring[k] == s.retiring[i];
        assert(t.retiring_at(generation, k));
        lemma_found(t, generation, k);
        assert forall|p: PendingView<A>|
            s.pending.contains(p) && p.generation == generation implies #[trigger] t.pending.contains(
            p,
        ) by {
            let n = choose|n: int| 0 <= n < s.pending.len() && s.pending[n] == p;
            assert(keep(s.pending[n]));
            s.pending.lemma_filter_contains(keep, n);
        }
    }
}

/// The live selection is not touched by the release of locks.
pub proof fn law_release_spares_the_live<A>(s: StateView<A>, data_ids: Seq<u32>)
    requires
        s.wf(),
    ensures
        s.release_locks(data_ids).current == s.current,
        s.release_locks(data_ids).live(s.generation) == s.live(s.generation),
        s.release_locks(data_ids).generation == s.generation,
{
}

/// What has been gathered of a range is what the file holds there.
pub open spec fn gathered_of<A>(p: PendingView<A>, content: Seq<u8>) -> bool {
    match p.operation {
        OperationView::Range { base, fetch } => {
            &&& base + fetch.total <= content.len()
            &&& fetch.received == content.subrange(base as int, base + fetch.received.len())
        },
        OperationView::Size { .. } => false,
    }
}

/// The bytes that a remote with the given file answers to the unanswered request: `n` of
/// them, from where the request begins.
pub open spec fn answered_with<A>(p: PendingView<A>, content: Seq<u8>, n: int) -> Seq<u8> {
    let base = p.operation->base;
    let fetch = p.operation->fetch;
    content.subrange(base + fetch.received.len(), base + fetch.received.len() + n)
}

/// A read returns the bytes that the file holds in the range. Each answer may carry as few
/// of the bytes asked for as the remote likes, but one; every request begins where the
/// answers so far end, and when the last is there the reader has the whole range.
pub proof fn law_read_returns_the_range<A>(
    s: StateView<A>,
    p: PendingView<A>,
    content: Seq<u8>,
    n: int,
)
    requires
        p.wf(),
        gathered_of(p, content),
        1 <= n <= p.operation->fetch.due_size(),
    ensures
        ({
            let base = p.operation->base;
            let fetch = p.operation->fetch;
            match p.outcome(s, false, answered_with(p, content, n)) {
                Outcome::Read(bytes) => bytes == content.subrange(base as int, base + fetch.total),
                Outcome::More { request, fetch: next } => {
                    let q = PendingView {
                        operation: OperationView::Range { base, fetch: next },
                        ..p
                    };
                    &&& q.wf()
                    &&& gathered_of(q, content)
                    &&& next.received.len() == fetch.received.len() + n
                    &&& request.position == base + next.received.len()
                    &&& request.requested_size == next.due_size()
                    &&& request.stream_id == p.id
                    &&& request.data_id == fetch.data_id
                    &&& request.index == fetch.index
                },
                _ => false,
            }
        }),
{
    let base = p.operation->base;
    let fetch = p.operation->fetch;
    let data = answered_with(p, content, n);
    assert(fetch.received + data =~= content.subrange(
        base as int,
        base + fetch.received.len() + n,
    ));
}

/// The first request of a read has gathered nothing, which any file holds.
pub proof fn law_read_begins_with_nothing<A>(
    s: StateView<A>,
    generation: u64,
    position: u64,
    max_chunk: u32,
    index: i32,
    data_id: Option<u32>,
    amount: u64,
    answer: A,
    content: Seq<u8>,
)
    requires
        position + amount <= content.len(),
    ensures
        gathered_of(
            s.range_admission(generation, position, max_chunk, index, data_id, amount).pending(
                answer,
            ),
            content,
        ),
{
    assert(content.subrange(position as int, position as int) =~= Seq::empty());
}

/// Whatever the remote answers, a read that succeeds has as many bytes as it was admitted
/// for, and one that goes on has more than before and fewer than that.
pub proof fn law_read_stays_in_its_bounds<A>(
    s: StateView<A>,
    p: PendingView<A>,
    is_error: bool,
    data: Seq<u8>,
)
    requires
        p.wf(),
        p.operation is Range,
    ensures
        match p.outcome(s, is_error, data) {
            Outcome::Read(bytes) => bytes.len() == p.reserved,
            Outcome::More { fetch, .. } => p.operation->fetch.received.len()
                < fetch.received.len() < p.reserved,
            Outcome::Failed => true,
            Outcome::Sized(_) => false,
        },
{
}

/// A reader who is told a size is told the same on every later look, with no request made.
pub proof fn law_told_size_is_remembered<A>(s: StateView<A>, id: u32, data: Seq<u8>)
    requires
        s.wf(),
        s.is_pending(id),
        s.pending[s.pending_index(id)].operation is Size,
    ensures
        ({
            let p = s.pending[s.pending_index(id)];
            p.outcome(s, false, data) matches Outcome::Sized(size) ==> s.responded(
                id,
                false,
                data,
                false,
            ).lookup(p.generation, p.operation->inode) == Lookup::Known(size)
        }),
{
    let p = s.pending[s.pending_index(id)];
    let g = p.generation;
    let inode = p.operation->inode;
    if let Outcome::Sized(size) = p.outcome(s, false, data) {
        let f = s.forget(id);
        lemma_remove_wf(s, s.pending_index(id));
        lemma_with_size_wf(f, g, inode, size);
        let t = s.responded(id, false, data, false);
        if s.generation != g {
            let i = choose|i: int| s.retiring_at(g, i);
            lemma_found(s, g, i);
            assert(f.retiring_at(g, i));
            lemma_found(f, g, i);
            assert(t.retiring_at(g, i));
            lemma_found(t, g, i);
        }
    }
}

/// What a reader has after a faithful remote has answered with so many bytes at a time, if
/// the range is complete by then.
pub open spec fn read_after<A>(
    s: StateView<A>,
    p: PendingView<A>,
    content: Seq<u8>,
    counts: Seq<int>,
) -> Option<Seq<u8>>
    decreases counts.len(),
{
    if counts.len() == 0 {
        None
    } else {
        match p.outcome(s, false, answered_with(p, content, counts[0])) {
            Outcome::Read(bytes) => Some(bytes),
            Outcome::More { fetch, .. } => read_after(
                s,
                PendingView {
                    operation: OperationView::Range { base: p.operation->base, fetch },
                    ..p
                },
                content,
                counts.drop_first(),
            ),
            _ => None,
        }
    }
}

/// Whether each answer carries a byte and no more than the request before it asked for,
/// and the answers make up `left` bytes in all, of which at most `chunk` are asked for at once.
pub open spec fn answers_in_bounds(counts: Seq<int>, left: int, chunk: int) -> bool
    decreases counts.len(),
{
    if counts.len() == 0 {
        left == 0
    } else {
        &&& 1 <= counts[0] <= left
        &&& counts[0] <= chunk
        &&& answers_in_bounds(counts.drop_first(), left - counts[0], chunk)
    }
}

proof fn lemma_read_after<A>(
    s: StateView<A>,
    p: PendingView<A>,
    content: Seq<u8>,
    counts: Seq<int>,
)
    requires
        p.wf(),
        gathered_of(p, content),
        ({
            let fetch = p.operation->fetch;
            answers_in_bounds(counts, fetch.total - fetch.received.len(), fetch.chunk as int)
        }),
    ensures
        ({
            let base = p.operation->base;
            read_after(s, p, content, counts) == Some(
                content.subrange(base as int, base + p.operation->fetch.total),
            )
        }),
    decreases counts.len(),
{
    law_read_returns_the_range(s, p, content, counts[0]);
    if let Outcome::More { fetch, .. } = p.outcome(s, false, answered_with(p, content, counts[0])) {
        lemma_read_after(
            s,
            PendingView {
                operation: OperationView::Range { base: p.operation->base, fetch },
                ..p
            },
            content,
            counts.drop_first(),
        );
    }
}

/// A read gives back what the file holds: of a file with the given content, the bytes from
/// `position` on, up to `size` of them and to the end of the file, in however many answers the
/// remote sends them.
pub proof fn law_read_gives_back_the_file<A>(
    s: StateView<A>,
    generation: u64,
    inode: u64,
    position: u64,
    size: u32,
    max_chunk: u32,
    content: Seq<u8>,
    counts: Seq<int>,
    answer: A,
)
    requires
        s.wf(),
        1 <= max_chunk,
        size <= MAX_READ,
        s.node(generation, inode) matches Some(node) && node.kind is File && node.size == Some(
            content.len() as u64,
        ),
        content.len() <= u64::MAX,
    ensures
        ({
            let left = if position <= content.len() {
                content.len() - position
            } else {
                0
            };
            let amount = if left <= size {
                left
            } else {
                size as int
            };
            match s.read_plan(generation, inode, position, size) {
                ReadPlan::Empty => amount == 0,
                ReadPlan::Fetch { index, data_id, amount: planned } => {
                    let p = s.range_admission(
                        generation,
                        position,
                        max_chunk,
                        index,
                        data_id,
                        planned,
                    ).pending(answer);
                    &&& planned == amount > 0
                    &&& answers_in_bounds(counts, amount, max_chunk as int) ==> read_after(
                        s,
                        p,
                        content,
                        counts,
                    ) == Some(content.subrange(position as int, position + amount))
                },
                ReadPlan::Unavailable => false,
            }
        }),
{
    if let ReadPlan::Fetch { index, data_id, amount } = s.read_plan(
        generation,
        inode,
        position,
        size,
    ) {
        let p = s.range_admission(
            generation,
            position,
            max_chunk,
            index,
            data_id,
            amount,
        ).pending(answer);
        law_read_begins_with_nothing(
            s,
            generation,
            position,
            max_chunk,
            index,
            data_id,
            amount,
            answer,
            content,
        );
        if answers_in_bounds(counts, amount as int, max_chunk as int) {
            lemma_read_after(s, p, content, counts);
        }
    }
}

/// Whether a generation is the current one or retired and not released, so that something
/// may be mounted for it.
pub open spec fn may_be_mounted<A>(s: StateView<A>, generation: u64) -> bool {
    s.generation == generation || s.is_retiring(generation)
}

/// No mount is left behind: whatever ends a selection reports its generation as one whose
/// mount must come down. Every other generation stays as it was.
pub proof fn law_every_end_is_reported<A>(
    s: StateView<A>,
    generation: u64,
    files: Seq<FileDescriptor>,
    max_entries: usize,
    data_id: Option<u32>,
    data_ids: Seq<u32>,
    stream: bool,
    huge: bool,
)
    requires
        s.wf(),
        may_be_mounted(s, generation),
    ensures
        may_be_mounted(s.retire_current(), generation) || s.retire_released().contains(generation),
        may_be_mounted(s.accepted(files, max_entries, data_id), generation)
            || s.retire_released().contains(generation),
        may_be_mounted(s.release_locks(data_ids), generation) || s.lock_released(
            data_ids,
        ).contains(generation),
        s.stream == stream && s.huge == huge ==> may_be_mounted(
            s.capabilities(stream, huge),
            generation,
        ),
        s.shutdown_released().contains(generation),
{
    let at = choose|i: int| s.retiring_at(generation, i);
    // Superseding, and taking a list over.
    let t = s.retire_current();
    let kept = s.retiring.push((s.generation, s.current));
    if !s.current.outlives_replacement() {
        assert(s.retire_released()[0] == s.generation);
        if s.generation != generation {
            assert(t.retiring_at(generation, at));
        }
    } else {
        let k = if s.generation == generation {
            s.retiring.len() as int
        } else {
            at
        };
        assert(kept[k].0 == generation);
        if kept.len() > MAX_RETIRING {
            assert(t.retiring == kept.drop_first());
            if k == 0 {
                assert(generations(kept)[0] == generation);
                assert(s.retire_released()[0] == generation);
            } else {
                assert(t.retiring_at(generation, k - 1));
            }
        } else {
            assert(t.retiring_at(generation, k));
        }
    }
    let a = s.accepted(files, max_entries, data_id);
    if t.is_retiring(generation) {
        let i = choose|i: int| t.retiring_at(generation, i);
        assert(a.retiring_at(generation, i));
    }
    // Releasing locks.
    if s.generation != generation {
        let goes = |r: (u64, SelectionView)| covered(r.1, data_ids);
        let stays = |r: (u64, SelectionView)| !covered(r.1, data_ids);
        let r = s.release_locks(data_ids);
        if goes(s.retiring[at]) {
            s.retiring.lemma_filter_contains(goes, at);
            let gone = s.retiring.filter(goes);
            let j = choose|j: int| 0 <= j < gone.len() && gone[j] == s.retiring[at];
            assert(s.lock_released(data_ids)[j] == generation);
        } else {
            assert(stays(s.retiring[at]));
            s.retiring.lemma_filter_contains(stays, at);
            let j = choose|j: int| 0 <= j < r.retiring.len() && r.retiring[j] == s.retiring[at];
            assert(r.retiring_at(generation, j));
        }
    }
    // Ending all of them.
    let released = s.shutdown_released();
    if s.generation == generation {
        assert(released[released.len() - 1] == generation);
    } else {
        assert(released[at] == generation);
        assert(s.capabilities(s.stream, s.huge).retiring_at(generation, at));
    }
}

} // verus!
