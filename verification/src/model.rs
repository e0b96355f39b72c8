//! The transfer state as mathematics: what each event makes of it.

use crate::fetch::{FetchView, FileContentsRequest, Progress, FILE_CONTENTS_SIZE};
use crate::tree::{FileDescriptor, NodeView, RemoteNodeKind, TreeView, FIRST_INODE};
use vstd::bytes::spec_u64_from_le_bytes;
use vstd::prelude::*;

verus! {

/// How many requests may be unanswered at once.
pub const MAX_PENDING: usize = 64;

/// How many bytes the unanswered requests may bring in at once.
pub const MAX_BUFFERED: usize = 16_777_216;

/// The largest read that is served.
pub const MAX_READ: u32 = 8_388_608;

/// How many superseded selections keep serving at once.
///
/// A retired selection normally ends when its lock is released. This bounds those
/// that no release will end, such as the ones that a local owner superseded.
pub const MAX_RETIRING: usize = 4;

/// The bytes that the answer to a size request takes.
pub const SIZE_ANSWER: u32 = 8;

/// One announced file list, with the lock that keeps the remote's copy alive.
#[verifier::ext_equal]
pub struct SelectionView {
    pub tree: TreeView,
    pub data_id: Option<u32>,
}

#[verifier::ext_equal]
pub enum OperationView {
    Size { inode: u64 },
    Range { base: u64, fetch: FetchView },
}

/// One unanswered request.
#[verifier::ext_equal]
#[verifier::reject_recursive_types(A)]
pub struct PendingView<A> {
    pub id: u32,
    pub generation: u64,
    pub operation: OperationView,
    pub answer: A,
    pub reserved: usize,
}

/// A request that the budgets have admitted and that is not sent yet.
#[verifier::ext_equal]
pub struct AdmissionView {
    pub generation: u64,
    pub request: FileContentsRequest,
    pub operation: OperationView,
    pub reserved: usize,
}

/// What is known of a file's size.
pub enum Lookup {
    /// The file cannot be read, or is larger than may be told.
    Unavailable,
    Known(u64),
    /// The remote has to be asked, for the file at `index`.
    Unknown { index: i32, data_id: Option<u32> },
}

/// What a read comes to before anything is asked of the remote.
pub enum ReadPlan {
    Unavailable,
    /// Nothing lies between the position and the end of the file.
    Empty,
    /// `amount` bytes are to be fetched of the file at `index`.
    Fetch { index: i32, data_id: Option<u32>, amount: u64 },
}

#[verifier::ext_equal]
#[verifier::reject_recursive_types(A)]
pub struct StateView<A> {
    pub generation: u64,
    pub closed: bool,
    pub stream: bool,
    pub huge: bool,
    pub current: SelectionView,
    /// Superseded selections that still serve, by generation, oldest first.
    pub retiring: Seq<(u64, SelectionView)>,
    pub next_base: u64,
    pub next_stream: Option<u32>,
    /// The unanswered requests of every selection, oldest first.
    pub pending: Seq<PendingView<A>>,
}

/// The bytes that the given requests may bring in.
pub open spec fn reserved_total<A>(pending: Seq<PendingView<A>>) -> nat
    decreases pending.len(),
{
    if pending.len() == 0 {
        0
    } else {
        reserved_total(pending.drop_last()) + pending.last().reserved as nat
    }
}

/// The generations of the given selections.
pub open spec fn generations(retiring: Seq<(u64, SelectionView)>) -> Seq<u64> {
    retiring.map_values(|r: (u64, SelectionView)| r.0)
}

/// Where the selection of a generation stands.
pub open spec fn position_of(retiring: Seq<(u64, SelectionView)>, generation: u64) -> int {
    choose|i: int| 0 <= i < retiring.len() && (#[trigger] retiring[i]).0 == generation
}

/// Whether the lock of a selection is among `data_ids`.
pub open spec fn covered(selection: SelectionView, data_ids: Seq<u32>) -> bool {
    match selection.data_id {
        Some(id) => data_ids.contains(id),
        None => false,
    }
}

impl SelectionView {
    pub open spec fn empty() -> SelectionView {
        SelectionView { tree: TreeView::empty(), data_id: None }
    }

    /// Whether a selection can go on serving once it is superseded: something is
    /// mounted for it, and a lock keeps the remote's copy alive.
    pub open spec fn outlives_replacement(self) -> bool {
        self.tree.roots.len() != 0 && self.data_id is Some
    }
}

impl<A> PendingView<A> {
    /// What an unanswered request is held to.
    pub open spec fn wf(self) -> bool {
        match self.operation {
            OperationView::Size { .. } => self.reserved == SIZE_ANSWER,
            OperationView::Range { base, fetch } => {
                &&& fetch.stream_id == self.id
                &&& fetch.asked == Some(fetch.due_size() as u32)
                &&& fetch.received.len() < fetch.total == self.reserved
                &&& fetch.total <= MAX_READ
                &&& fetch.chunk >= 1
                &&& base + fetch.total <= u64::MAX
            },
        }
    }

    /// Whether at most `chunk` bytes of a range are asked for at once.
    pub open spec fn in_chunks(self, chunk: u32) -> bool {
        match self.operation {
            OperationView::Size { .. } => true,
            OperationView::Range { fetch, .. } => fetch.chunk == chunk,
        }
    }
}

impl<A> StateView<A> {
    pub open spec fn initial() -> StateView<A> {
        StateView {
            generation: 0,
            closed: false,
            stream: false,
            huge: false,
            current: SelectionView::empty(),
            retiring: Seq::empty(),
            next_base: 0,
            next_stream: Some(1),
            pending: Seq::empty(),
        }
    }

    /// The selection that is advertised now.
    pub open spec fn live(self, generation: u64) -> bool {
        !self.closed && self.stream && self.generation == generation
    }

    pub open spec fn retiring_at(self, generation: u64, i: int) -> bool {
        0 <= i < self.retiring.len() && self.retiring[i].0 == generation
    }

    pub open spec fn is_retiring(self, generation: u64) -> bool {
        exists|i: int| self.retiring_at(generation, i)
    }

    /// A selection that still answers: the live one, or one retired and not released.
    pub open spec fn servable(self, generation: u64) -> bool {
        !self.closed && self.stream && (self.generation == generation || self.is_retiring(
            generation,
        ))
    }

    pub open spec fn selection(self, generation: u64) -> Option<SelectionView> {
        if !self.servable(generation) {
            None
        } else if self.generation == generation {
            Some(self.current)
        } else {
            Some(self.retiring[position_of(self.retiring, generation)].1)
        }
    }

    /// The requests of one selection are dropped, so that every waiting read fails.
    pub open spec fn fail_pending(self, generation: u64) -> StateView<A> {
        StateView {
            pending: self.pending.filter(|p: PendingView<A>| p.generation != generation),
            ..self
        }
    }

    pub open spec fn take_current(self) -> StateView<A> {
        let end = self.current.tree.next_base();
        StateView {
            current: SelectionView::empty(),
            next_base: if end <= self.next_base { self.next_base } else { end as u64 },
            ..self
        }
    }

    /// The next generation begins; where there is none, the state closes.
    pub open spec fn bump(self) -> StateView<A> {
        if self.generation < u64::MAX {
            StateView { generation: (self.generation + 1) as u64, ..self }
        } else {
            StateView { closed: true, ..self }
        }
    }

    /// The oldest retired selection ends.
    pub open spec fn evict_oldest(self) -> StateView<A> {
        StateView { retiring: self.retiring.drop_first(), ..self }.fail_pending(self.retiring[0].0)
    }

    /// The live selection is superseded: it retires if it can go on serving, at the
    /// cost of the oldest retired one where there are too many, and ends if not.
    pub open spec fn retire_current(self) -> StateView<A> {
        let taken = self.take_current();
        let after = if !self.current.outlives_replacement() {
            taken.fail_pending(self.generation)
        } else {
            let kept = StateView {
                retiring: self.retiring.push((self.generation, self.current)),
                ..taken
            };
            if kept.retiring.len() > MAX_RETIRING {
                kept.evict_oldest()
            } else {
                kept
            }
        };
        after.bump()
    }

    /// The generations that superseding the live selection ends.
    pub open spec fn retire_released(self) -> Seq<u64> {
        if !self.current.outlives_replacement() {
            seq![self.generation]
        } else if self.retiring.len() >= MAX_RETIRING {
            seq![generations(self.retiring.push((self.generation, self.current)))[0]]
        } else {
            Seq::empty()
        }
    }

    /// Every selection ends, live and retired.
    pub open spec fn shutdown(self) -> StateView<A> {
        StateView { retiring: Seq::empty(), pending: Seq::empty(), ..self }.take_current().bump()
    }

    pub open spec fn shutdown_released(self) -> Seq<u64> {
        generations(self.retiring).push(self.generation)
    }

    pub open spec fn capabilities(self, stream: bool, huge: bool) -> StateView<A> {
        let s = if self.stream != stream || self.huge != huge {
            self.shutdown()
        } else {
            self
        };
        StateView { stream, huge, ..s }
    }

    /// The retired selections whose lock is among `data_ids`.
    pub open spec fn lock_released(self, data_ids: Seq<u32>) -> Seq<u64> {
        generations(self.retiring.filter(|r: (u64, SelectionView)| covered(r.1, data_ids)))
    }

    /// The selections that the given locks covered end.
    pub open spec fn release_locks(self, data_ids: Seq<u32>) -> StateView<A> {
        let released = self.lock_released(data_ids);
        StateView {
            retiring: self.retiring.filter(|r: (u64, SelectionView)| !covered(r.1, data_ids)),
            pending: self.pending.filter(|p: PendingView<A>| !released.contains(p.generation)),
            ..self
        }
    }

    pub open spec fn close(self) -> StateView<A> {
        StateView { closed: true, ..self.shutdown() }
    }

    /// A file list takes the place of the live selection.
    pub open spec fn accepted(
        self,
        files: Seq<FileDescriptor>,
        max_entries: usize,
        data_id: Option<u32>,
    ) -> StateView<A> {
        let s = self.retire_current();
        let tree = TreeView::built(files, max_entries, s.next_base);
        StateView {
            current: SelectionView { tree, data_id },
            next_base: tree.next_base() as u64,
            ..s
        }
    }

    /// The requests that nobody waits for any more are dropped.
    pub open spec fn prune(self, gone: Seq<u32>) -> StateView<A> {
        StateView { pending: self.pending.filter(|p: PendingView<A>| !gone.contains(p.id)), ..self }
    }

    /// Whether the budgets and the stream numbers leave room for one more request.
    pub open spec fn can_admit(self, bytes: int) -> bool {
        &&& self.pending.len() < MAX_PENDING
        &&& bytes + reserved_total(self.pending) <= MAX_BUFFERED
        &&& self.next_stream is Some
    }

    /// The state once the next stream number is handed out.
    pub open spec fn allocated(self) -> StateView<A> {
        let id = self.next_stream->0;
        StateView {
            next_stream: if id < u32::MAX { Some((id + 1) as u32) } else { None },
            ..self
        }
    }

    /// The state once room for `bytes` has been asked for.
    pub open spec fn after_allocate(self, gone: Seq<u32>, bytes: int) -> StateView<A> {
        let s = self.prune(gone);
        if s.can_admit(bytes) {
            s.allocated()
        } else {
            s
        }
    }

    pub open spec fn node(self, generation: u64, inode: u64) -> Option<NodeView> {
        match self.selection(generation) {
            Some(selection) => selection.tree.node(inode),
            None => None,
        }
    }

    /// Whether a size may be told to the reader.
    pub open spec fn tellable(self, size: u64) -> bool {
        self.huge || size <= u32::MAX
    }

    pub open spec fn lookup(self, generation: u64, inode: u64) -> Lookup {
        match self.node(generation, inode) {
            None => Lookup::Unavailable,
            Some(node) => match node.size {
                Some(size) => if self.tellable(size) {
                    Lookup::Known(size)
                } else {
                    Lookup::Unavailable
                },
                None => match node.kind {
                    RemoteNodeKind::Directory => Lookup::Unavailable,
                    RemoteNodeKind::File { index } => Lookup::Unknown {
                        index,
                        data_id: self.selection(generation)->0.data_id,
                    },
                },
            },
        }
    }

    /// The request for the size of a file that nothing is known of.
    pub open spec fn size_admission(
        self,
        generation: u64,
        inode: u64,
        index: i32,
        data_id: Option<u32>,
    ) -> AdmissionView {
        AdmissionView {
            generation,
            request: FileContentsRequest {
                stream_id: self.next_stream->0,
                index,
                flags: FILE_CONTENTS_SIZE,
                position: 0,
                requested_size: SIZE_ANSWER,
                data_id,
            },
            operation: OperationView::Size { inode },
            reserved: SIZE_ANSWER as usize,
        }
    }

    pub open spec fn read_plan(
        self,
        generation: u64,
        inode: u64,
        position: u64,
        size: u32,
    ) -> ReadPlan {
        if size > MAX_READ {
            ReadPlan::Unavailable
        } else {
            match self.node(generation, inode) {
                None => ReadPlan::Unavailable,
                Some(node) => match (node.kind, node.size) {
                    (RemoteNodeKind::File { index }, Some(total)) => {
                        let left = if position <= total { total - position } else { 0 };
                        let amount = if left <= size { left } else { size as int };
                        if amount == 0 {
                            ReadPlan::Empty
                        } else {
                            ReadPlan::Fetch {
                                index,
                                data_id: self.selection(generation)->0.data_id,
                                amount: amount as u64,
                            }
                        }
                    },
                    _ => ReadPlan::Unavailable,
                },
            }
        }
    }

    /// The first request of a read of `amount` bytes, and the fetch it belongs to.
    pub open spec fn range_admission(
        self,
        generation: u64,
        position: u64,
        max_chunk: u32,
        index: i32,
        data_id: Option<u32>,
        amount: u64,
    ) -> AdmissionView {
        let fetch = FetchView {
            stream_id: self.next_stream->0,
            index,
            total: amount,
            chunk: if max_chunk == 0 { 1 } else { max_chunk },
            data_id,
            received: Seq::empty(),
            ready: true,
            asked: None,
        };
        AdmissionView {
            generation,
            request: FileContentsRequest { position, ..fetch.due_request() },
            operation: OperationView::Range { base: position, fetch: fetch.requested() },
            reserved: amount as usize,
        }
    }

    /// Whether a request may join the unanswered ones.
    pub open spec fn admits(self, p: PendingView<A>) -> bool {
        &&& p.wf()
        &&& self.pending.len() < MAX_PENDING
        &&& p.reserved + reserved_total(self.pending) <= MAX_BUFFERED
        &&& self.generation == p.generation || self.is_retiring(p.generation)
        &&& self.id_spent(p.id)
        &&& forall|i: int| 0 <= i < self.pending.len() ==> (#[trigger] self.pending[i]).id < p.id
    }

    /// Whether a stream number has been handed out.
    pub open spec fn id_spent(self, id: u32) -> bool {
        match self.next_stream {
            Some(next) => id < next,
            None => true,
        }
    }

    pub open spec fn pending_at(self, id: u32, i: int) -> bool {
        0 <= i < self.pending.len() && self.pending[i].id == id
    }

    pub open spec fn is_pending(self, id: u32) -> bool {
        exists|i: int| self.pending_at(id, i)
    }

    /// Where an unanswered request stands.
    pub open spec fn pending_index(self, id: u32) -> int {
        choose|i: int| self.pending_at(id, i)
    }

    /// The request is unanswered no more.
    pub open spec fn forget(self, id: u32) -> StateView<A> {
        if self.is_pending(id) {
            StateView { pending: self.pending.remove(self.pending_index(id)), ..self }
        } else {
            self
        }
    }

    /// The size of a file is recorded in the selection that asked for it.
    pub open spec fn with_size(self, generation: u64, inode: u64, size: u64) -> StateView<A> {
        if !self.servable(generation) {
            self
        } else if self.generation == generation {
            StateView {
                current: SelectionView {
                    tree: self.current.tree.with_size(inode, size),
                    ..self.current
                },
                ..self
            }
        } else {
            let i = position_of(self.retiring, generation);
            let r = self.retiring[i];
            StateView {
                retiring: self.retiring.update(
                    i,
                    (r.0, SelectionView { tree: r.1.tree.with_size(inode, size), ..r.1 }),
                ),
                ..self
            }
        }
    }

    /// Whether the inode is a file of a selection that still serves.
    pub open spec fn is_file(self, generation: u64, inode: u64) -> bool {
        match self.selection(generation) {
            Some(selection) => selection.tree.is_file(inode),
            None => false,
        }
    }

    /// The selections' inodes are in order and apart, and below what is handed out next.
    pub open spec fn inodes_wf(self) -> bool {
        &&& self.current.tree.wf()
        &&& self.current.tree.next_base() <= self.next_base
        &&& self.next_base + FIRST_INODE <= u64::MAX
        &&& forall|i: int|
            #![trigger self.retiring[i]]
            0 <= i < self.retiring.len() ==> {
                let tree = self.retiring[i].1.tree;
                &&& tree.wf()
                &&& tree.next_base() <= self.next_base
                &&& self.current.tree.nodes.len() == 0 || tree.next_base() <= self.current.tree.base
            }
        &&& forall|i: int, j: int|
            #![trigger self.retiring[i], self.retiring[j]]
            0 <= i < j < self.retiring.len() ==> self.retiring[i].1.tree.next_base()
                <= self.retiring[j].1.tree.base
    }

    /// Retired selections are few, in order of age, and older than the live one.
    pub open spec fn retiring_wf(self) -> bool {
        &&& self.retiring.len() <= MAX_RETIRING
        &&& self.closed ==> self.current.tree.roots.len() == 0
        &&& forall|i: int|
            #![trigger self.retiring[i]]
            0 <= i < self.retiring.len() ==> {
                &&& self.retiring[i].1.outlives_replacement()
                &&& self.retiring[i].0 < self.generation || (self.closed && self.retiring[i].0
                    == self.generation)
            }
        &&& forall|i: int, j: int|
            #![trigger self.retiring[i], self.retiring[j]]
            0 <= i < j < self.retiring.len() ==> self.retiring[i].0 < self.retiring[j].0
    }

    /// Unanswered requests keep to the budgets, have numbers of their own, and belong
    /// to selections that have not ended.
    pub open spec fn pending_wf(self) -> bool {
        &&& self.pending.len() <= MAX_PENDING
        &&& reserved_total(self.pending) <= MAX_BUFFERED
        &&& forall|i: int|
            #![trigger self.pending[i]]
            0 <= i < self.pending.len() ==> {
                &&& self.pending[i].wf()
                &&& self.id_spent(self.pending[i].id)
                &&& self.generation == self.pending[i].generation || self.is_retiring(
                    self.pending[i].generation,
                )
            }
        &&& forall|i: int, j: int|
            #![trigger self.pending[i], self.pending[j]]
            0 <= i < j < self.pending.len() ==> self.pending[i].id < self.pending[j].id
    }

    /// Whether every unanswered range is fetched `chunk` bytes at a time.
    pub open spec fn in_chunks(self, chunk: u32) -> bool {
        forall|i: int|
            0 <= i < self.pending.len() ==> (#[trigger] self.pending[i]).in_chunks(chunk)
    }

    pub open spec fn wf(self) -> bool {
        &&& self.inodes_wf()
        &&& self.retiring_wf()
        &&& self.pending_wf()
    }
}

/// What an answer to a request comes to.
pub enum Outcome {
    Failed,
    /// The size of the file is told.
    Sized(u64),
    /// The range is complete.
    Read(Seq<u8>),
    /// The rest of the range is to be asked for.
    More { request: FileContentsRequest, fetch: FetchView },
}

impl<A> PendingView<A> {
    /// What the remote's answer to this request comes to in state `s`.
    pub open spec fn outcome(self, s: StateView<A>, is_error: bool, data: Seq<u8>) -> Outcome {
        if is_error {
            Outcome::Failed
        } else {
            match self.operation {
                OperationView::Size { inode } => {
                    let size = spec_u64_from_le_bytes(data);
                    if data.len() == SIZE_ANSWER && s.tellable(size) && s.is_file(
                        self.generation,
                        inode,
                    ) {
                        Outcome::Sized(size)
                    } else {
                        Outcome::Failed
                    }
                },
                OperationView::Range { base, fetch } => match fetch.progress(data) {
                    Progress::Failed => Outcome::Failed,
                    Progress::Complete => Outcome::Read(fetch.received + data),
                    Progress::InProgress => {
                        let due = fetch.gathered(data).due_request();
                        Outcome::More {
                            request: FileContentsRequest {
                                position: (base + due.position) as u64,
                                ..due
                            },
                            fetch: fetch.gathered(data).requested(),
                        }
                    },
                },
            }
        }
    }
}

impl<A> StateView<A> {
    /// The state once the remote has answered: the request is unanswered no more, but
    /// for one whose range is incomplete. A size that the remote told is recorded, also
    /// where it is larger than may be told on.
    pub open spec fn responded(
        self,
        id: u32,
        is_error: bool,
        data: Seq<u8>,
        unwanted: bool,
    ) -> StateView<A> {
        let i = self.pending_index(id);
        let p = self.pending[i];
        if !self.is_pending(id) || unwanted {
            self.forget(id)
        } else {
            match (p.operation, p.outcome(self, is_error, data)) {
                (OperationView::Size { inode }, _) => if !is_error && data.len() == SIZE_ANSWER {
                    self.forget(id).with_size(p.generation, inode, spec_u64_from_le_bytes(data))
                } else {
                    self.forget(id)
                },
                (OperationView::Range { base, .. }, Outcome::More { fetch, .. }) => StateView {
                    pending: self.pending.update(
                        i,
                        PendingView { operation: OperationView::Range { base, fetch }, ..p },
                    ),
                    ..self
                },
                _ => self.forget(id),
            }
        }
    }
}

} // verus!
