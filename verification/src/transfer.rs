//! Admission of reads, and correlation of the remote's answers with them.
//!
//! Nothing here sends or waits. Each step says what to send or answer; the caller, who
//! holds the state for the length of the step, does so and reports the outcome.

use crate::fetch::{
    fetch_view, gather, into_data, new_fetch, next_request, FileContentsRequest,
    FileContentsResponse, Progress, FILE_CONTENTS_SIZE,
};
use crate::model::{
    AdmissionView, Lookup, Outcome, PendingView, ReadPlan, StateView, MAX_BUFFERED, MAX_PENDING,
    MAX_READ, SIZE_ANSWER,
};
use crate::preserve::{
    lemma_accept_wf, lemma_admit_wf, lemma_allocate_wf, lemma_remove_wf, lemma_request_chunks,
    lemma_selection_chunks, lemma_shutdown_wf, lemma_update_wf,
};
use crate::state::{Operation, Pending, Selection, State};
use crate::tree::{FileDescriptor, RemoteNodeKind, RemoteTree};
use vstd::bytes::u64_from_le_bytes;
use vstd::prelude::*;

verus! {

/// What a reader is answered.
pub enum Value {
    Size(u64),
    Bytes(Vec<u8>),
}

/// A request that the budgets have admitted, to be sent and then submitted.
pub struct Admission {
    pub generation: u64,
    pub request: FileContentsRequest,
    pub operation: Operation,
    pub reserved: usize,
}

/// How the size of a file is to be had.
pub enum SizeStep {
    Known(u64),
    Ask(Admission),
}

/// How a range is to be had.
pub enum ReadStep {
    /// There is nothing to read.
    Empty,
    Ask(Admission),
}

/// How a read begins.
pub enum StartStep {
    /// The size of the file has to be asked for first.
    Size(Admission),
    /// The size is known, and this is what the range comes to.
    Range(ReadStep),
}

/// What an answer of the remote leads to.
pub enum ResponseStep<A> {
    /// Nobody waits for it.
    Ignored,
    /// The reader is to be told.
    Answer { answer: A, result: Result<Value, ()> },
    /// The rest of the range is to be asked for; where that cannot be sent, the
    /// request is to be forgotten and its reader told so.
    Continue { request: FileContentsRequest },
}

impl View for Admission {
    type V = AdmissionView;

    open spec fn view(&self) -> AdmissionView {
        AdmissionView {
            generation: self.generation,
            request: self.request,
            operation: self.operation@,
            reserved: self.reserved,
        }
    }
}

impl AdmissionView {
    /// The unanswered request that an admission becomes once it is sent.
    pub open spec fn pending<A>(self, answer: A) -> PendingView<A> {
        PendingView {
            id: self.request.stream_id,
            generation: self.generation,
            operation: self.operation,
            answer,
            reserved: self.reserved,
        }
    }
}

#[verifier::reject_recursive_types(A)]
pub struct Transfer<A> {
    pub state: State<A>,
    pub max_entries: usize,
    pub max_chunk: u32,
}

/// What asking for the size of a file comes to: `before` and `after` it, with the requests
/// `gone` that nobody waits for any more.
pub open spec fn size_step<A>(
    before: Transfer<A>,
    after: Transfer<A>,
    generation: u64,
    inode: u64,
    gone: Seq<u32>,
    step: Result<SizeStep, ()>,
) -> bool {
    let s = before.state@;
    match s.lookup(generation, inode) {
        Lookup::Unavailable => step is Err && after.state@ == s,
        Lookup::Known(size) => step == Ok::<SizeStep, ()>(SizeStep::Known(size)) && after.state@
            == s,
        Lookup::Unknown { index, data_id } => {
            let room = s.prune(gone);
            &&& after.state@ == s.after_allocate(gone, SIZE_ANSWER as int)
            &&& step is Ok <==> room.can_admit(SIZE_ANSWER as int)
            &&& match step {
                Ok(SizeStep::Ask(admission)) => admission@ == room.size_admission(
                    generation,
                    inode,
                    index,
                    data_id,
                ),
                Ok(SizeStep::Known(_)) => false,
                Err(()) => true,
            }
        },
    }
}

/// What reading a range of a file whose size is known comes to.
pub open spec fn read_step<A>(
    before: Transfer<A>,
    after: Transfer<A>,
    generation: u64,
    inode: u64,
    position: u64,
    size: u32,
    gone: Seq<u32>,
    step: Result<ReadStep, ()>,
) -> bool {
    let s = before.state@;
    match s.read_plan(generation, inode, position, size) {
        ReadPlan::Unavailable => step is Err && after.state@ == s,
        ReadPlan::Empty => step == Ok::<ReadStep, ()>(ReadStep::Empty) && after.state@ == s,
        ReadPlan::Fetch { index, data_id, amount } => {
            let room = s.prune(gone);
            &&& after.state@ == s.after_allocate(gone, amount as int)
            &&& step is Ok <==> room.can_admit(amount as int)
            &&& match step {
                Ok(ReadStep::Ask(admission)) => admission@ == room.range_admission(
                    generation,
                    position,
                    before.max_chunk,
                    index,
                    data_id,
                    amount,
                ),
                Ok(ReadStep::Empty) => false,
                Err(()) => true,
            }
        },
    }
}

impl<A> Transfer<A> {
    pub open spec fn wf(&self) -> bool {
        &&& self.state.wf()
        &&& self.max_chunk >= 1
        &&& self.state@.in_chunks(self.max_chunk)
    }

    /// The limits that a transfer was made with stay as they are.
    pub open spec fn same_limits(&self, other: &Transfer<A>) -> bool {
        self.max_entries == other.max_entries && self.max_chunk == other.max_chunk
    }

    pub fn new(max_entries: usize, max_chunk: u32) -> (transfer: Self)
        ensures
            transfer.wf(),
            transfer.state@ == StateView::<A>::initial(),
            transfer.max_entries == max_entries,
            transfer.max_chunk == if max_chunk == 0 { 1 } else { max_chunk },
    {
        Transfer {
            state: State::new(),
            max_entries,
            max_chunk: if max_chunk == 0 { 1 } else { max_chunk },
        }
    }

    /// Takes over what the remote can do. A change ends every selection.
    pub fn capabilities(&mut self, stream: bool, huge: bool) -> (released: Vec<u64>)
        requires
            old(self).wf(),
        ensures
            final(self).wf(),
            final(self).same_limits(old(self)),
            final(self).state@ == old(self).state@.capabilities(stream, huge),
            released@ == if old(self).state.stream != stream || old(self).state.huge != huge {
                old(self).state@.shutdown_released()
            } else {
                Seq::empty()
            },
    {
        proof {
            lemma_shutdown_wf(self.state@);
            assert(self.state@.capabilities(stream, huge).wf());
        }
        let ghost before = self.state@;
        let released = if self.state.stream != stream || self.state.huge != huge {
            self.state.shutdown()
        } else {
            Vec::new()
        };
        self.state.stream = stream;
        self.state.huge = huge;
        assert(self.state@ =~= before.capabilities(stream, huge));
        released
    }

    pub fn enabled(&self) -> (enabled: bool)
        ensures
            enabled == (self.state.stream && !self.state.closed),
    {
        self.state.stream && !self.state.closed
    }

    /// The generation that is advertised now.
    pub fn generation(&self) -> (generation: Option<u64>)
        ensures
            generation == if self.state@.live(self.state.generation) {
                Some(self.state.generation)
            } else {
                None
            },
    {
        if self.state.live(self.state.generation) {
            Some(self.state.generation)
        } else {
            None
        }
    }

    /// Supersedes the live selection. Retired selections keep serving.
    pub fn retire_generation(&mut self) -> (result: (Option<u64>, Vec<u64>))
        requires
            old(self).wf(),
        ensures
            final(self).wf(),
            final(self).same_limits(old(self)),
            final(self).state@ == old(self).state@.retire_current(),
            result.0 == if final(self).state@.live(final(self).state.generation) {
                Some(final(self).state.generation)
            } else {
                None
            },
            result.1@ == old(self).state@.retire_released(),
    {
        proof {
            lemma_selection_chunks(self.state@, Seq::empty(), self.max_chunk);
        }
        let released = self.state.retire_current();
        (self.generation(), released)
    }

    /// Releases the retired selections covered by the given locks: the remote is now
    /// free to drop the bytes that were read from it.
    pub fn release_locks(&mut self, data_ids: &[u32]) -> (released: Vec<u64>)
        requires
            old(self).wf(),
        ensures
            final(self).wf(),
            final(self).same_limits(old(self)),
            final(self).state@ == old(self).state@.release_locks(data_ids@),
            released@ == old(self).state@.lock_released(data_ids@),
    {
        proof {
            lemma_selection_chunks(self.state@, data_ids@, self.max_chunk);
        }
        self.state.release_locks(data_ids)
    }

    /// Ends every selection for good.
    pub fn close(&mut self) -> (released: Vec<u64>)
        requires
            old(self).wf(),
        ensures
            final(self).wf(),
            final(self).same_limits(old(self)),
            final(self).state@ == old(self).state@.close(),
            released@ == old(self).state@.shutdown_released(),
    {
        proof {
            lemma_shutdown_wf(self.state@);
        }
        let ghost before = self.state@;
        let released = self.state.shutdown();
        self.state.closed = true;
        assert(self.state@ =~= before.close());
        released
    }

    /// Takes a file list over as the live selection, if `expected` is still live. Gives
    /// the new generation, the names of its top-level entries, and the generations that
    /// ended for it. Where no generation is left the state closes.
    pub fn accept_for(
        &mut self,
        expected: u64,
        files: &[FileDescriptor],
        data_id: Option<u32>,
    ) -> (accepted: Option<(u64, Vec<String>, Vec<u64>)>)
        requires
            old(self).wf(),
        ensures
            final(self).wf(),
            final(self).same_limits(old(self)),
            accepted is Some <==> old(self).state@.live(expected) && old(self).state.generation
                < u64::MAX,
            match accepted {
                Some((generation, roots, released)) => {
                    &&& final(self).state@ == old(self).state@.accepted(
                        files@,
                        old(self).max_entries,
                        data_id,
                    )
                    &&& generation == final(self).state.generation
                    &&& roots@.map_values(|n: String| n@)
                        == final(self).state@.current.tree.root_names()
                    &&& released@ == old(self).state@.retire_released()
                },
                None => final(self).state@ == if old(self).state@.live(expected) {
                    old(self).state@.retire_current()
                } else {
                    old(self).state@
                },
            },
    {
        if !self.state.live(expected) {
            return None;
        }
        let ghost before = self.state@;
        proof {
            lemma_selection_chunks(before, Seq::empty(), self.max_chunk);
        }
        let released = self.state.retire_current();
        if !self.state.live(self.state.generation) {
            return None;
        }
        proof {
            lemma_accept_wf(before, files@, self.max_entries, data_id);
        }
        let tree = RemoteTree::build(files, self.max_entries, self.state.next_base);
        self.state.next_base = tree.next_base();
        self.state.current = Selection { tree, data_id };
        assert(self.state@ =~= before.accepted(files@, self.max_entries, data_id));
        let roots = self.state.current.tree.root_names();
        Some((self.state.generation, roots, released))
    }

    /// Hands out the next stream number, if there is room for `bytes` more. The requests
    /// `gone`, which nobody waits for any more, make room first.
    pub fn allocate(&mut self, bytes: usize, gone: &[u32]) -> (id: Result<u32, ()>)
        requires
            old(self).wf(),
        ensures
            final(self).wf(),
            final(self).same_limits(old(self)),
            final(self).state@ == old(self).state@.after_allocate(gone@, bytes as int),
            match id {
                Ok(id) => old(self).state@.prune(gone@).can_admit(bytes as int)
                    && old(self).state.next_stream == Some(id),
                Err(()) => !old(self).state@.prune(gone@).can_admit(bytes as int),
            },
    {
        proof {
            lemma_allocate_wf(self.state@, gone@, bytes as int);
            lemma_request_chunks(
                self.state@,
                gone@,
                bytes as int,
                0,
                true,
                Seq::empty(),
                true,
                self.max_chunk,
            );
        }
        self.state.prune(gone);
        if self.state.pending.len() >= MAX_PENDING || bytes > MAX_BUFFERED - self.state.reserved() {
            return Err(());
        }
        match self.state.next_stream {
            None => Err(()),
            Some(id) => {
                self.state.next_stream = id.checked_add(1);
                Ok(id)
            },
        }
    }

    /// The size of a file: known, or to be asked for.
    pub fn size(&mut self, generation: u64, inode: u64, gone: &[u32]) -> (step: Result<
        SizeStep,
        (),
    >)
        requires
            old(self).wf(),
        ensures
            final(self).wf(),
            final(self).same_limits(old(self)),
            size_step(*old(self), *final(self), generation, inode, gone@, step),
            step matches Ok(SizeStep::Ask(admission)) ==> forall|answer: A|
                #![trigger admission@.pending(answer)]
                final(self).state@.admits(admission@.pending(answer))
                    && admission@.pending(answer).in_chunks(final(self).max_chunk),
    {
        let huge = self.state.huge;
        let selection = match self.state.selection(generation) {
            Some(selection) => selection,
            None => {
                return Err(());
            },
        };
        let node = match selection.tree.node(inode) {
            Some(node) => node,
            None => {
                return Err(());
            },
        };
        if let Some(size) = node.size {
            return if !huge && size > u32::MAX as u64 {
                Err(())
            } else {
                Ok(SizeStep::Known(size))
            };
        }
        let index: i32 = match node.kind {
            RemoteNodeKind::File { index } => index,
            RemoteNodeKind::Directory => {
                return Err(());
            },
        };
        let data_id = selection.data_id;
        let ghost before = self.state@;
        let id: u32 = match self.allocate(SIZE_ANSWER as usize, gone) {
            Ok(id) => id,
            Err(()) => {
                return Err(());
            },
        };
        let request = FileContentsRequest {
            stream_id: id,
            index,
            flags: FILE_CONTENTS_SIZE,
            position: 0,
            requested_size: SIZE_ANSWER,
            data_id,
        };
        proof {
            lemma_allocate_wf(before, gone@, SIZE_ANSWER as int);
            lemma_admitted(before.prune(gone@), self.state@, generation, before);
        }
        Ok(
            SizeStep::Ask(
                Admission {
                    generation,
                    request,
                    operation: Operation::Size { inode },
                    reserved: SIZE_ANSWER as usize,
                },
            ),
        )
    }

    /// The bytes of a file from `position` on, up to `size` of them, once its size is
    /// known: nothing, or to be asked for chunk by chunk.
    pub fn read(
        &mut self,
        generation: u64,
        inode: u64,
        position: u64,
        size: u32,
        gone: &[u32],
    ) -> (step: Result<ReadStep, ()>)
        requires
            old(self).wf(),
        ensures
            final(self).wf(),
            final(self).same_limits(old(self)),
            read_step(*old(self), *final(self), generation, inode, position, size, gone@, step),
            step matches Ok(ReadStep::Ask(admission)) ==> forall|answer: A|
                #![trigger admission@.pending(answer)]
                final(self).state@.admits(admission@.pending(answer))
                    && admission@.pending(answer).in_chunks(final(self).max_chunk),
    {
        if size > MAX_READ {
            return Err(());
        }
        let selection = match self.state.selection(generation) {
            Some(selection) => selection,
            None => {
                return Err(());
            },
        };
        let node = match selection.tree.node(inode) {
            Some(node) => node,
            None => {
                return Err(());
            },
        };
        let index: i32 = match node.kind {
            RemoteNodeKind::File { index } => index,
            RemoteNodeKind::Directory => {
                return Err(());
            },
        };
        let total: u64 = match node.size {
            Some(total) => total,
            None => {
                return Err(());
            },
        };
        let left: u64 = total.saturating_sub(position);
        let amount: u64 = if left <= size as u64 { left } else { size as u64 };
        if amount == 0 {
            return Ok(ReadStep::Empty);
        }
        let data_id = selection.data_id;
        let ghost before = self.state@;
        let id: u32 = match self.allocate(amount as usize, gone) {
            Ok(id) => id,
            Err(()) => {
                return Err(());
            },
        };
        let mut fetch = new_fetch(id, index, amount, self.max_chunk, data_id, MAX_READ as u64);
        let ghost made = fetch_view(fetch);
        let request = match next_request(&mut fetch) {
            Some(request) => FileContentsRequest { position, ..request },
            None => {
                return Err(());
            },
        };
        proof {
            lemma_allocate_wf(before, gone@, amount as int);
            lemma_admitted(before.prune(gone@), self.state@, generation, before);
        }
        let admission = Admission {
            generation,
            request,
            operation: Operation::Range { base: position, fetch },
            reserved: amount as usize,
        };
        assert(admission@ =~= before.prune(gone@).range_admission(
            generation,
            position,
            self.max_chunk,
            index,
            data_id,
            amount,
        ));
        Ok(ReadStep::Ask(admission))
    }

    /// Begins a read: its range is read at once if the size of the file is known and may be
    /// told, and otherwise once the remote has told the size.
    pub fn start_read(
        &mut self,
        generation: u64,
        inode: u64,
        position: u64,
        size: u32,
        gone: &[u32],
    ) -> (step: Result<StartStep, ()>)
        requires
            old(self).wf(),
        ensures
            final(self).wf(),
            final(self).same_limits(old(self)),
            match old(self).state@.lookup(generation, inode) {
                Lookup::Unavailable => step is Err && final(self).state@ == old(self).state@,
                Lookup::Known(_) => read_step(
                    *old(self),
                    *final(self),
                    generation,
                    inode,
                    position,
                    size,
                    gone@,
                    match step {
                        Ok(StartStep::Range(range)) => Ok(range),
                        _ => Err(()),
                    },
                ) && !(step matches Ok(StartStep::Size(_))),
                Lookup::Unknown { .. } => size_step(
                    *old(self),
                    *final(self),
                    generation,
                    inode,
                    gone@,
                    match step {
                        Ok(StartStep::Size(admission)) => Ok(SizeStep::Ask(admission)),
                        _ => Err(()),
                    },
                ) && !(step matches Ok(StartStep::Range(_))),
            },
            step matches Ok(StartStep::Size(admission)) ==> forall|answer: A|
                #![trigger admission@.pending(answer)]
                final(self).state@.admits(admission@.pending(answer))
                    && admission@.pending(answer).in_chunks(final(self).max_chunk),
            step matches Ok(StartStep::Range(ReadStep::Ask(admission))) ==> forall|answer: A|
                #![trigger admission@.pending(answer)]
                final(self).state@.admits(admission@.pending(answer))
                    && admission@.pending(answer).in_chunks(final(self).max_chunk),
    {
        match self.size(generation, inode, gone) {
            Err(()) => Err(()),
            Ok(SizeStep::Ask(admission)) => Ok(StartStep::Size(admission)),
            Ok(SizeStep::Known(_)) => match self.read(generation, inode, position, size, gone) {
                Ok(range) => Ok(StartStep::Range(range)),
                Err(()) => Err(()),
            },
        }
    }

    /// Joins an admitted request to the unanswered ones if it could be `sent`.
    pub fn submit(&mut self, admission: Admission, answer: A, sent: bool) -> (submitted: Result<
        (),
        (),
    >)
        requires
            old(self).wf(),
            old(self).state@.admits(admission@.pending(answer)),
            admission@.pending(answer).in_chunks(old(self).max_chunk),
        ensures
            final(self).wf(),
            final(self).same_limits(old(self)),
            submitted is Ok <==> sent,
            final(self).state@ == if sent {
                StateView {
                    pending: old(self).state@.pending.push(admission@.pending(answer)),
                    ..old(self).state@
                }
            } else {
                old(self).state@
            },
    {
        if !sent {
            return Err(());
        }
        proof {
            lemma_admit_wf(self.state@, admission@.pending(answer));
        }
        let ghost before = self.state@;
        let Admission { generation, request, operation, reserved } = admission;
        self.state.pending.push(
            Pending { id: request.stream_id, generation, operation, answer, reserved },
        );
        assert(self.state@.pending =~= before.pending.push(admission@.pending(answer)));
        Ok(())
    }

    /// Gives up an unanswered request: its time ran out, or its next part could not be
    /// sent. The reader's answer is handed back.
    pub fn forget(&mut self, id: u32) -> (answer: Option<A>)
        requires
            old(self).wf(),
        ensures
            final(self).wf(),
            final(self).same_limits(old(self)),
            final(self).state@ == old(self).state@.forget(id),
            answer == if old(self).state@.is_pending(id) {
                Some(old(self).state@.pending[old(self).state@.pending_index(id)].answer)
            } else {
                None
            },
    {
        proof {
            lemma_request_chunks(
                self.state@,
                Seq::empty(),
                0,
                id,
                true,
                Seq::empty(),
                true,
                self.max_chunk,
            );
        }
        self.state.forget(id)
    }

    /// Matches an answer of the remote with the request it answers. `unwanted` says that
    /// the reader has gone away.
    pub fn on_response(&mut self, response: FileContentsResponse, unwanted: bool) -> (step:
        ResponseStep<A>)
        requires
            old(self).wf(),
        ensures
            final(self).wf(),
            final(self).same_limits(old(self)),
            final(self).state@ == old(self).state@.responded(
                response.stream_id,
                response.is_error,
                response.data@,
                unwanted,
            ),
            ({
                let s = old(self).state@;
                let id = response.stream_id;
                let p = s.pending[s.pending_index(id)];
                if !s.is_pending(id) || unwanted {
                    step is Ignored
                } else {
                    match p.outcome(s, response.is_error, response.data@) {
                        Outcome::Failed => step == (ResponseStep::Answer {
                            answer: p.answer,
                            result: Err(()),
                        }),
                        Outcome::Sized(size) => step == (ResponseStep::Answer {
                            answer: p.answer,
                            result: Ok(Value::Size(size)),
                        }),
                        Outcome::Read(bytes) => step matches ResponseStep::Answer {
                            answer,
                            result: Ok(Value::Bytes(data)),
                        } && answer == p.answer && data@ == bytes,
                        Outcome::More { request, .. } => step == (ResponseStep::Continue::<A> {
                            request,
                        }),
                    }
                }
            }),
    {
        let ghost before = self.state@;
        proof {
            lemma_request_chunks(
                before,
                Seq::empty(),
                0,
                response.stream_id,
                response.is_error,
                response.data@,
                unwanted,
                self.max_chunk,
            );
        }
        let id: u32 = response.stream_id;
        let at: usize = match self.state.pending_index(id) {
            Some(at) => at,
            None => {
                return ResponseStep::Ignored;
            },
        };
        proof {
            lemma_remove_wf(before, at as int);
        }
        let pending = self.state.pending.remove(at);
        let ghost p = pending@;
        assert(self.state@.pending =~= before.pending.remove(at as int));
        assert(self.state@ =~= before.forget(id));
        assert(p == before.pending[at as int]);
        assert(p.wf());
        if unwanted {
            return ResponseStep::Ignored;
        }
        let Pending { id, generation, operation, answer, reserved } = pending;
        match operation {
            Operation::Size { inode } => {
                if response.is_error || response.data.len() != SIZE_ANSWER as usize {
                    return ResponseStep::Answer { answer, result: Err(()) };
                }
                let size: u64 = u64_from_le_bytes(response.data.as_slice());
                proof {
                    lemma_same_files(before, self.state@, generation, inode);
                }
                let stored = self.state.store_size(generation, inode, size);
                if (!self.state.huge && size > u32::MAX as u64) || !stored {
                    ResponseStep::Answer { answer, result: Err(()) }
                } else {
                    ResponseStep::Answer { answer, result: Ok(Value::Size(size)) }
                }
            },
            Operation::Range { base, fetch } => {
                if response.is_error {
                    return ResponseStep::Answer { answer, result: Err(()) };
                }
                let mut fetch = fetch;
                match gather(&mut fetch, id, response.data.as_slice()) {
                    Progress::Failed => ResponseStep::Answer { answer, result: Err(()) },
                    Progress::Complete => {
                        let data = into_data(fetch);
                        ResponseStep::Answer { answer, result: Ok(Value::Bytes(data)) }
                    },
                    Progress::InProgress => {
                        if let Some(request) = next_request(&mut fetch) {
                            if let Some(position) = base.checked_add(request.position) {
                                let pending = Pending {
                                    id,
                                    generation,
                                    operation: Operation::Range { base, fetch },
                                    answer,
                                    reserved,
                                };
                                let ghost next = pending@;
                                self.state.pending.insert(at, pending);
                                proof {
                                    lemma_update_wf(before, at as int, next);
                                    assert(self.state@.pending =~= before.pending.update(
                                        at as int,
                                        next,
                                    ));
                                    assert(self.state@ =~= before.responded(
                                        id,
                                        false,
                                        response.data@,
                                        false,
                                    ));
                                }
                                return ResponseStep::Continue {
                                    request: FileContentsRequest { position, ..request },
                                };
                            }
                        }
                        ResponseStep::Answer { answer, result: Err(()) }
                    },
                }
            },
        }
    }

    /// The tree of a selection that still answers.
    pub fn tree(&self, generation: u64) -> (tree: Option<&RemoteTree>)
        requires
            self.wf(),
        ensures
            match tree {
                Some(t) => self.state@.selection(generation) is Some && t@
                    == self.state@.selection(generation)->0.tree && t.wf(),
                None => self.state@.selection(generation) is None,
            },
    {
        match self.state.selection(generation) {
            Some(selection) => Some(&selection.tree),
            None => None,
        }
    }

    /// Like [`Self::tree`], but only for the selection that is advertised.
    pub fn live_tree(&self, generation: u64) -> (tree: Option<&RemoteTree>)
        requires
            self.wf(),
        ensures
            match tree {
                Some(t) => self.state@.live(generation) && *t == self.state.current.tree && t.wf(),
                None => !self.state@.live(generation),
            },
    {
        if self.state.live(generation) {
            Some(&self.state.current.tree)
        } else {
            None
        }
    }
}

/// The size that a reader was answered. Where the answer was dropped, nothing came.
pub fn told_size(answer: Option<Result<Value, ()>>) -> (size: Result<u64, ()>)
    ensures
        size == match answer {
            Some(Ok(Value::Size(size))) => Ok::<u64, ()>(size),
            _ => Err(()),
        },
{
    match answer {
        Some(Ok(Value::Size(size))) => Ok(size),
        _ => Err(()),
    }
}

/// The bytes that a reader was answered. Where the answer was dropped, nothing came.
pub fn told_bytes(answer: Option<Result<Value, ()>>) -> (bytes: Result<Vec<u8>, ()>)
    ensures
        bytes == match answer {
            Some(Ok(Value::Bytes(bytes))) => Ok::<Vec<u8>, ()>(bytes),
            _ => Err(()),
        },
{
    match answer {
        Some(Ok(Value::Bytes(bytes))) => Ok(bytes),
        _ => Err(()),
    }
}

/// A file of a selection does not depend on the requests.
proof fn lemma_same_files<A>(s: StateView<A>, t: StateView<A>, generation: u64, inode: u64)
    requires
        t == (StateView { pending: t.pending, ..s }),
    ensures
        t.is_file(generation, inode) == s.is_file(generation, inode),
{
    if s.is_retiring(generation) {
        let i = choose|i: int| s.retiring_at(generation, i);
        assert(t.retiring_at(generation, i));
    }
    if t.is_retiring(generation) {
        let i = choose|i: int| t.retiring_at(generation, i);
        assert(s.retiring_at(generation, i));
    }
}

/// After a stream number is handed out, all that wait have smaller ones, and a selection
/// that served before goes on.
proof fn lemma_admitted<A>(room: StateView<A>, after: StateView<A>, generation: u64, s: StateView<A>)
    requires
        room.wf(),
        room.next_stream is Some,
        after == room.allocated(),
        s.servable(generation),
        s.generation == room.generation,
        s.retiring == room.retiring,
    ensures
        after.pending == room.pending,
        forall|i: int|
            0 <= i < after.pending.len() ==> (#[trigger] after.pending[i]).id
                < room.next_stream->0,
        after.id_spent(room.next_stream->0),
        after.generation == generation || after.is_retiring(generation),
{
    assert forall|i: int| 0 <= i < after.pending.len() implies (#[trigger] after.pending[i]).id
        < room.next_stream->0 by {
        assert(room.id_spent(room.pending[i].id));
    }
    if s.generation != generation {
        let i = choose|i: int| s.retiring_at(generation, i);
        assert(after.retiring_at(generation, i));
    }
}

} // verus!
