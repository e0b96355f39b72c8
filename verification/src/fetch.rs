//! Byte ranges of a remote file, fetched chunk by chunk.

use ironrdp_cliprdr::chunked_fetch::{ChunkedFetch, ChunkedFetchProgress};
use ironrdp_cliprdr::pdu::FileContentsResponse as PduResponse;
use vstd::prelude::*;

verus! {

/// Bits of [`FileContentsRequest::flags`]: the size of a file is asked for.
pub const FILE_CONTENTS_SIZE: u32 = 1;

/// Bits of [`FileContentsRequest::flags`]: a range of its bytes is asked for.
pub const FILE_CONTENTS_RANGE: u32 = 2;

/// A request for the size or a byte range of one remote file.
#[derive(Clone, Copy, PartialEq, Eq, Debug, Structural)]
pub struct FileContentsRequest {
    pub stream_id: u32,
    pub index: i32,
    pub flags: u32,
    pub position: u64,
    pub requested_size: u32,
    pub data_id: Option<u32>,
}

/// The remote's answer to one [`FileContentsRequest`].
pub struct FileContentsResponse {
    pub stream_id: u32,
    pub is_error: bool,
    pub data: Vec<u8>,
}

/// How far a fetch has come.
#[derive(Clone, Copy, PartialEq, Eq, Debug, Structural)]
pub enum Progress {
    InProgress,
    Complete,
    Failed,
}

/// `ironrdp_cliprdr::chunked_fetch::ChunkedFetch`, which gathers one range.
#[verifier::external_type_specification]
#[verifier::external_body]
pub struct ExChunkedFetch(ChunkedFetch);

/// The bytes that a fetch has gathered.
pub uninterp spec fn fetch_received(fetch: ChunkedFetch) -> Seq<u8>;

/// What a fetch was made with: its stream, the file's index, the number of bytes
/// to gather, the most to ask for at once, and the lock to read under.
pub uninterp spec fn fetch_order(fetch: ChunkedFetch) -> (u32, i32, u64, u32, Option<u32>);

/// Whether the next request of a fetch is due.
pub uninterp spec fn fetch_ready(fetch: ChunkedFetch) -> bool;

/// The number of bytes asked for by the request of a fetch that is unanswered.
pub uninterp spec fn fetch_asked(fetch: ChunkedFetch) -> Option<u32>;

/// What a fetch stands for.
#[verifier::ext_equal]
pub struct FetchView {
    pub stream_id: u32,
    pub index: i32,
    pub total: u64,
    pub chunk: u32,
    pub data_id: Option<u32>,
    pub received: Seq<u8>,
    pub ready: bool,
    pub asked: Option<u32>,
}

pub open spec fn fetch_view(fetch: ChunkedFetch) -> FetchView {
    let order = fetch_order(fetch);
    FetchView {
        stream_id: order.0,
        index: order.1,
        total: order.2,
        chunk: order.3,
        data_id: order.4,
        received: fetch_received(fetch),
        ready: fetch_ready(fetch),
        asked: fetch_asked(fetch),
    }
}

impl FetchView {
    /// How many bytes the next request asks for.
    pub open spec fn due_size(self) -> int {
        let left = self.total - self.received.len();
        if left <= self.chunk {
            left
        } else {
            self.chunk as int
        }
    }

    /// The next request, counted from the start of the range.
    pub open spec fn due_request(self) -> FileContentsRequest {
        FileContentsRequest {
            stream_id: self.stream_id,
            index: self.index,
            flags: FILE_CONTENTS_RANGE,
            position: self.received.len() as u64,
            requested_size: self.due_size() as u32,
            data_id: self.data_id,
        }
    }

    /// This fetch once its next request is made.
    pub open spec fn requested(self) -> FetchView {
        FetchView { ready: false, asked: Some(self.due_size() as u32), ..self }
    }

    /// What an answer with `data` makes of the unanswered request.
    pub open spec fn progress(self, data: Seq<u8>) -> Progress {
        if data.len() == 0 || data.len() > self.asked->0 {
            Progress::Failed
        } else if self.received.len() + data.len() >= self.total {
            Progress::Complete
        } else {
            Progress::InProgress
        }
    }

    /// This fetch once `data` is gathered.
    pub open spec fn gathered(self, data: Seq<u8>) -> FetchView {
        FetchView {
            received: self.received + data,
            ready: self.received.len() + data.len() < self.total,
            asked: None,
            ..self
        }
    }
}

/// `ChunkedFetch::new`: nothing is gathered yet, and the first request is due
/// where there is something to gather and it is within `max_total_size`. A chunk
/// size of zero counts as one.
#[verifier::external_body]
pub(crate) fn new_fetch(
    stream_id: u32,
    file_index: i32,
    total_size: u64,
    chunk_size: u32,
    clip_data_id: Option<u32>,
    max_total_size: u64,
) -> (fetch: ChunkedFetch)
    ensures
        fetch_received(fetch) == Seq::<u8>::empty(),
        fetch_order(fetch) == (
            stream_id,
            file_index,
            total_size,
            if chunk_size == 0 { 1u32 } else { chunk_size },
            clip_data_id,
        ),
        fetch_ready(fetch) == (0 < total_size <= max_total_size),
        fetch_asked(fetch) is None,
{
    ChunkedFetch::new(stream_id, file_index, total_size, chunk_size, clip_data_id, max_total_size)
}

/// `ChunkedFetch::next_request`, where one is due: the request follows what has
/// been gathered, asks for what is left or for one chunk if that is less, and is
/// then the unanswered one.
#[verifier::external_body]
pub(crate) fn next_request(fetch: &mut ChunkedFetch) -> (request: Option<FileContentsRequest>)
    requires
        fetch_ready(*old(fetch)),
    ensures
        request == Some(fetch_view(*old(fetch)).due_request()),
        fetch_view(*final(fetch)) == fetch_view(*old(fetch)).requested(),
{
    match fetch.next_request() {
        Some(request) => Some(
            FileContentsRequest {
                stream_id: request.stream_id,
                index: request.index,
                flags: request.flags.bits(),
                position: request.position,
                requested_size: request.requested_size,
                data_id: request.data_id,
            },
        ),
        None => None,
    }
}

/// `ChunkedFetch::on_response` on an answer that carries data, while a request is
/// unanswered: no data, or more than was asked for, fails the fetch; any other data
/// is gathered, and the fetch is complete when all of it is there.
#[verifier::external_body]
pub(crate) fn gather(fetch: &mut ChunkedFetch, stream_id: u32, data: &[u8]) -> (progress: Progress)
    requires
        fetch_asked(*old(fetch)) is Some,
    ensures
        progress == fetch_view(*old(fetch)).progress(data@),
        progress != Progress::Failed ==> fetch_view(*final(fetch)) == fetch_view(
            *old(fetch),
        ).gathered(data@),
{
    let response = PduResponse::new_data_response(stream_id, data);
    match fetch.on_response(&response) {
        ChunkedFetchProgress::InProgress => Progress::InProgress,
        ChunkedFetchProgress::Complete => Progress::Complete,
        ChunkedFetchProgress::Failed => Progress::Failed,
    }
}

/// `ChunkedFetch::into_data`: the bytes gathered.
#[verifier::external_body]
pub(crate) fn into_data(fetch: ChunkedFetch) -> (data: Vec<u8>)
    ensures
        data@ == fetch_received(fetch),
{
    fetch.into_data()
}

} // verus!
