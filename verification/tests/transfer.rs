//! Reads driven step by step, with the remote played by hand.

use hypr_clipboard::fetch::{
    FileContentsRequest, FileContentsResponse, FILE_CONTENTS_RANGE, FILE_CONTENTS_SIZE,
};
use hypr_clipboard::model::{MAX_BUFFERED, MAX_PENDING, MAX_READ, MAX_RETIRING};
use hypr_clipboard::transfer::{
    told_bytes, told_size, Admission, ReadStep, ResponseStep, SizeStep, StartStep, Transfer,
    Value,
};
use hypr_clipboard::tree::FileDescriptor;
use std::collections::VecDeque;
use std::sync::mpsc::{channel, Receiver, Sender, TryRecvError};

type Answer = Result<Value, ()>;

enum Stage {
    Sizing(Receiver<Answer>),
    Reading(Receiver<Answer>),
    Done(Result<Vec<u8>, ()>),
}

/// One read under way.
struct Reader {
    generation: u64,
    inode: u64,
    position: u64,
    size: u32,
    stage: Stage,
}

/// A transfer with the channel that its requests leave by.
struct Client {
    transfer: Transfer<Sender<Answer>>,
    events: VecDeque<FileContentsRequest>,
    connected: bool,
    /// Requests whose reader has gone away.
    gone: Vec<u32>,
}

/// What came to a receiver, or nothing if it is still waiting.
fn arrived(receiver: &Receiver<Answer>) -> Option<Option<Answer>> {
    match receiver.try_recv() {
        Ok(answer) => Some(Some(answer)),
        Err(TryRecvError::Disconnected) => Some(None),
        Err(TryRecvError::Empty) => None,
    }
}

impl Client {
    fn new(max_entries: usize, chunk: u32) -> Client {
        Client {
            transfer: Transfer::new(max_entries, chunk),
            events: VecDeque::new(),
            connected: true,
            gone: Vec::new(),
        }
    }

    fn send(&mut self, request: FileContentsRequest) -> bool {
        if self.connected {
            self.events.push_back(request);
        }
        self.connected
    }

    fn submit(&mut self, admission: Admission) -> Result<Receiver<Answer>, ()> {
        let (answer, receiver) = channel();
        let sent = self.send(admission.request);
        self.transfer.submit(admission, answer, sent)?;
        Ok(receiver)
    }

    fn read(&mut self, generation: u64, inode: u64, position: u64, size: u32) -> Reader {
        let gone = self.gone.clone();
        let stage = match self.transfer.start_read(generation, inode, position, size, &gone) {
            Err(()) => Stage::Done(Err(())),
            Ok(StartStep::Range(step)) => self.ask(step),
            Ok(StartStep::Size(admission)) => match self.submit(admission) {
                Ok(receiver) => Stage::Sizing(receiver),
                Err(()) => Stage::Done(Err(())),
            },
        };
        Reader { generation, inode, position, size, stage }
    }

    fn range(&mut self, generation: u64, inode: u64, position: u64, size: u32) -> Stage {
        let gone = self.gone.clone();
        match self.transfer.read(generation, inode, position, size, &gone) {
            Err(()) => Stage::Done(Err(())),
            Ok(step) => self.ask(step),
        }
    }

    fn ask(&mut self, step: ReadStep) -> Stage {
        match step {
            ReadStep::Empty => Stage::Done(Ok(Vec::new())),
            ReadStep::Ask(admission) => match self.submit(admission) {
                Ok(receiver) => Stage::Reading(receiver),
                Err(()) => Stage::Done(Err(())),
            },
        }
    }

    /// Lets a reader take what has arrived for it, and says what it has read if it is done.
    fn settle(&mut self, reader: &mut Reader) -> Option<Result<Vec<u8>, ()>> {
        loop {
            let next = match &reader.stage {
                Stage::Done(result) => return Some(result.clone()),
                Stage::Sizing(receiver) => match told_size(arrived(receiver)?) {
                    Ok(_) => None,
                    Err(()) => Some(Stage::Done(Err(()))),
                },
                Stage::Reading(receiver) => Some(Stage::Done(told_bytes(arrived(receiver)?))),
            };
            reader.stage = match next {
                Some(stage) => stage,
                None => self.range(reader.generation, reader.inode, reader.position, reader.size),
            };
        }
    }

    /// A read that needs no answer to come to its end.
    fn read_now(
        &mut self,
        generation: u64,
        inode: u64,
        position: u64,
        size: u32,
    ) -> Result<Vec<u8>, ()> {
        let mut reader = self.read(generation, inode, position, size);
        self.settle(&mut reader).expect("the read waits for an answer")
    }

    fn request(&mut self) -> FileContentsRequest {
        self.events.pop_front().expect("expected file contents request")
    }

    fn respond(&mut self, response: FileContentsResponse) {
        let id = response.stream_id;
        let unwanted = self.gone.contains(&id);
        match self.transfer.on_response(response, unwanted) {
            ResponseStep::Ignored => {}
            ResponseStep::Answer { answer, result } => {
                let _ = answer.send(result);
            }
            ResponseStep::Continue { request } => {
                if !self.send(request) {
                    if let Some(answer) = self.transfer.forget(id) {
                        let _ = answer.send(Err(()));
                    }
                }
            }
        }
    }

    fn accept(&mut self, files: &[FileDescriptor], data_id: Option<u32>) -> Option<(u64, Vec<String>)> {
        let generation = self.transfer.generation()?;
        self.transfer
            .accept_for(generation, files, data_id)
            .map(|(generation, roots, _)| (generation, roots))
    }

    fn first_root(&self, generation: u64) -> u64 {
        self.transfer.tree(generation).unwrap().roots()[0]
    }
}

fn file(name: &str) -> FileDescriptor {
    FileDescriptor::new(name.to_string())
}

fn data_response(stream_id: u32, data: &[u8]) -> FileContentsResponse {
    FileContentsResponse { stream_id, is_error: false, data: data.to_vec() }
}

fn size_response(stream_id: u32, size: u64) -> FileContentsResponse {
    data_response(stream_id, &size.to_le_bytes())
}

fn error_response(stream_id: u32) -> FileContentsResponse {
    FileContentsResponse { stream_id, is_error: true, data: Vec::new() }
}

fn setup(files: &[FileDescriptor], chunk: u32) -> (Client, u64, u64) {
    let mut client = Client::new(100, chunk);
    client.transfer.capabilities(true, true);
    let (generation, _) = client.accept(files, Some(77)).unwrap();
    let inode = client.first_root(generation);
    (client, generation, inode)
}

#[test]
fn generated_inbound_replacement_sequences_do_not_reuse_requests() {
    for pattern in 0u32..256 {
        let replacements: Vec<bool> = (0..8).map(|bit| pattern & (1 << bit) != 0).collect();
        let (mut client, mut generation, mut inode) = setup(&[file("same-name").with_file_size(1)], 1);
        let mut last_stream = 0;
        for replace in replacements {
            let mut pending = client.read(generation, inode, 0, 1);
            let req = client.request();
            assert!(req.stream_id > last_stream);
            last_stream = req.stream_id;
            if replace {
                let (next, _) = client
                    .accept(&[file("same-name").with_file_size(1)], Some(last_stream))
                    .unwrap();
                assert!(client.transfer.tree(generation).is_some());
                assert!(client.transfer.live_tree(generation).is_none());
                generation = next;
                inode = client.first_root(generation);
            }
            client.respond(data_response(req.stream_id, b"x"));
            assert_eq!(client.settle(&mut pending).unwrap().unwrap(), b"x");
            assert!(client.events.is_empty());
        }
        client.transfer.close();
        client.transfer.capabilities(true, true);
        assert!(!client.transfer.enabled());
        assert!(client.read_now(generation, inode, 0, 1).is_err());
    }
}

#[test]
fn inbound_known_and_unknown_size_reads() {
    for size in [Some(5), None] {
        let mut known = file("file");
        known.file_size = size;
        let (mut client, generation, inode) = setup(&[known], 100);
        let mut read = client.read(generation, inode, 1, 100);
        if size.is_none() {
            let req = client.request();
            assert_eq!(req.flags, FILE_CONTENTS_SIZE);
            assert_eq!((req.position, req.requested_size, req.data_id), (0, 8, Some(77)));
            client.respond(size_response(req.stream_id, 5));
            assert!(client.settle(&mut read).is_none());
        }
        let req = client.request();
        assert_eq!(req.flags, FILE_CONTENTS_RANGE);
        assert_eq!(
            (req.index, req.position, req.requested_size, req.data_id),
            (0, 1, 4, Some(77))
        );
        client.respond(data_response(req.stream_id, b"BCDE"));
        assert_eq!(client.settle(&mut read).unwrap().unwrap(), b"BCDE");
        assert!(client.read_now(generation, inode, 5, 10).unwrap().is_empty());
        assert!(client.events.is_empty());
    }
}

#[test]
fn inbound_short_range_progress() {
    let (mut client, generation, inode) = setup(&[file("file").with_file_size(100)], 3);
    let mut read = client.read(generation, inode, 20, 7);
    for (offset, requested, data) in [(20, 3, b"ab".as_slice()), (22, 3, b"cde"), (25, 2, b"fg")] {
        let req = client.request();
        assert_eq!((req.position, req.requested_size), (offset, requested));
        client.respond(data_response(req.stream_id, data));
    }
    assert_eq!(client.settle(&mut read).unwrap().unwrap(), b"abcdefg");
    assert!(client.events.is_empty());
}

#[test]
fn a_replaced_selection_serves_until_its_lock_is_released() {
    let (mut client, generation, inode) = setup(&[file("old").with_file_size(5)], 5);
    let mut pending = client.read(generation, inode, 0, 5);
    let old = client.request();

    // A second selection arrives while the remote holds the first under lock 77.
    let (new_generation, _, released) = client
        .transfer
        .accept_for(generation, &[file("new").with_file_size(5)], Some(78))
        .unwrap();
    assert!(released.is_empty(), "a superseded selection under lock keeps its mount");
    assert!(client.transfer.tree(generation).is_some());
    assert!(
        client.transfer.live_tree(generation).is_none(),
        "Wayland must advertise only the newest selection"
    );

    // The read issued before the replacement still completes.
    client.respond(data_response(old.stream_id, b"right"));
    assert_eq!(client.settle(&mut pending).unwrap().unwrap(), b"right");

    // An inode is never reused for a different file.
    assert!(client.read_now(new_generation, inode, 0, 5).is_err());

    // The lock goes, and the retired selection with it.
    let mut stranded = client.read(generation, inode, 0, 5);
    let _ = client.request();
    assert_eq!(client.transfer.release_locks(&[77]), vec![generation]);
    assert!(client.settle(&mut stranded).unwrap().is_err());
    assert!(client.transfer.tree(generation).is_none());
    assert!(client.read_now(generation, inode, 0, 5).is_err());

    // Closing ends the live selection too.
    client.transfer.close();
    assert!(client.accept(&[file("closed")], None).is_none());
    assert!(client.read_now(new_generation, inode, 0, 5).is_err());
}

#[test]
fn an_unlocked_selection_is_ended_by_its_replacement() {
    let mut client = Client::new(100, 5);
    client.transfer.capabilities(true, true);
    let (generation, _) = client.accept(&[file("old").with_file_size(5)], None).unwrap();
    let inode = client.first_root(generation);
    let mut pending = client.read(generation, inode, 0, 5);
    let _ = client.request();

    let (_, _, released) = client
        .transfer
        .accept_for(generation, &[file("new").with_file_size(5)], None)
        .unwrap();
    assert_eq!(
        released,
        vec![generation],
        "an unlocked selection's mount must come down with it"
    );
    assert!(client.settle(&mut pending).unwrap().is_err());
    assert!(client.transfer.tree(generation).is_none());
}

#[test]
fn inbound_timeout_and_response_bounds() {
    let (mut client, generation, inode) = setup(&[file("file").with_file_size(10)], 4);
    for data in [b"12345".as_slice(), b""] {
        let mut pending = client.read(generation, inode, 0, 4);
        let req = client.request();
        client.respond(data_response(req.stream_id + 1, b"late"));
        assert!(client.settle(&mut pending).is_none());
        client.respond(data_response(req.stream_id, data));
        assert!(client.settle(&mut pending).unwrap().is_err());
    }
    // The time of a request runs out.
    let mut pending = client.read(generation, inode, 0, 4);
    let req = client.request();
    drop(client.transfer.forget(req.stream_id));
    assert!(client.settle(&mut pending).unwrap().is_err());
    client.respond(data_response(req.stream_id, b"late"));
    assert!(client.transfer.state.pending.is_empty());
    client.connected = false;
    assert!(client.read_now(generation, inode, 0, 4).is_err());
    assert!(client.transfer.state.pending.is_empty());
}

#[test]
fn inbound_pending_budget() {
    let (mut client, generation, inode) =
        setup(&[file("file").with_file_size(u64::from(MAX_READ))], 4);
    let mut held = Vec::new();
    for _ in 0..MAX_PENDING {
        let reader = client.read(generation, inode, 0, 4);
        held.push((client.request().stream_id, reader));
    }
    assert!(client.read_now(generation, inode, 0, 4).is_err());
    assert!(client.events.is_empty());
    // A locked selection is only superseded; its readers fail once their time runs out.
    assert!(client.transfer.retire_generation().1.is_empty());
    for (id, mut pending) in held {
        drop(client.transfer.forget(id));
        assert!(client.settle(&mut pending).unwrap().is_err());
    }

    let (generation, _) = client
        .accept(&[file("large").with_file_size(u64::from(MAX_READ))], None)
        .unwrap();
    let inode = client.first_root(generation);
    let one = client.read(generation, inode, 0, MAX_READ);
    let first = client.request();
    let mut two = client.read(generation, inode, 0, MAX_READ);
    client.request();
    assert!(client.read_now(generation, inode, 0, 1).is_err());
    drop(one);
    client.gone.push(first.stream_id);
    let mut recovered = client.read(generation, inode, 0, 1);
    let req = client.request();
    client.respond(data_response(req.stream_id, b"x"));
    assert_eq!(client.settle(&mut recovered).unwrap().unwrap(), b"x");
    client.transfer.close();
    assert!(client.settle(&mut two).unwrap().is_err());
}

#[test]
fn inbound_size_failure_and_stream_exhaustion_are_terminal_for_the_request() {
    let (mut client, generation, inode) = setup(&[file("unknown")], 4);
    let mut pending = client.read(generation, inode, 0, 1);
    let req = client.request();
    client.respond(data_response(req.stream_id, &[0; 7]));
    assert!(client.settle(&mut pending).unwrap().is_err());
    client.transfer.state.next_stream = Some(u32::MAX);
    let mut pending = client.read(generation, inode, 0, 1);
    let req = client.request();
    assert_eq!(req.stream_id, u32::MAX);
    client.respond(error_response(req.stream_id));
    assert!(client.settle(&mut pending).unwrap().is_err());
    assert!(client.read_now(generation, inode, 0, 1).is_err());
    assert!(client.events.is_empty());
}

#[test]
fn a_range_larger_than_a_chunk_is_gathered_in_order() {
    let content: Vec<u8> = (0..=255).collect();
    let (mut client, generation, inode) = setup(&[file("bytes").with_file_size(256)], 16);
    let mut read = client.read(generation, inode, 10, 200);
    let mut requests = 0;
    while let Some(req) = client.events.pop_front() {
        requests += 1;
        let start = req.position as usize;
        let end = start + req.requested_size.min(9) as usize;
        client.respond(data_response(req.stream_id, &content[start..end]));
    }
    assert_eq!(requests, 23);
    assert_eq!(client.settle(&mut read).unwrap().unwrap(), &content[10..210]);
}

#[test]
fn an_error_answer_fails_a_range() {
    let (mut client, generation, inode) = setup(&[file("file").with_file_size(10)], 4);
    let mut read = client.read(generation, inode, 0, 4);
    let req = client.request();
    client.respond(error_response(req.stream_id));
    assert!(client.settle(&mut read).unwrap().is_err());
    assert!(client.transfer.state.pending.is_empty());
}

#[test]
fn a_range_whose_rest_cannot_be_sent_fails() {
    let (mut client, generation, inode) = setup(&[file("file").with_file_size(10)], 4);
    let mut read = client.read(generation, inode, 0, 8);
    let req = client.request();
    client.connected = false;
    client.respond(data_response(req.stream_id, b"1234"));
    assert!(client.settle(&mut read).unwrap().is_err());
    assert!(client.transfer.state.pending.is_empty());
}

#[test]
fn an_answer_that_nobody_wants_is_dropped() {
    let (mut client, generation, inode) = setup(&[file("file")], 4);
    let read = client.read(generation, inode, 0, 8);
    let req = client.request();
    drop(read);
    client.gone.push(req.stream_id);
    client.respond(size_response(req.stream_id, 9));
    assert!(client.transfer.state.pending.is_empty());
    assert_eq!(client.transfer.tree(generation).unwrap().node(inode).unwrap().size, None);
}

#[test]
fn a_told_size_is_remembered() {
    let (mut client, generation, inode) = setup(&[file("file")], 4);
    let mut read = client.read(generation, inode, 0, 0);
    let req = client.request();
    client.respond(size_response(req.stream_id, 9));
    assert!(client.settle(&mut read).unwrap().unwrap().is_empty());
    match client.transfer.size(generation, inode, &[]) {
        Ok(SizeStep::Known(size)) => assert_eq!(size, 9),
        _ => panic!("the size is known"),
    }
    assert!(client.events.is_empty());
}

#[test]
fn a_large_size_is_told_only_where_large_files_are_served() {
    let large = u64::from(u32::MAX) + 1;
    for huge in [false, true] {
        let mut client = Client::new(100, 4);
        client.transfer.capabilities(true, huge);
        let (generation, _) = client
            .accept(&[file("asked"), file("listed").with_file_size(large)], None)
            .unwrap();
        let roots = client.transfer.tree(generation).unwrap().roots().clone();
        let mut asked = client.read(generation, roots[0], large - 1, 1);
        let req = client.request();
        client.respond(size_response(req.stream_id, large));
        assert_eq!(client.settle(&mut asked).is_some(), !huge);
        assert_eq!(client.transfer.size(generation, roots[0], &[]).is_ok(), huge);
        assert_eq!(client.transfer.size(generation, roots[1], &[]).is_ok(), huge);
    }
}

#[test]
fn a_read_of_too_much_is_refused() {
    let (mut client, generation, inode) = setup(&[file("file").with_file_size(u64::MAX)], 4);
    assert!(client.read_now(generation, inode, 0, MAX_READ + 1).is_err());
    assert!(client.read_now(generation, inode, u64::MAX, 4).unwrap().is_empty());
    let mut last = client.read(generation, inode, u64::MAX - 6, 100);
    let req = client.request();
    assert_eq!((req.position, req.requested_size), (u64::MAX - 6, 4));
    client.respond(data_response(req.stream_id, b"1234"));
    let req = client.request();
    assert_eq!((req.position, req.requested_size), (u64::MAX - 2, 2));
    client.respond(data_response(req.stream_id, b"56"));
    assert_eq!(client.settle(&mut last).unwrap().unwrap(), b"123456");
}

#[test]
fn directories_and_strange_inodes_cannot_be_read() {
    let (mut client, generation, inode) =
        setup(&[file("folder").with_directory(), file("file").with_file_size(1)], 4);
    assert!(client.read_now(generation, inode, 0, 1).is_err());
    assert!(client.read_now(generation, inode + 2, 0, 1).is_err());
    assert!(client.read_now(generation, 0, 0, 1).is_err());
    assert!(client.read_now(generation, u64::MAX, 0, 1).is_err());
    assert!(client.read_now(generation + 1, inode + 1, 0, 1).is_err());
    assert!(client.events.is_empty());
}

#[test]
fn inodes_stay_apart_across_selections() {
    let mut client = Client::new(100, 4);
    client.transfer.capabilities(true, true);
    let mut seen: Vec<u64> = Vec::new();
    for lock in 0..8 {
        let (generation, roots) = client.accept(&[file("a"), file("b")], Some(lock)).unwrap();
        assert_eq!(roots, vec!["a".to_string(), "b".to_string()]);
        for inode in client.transfer.tree(generation).unwrap().roots() {
            assert!(!seen.contains(inode));
            seen.push(*inode);
        }
    }
    assert_eq!(seen.len(), 16);
}

#[test]
fn the_oldest_retired_selection_makes_room() {
    let mut client = Client::new(100, 4);
    client.transfer.capabilities(true, true);
    let mut generations = Vec::new();
    for lock in 0..=MAX_RETIRING as u32 {
        generations.push(client.accept(&[file("a").with_file_size(4)], Some(lock)).unwrap().0);
    }
    assert_eq!(client.transfer.state.retiring.len(), MAX_RETIRING);
    let oldest = generations[0];
    let inode = client.first_root(oldest);
    let mut pending = client.read(oldest, inode, 0, 4);
    client.request();
    let live = *generations.last().unwrap();
    let (_, _, released) = client.transfer.accept_for(live, &[file("b")], None).unwrap();
    assert_eq!(released, vec![oldest]);
    assert!(client.settle(&mut pending).unwrap().is_err());
    assert!(client.transfer.tree(oldest).is_none());
    assert!(client.transfer.tree(generations[1]).is_some());
    assert!(client.transfer.tree(live).is_some());
}

#[test]
fn a_change_of_capabilities_ends_every_selection() {
    let (mut client, generation, inode) = setup(&[file("old").with_file_size(5)], 5);
    let (live, _) = client.accept(&[file("new").with_file_size(5)], Some(78)).unwrap();
    let mut pending = client.read(generation, inode, 0, 5);
    client.request();
    assert!(client.transfer.capabilities(true, true).is_empty());
    assert!(client.settle(&mut pending).is_none());
    assert_eq!(client.transfer.capabilities(true, false), vec![generation, live]);
    assert!(client.settle(&mut pending).unwrap().is_err());
    assert!(client.transfer.tree(generation).is_none());
    assert!(client.transfer.tree(live).is_none());
    assert_eq!(client.transfer.generation(), Some(live + 1));
    client.transfer.capabilities(false, false);
    assert_eq!(client.transfer.generation(), None);
}

#[test]
fn only_the_covered_selections_are_released() {
    let (mut client, first, _) = setup(&[file("a")], 5);
    let (second, _) = client.accept(&[file("b")], Some(78)).unwrap();
    let (third, _) = client.accept(&[file("c")], Some(79)).unwrap();
    assert!(client.transfer.release_locks(&[79, 80]).is_empty());
    assert_eq!(client.transfer.release_locks(&[78, 77, 79]), vec![first, second]);
    assert!(client.transfer.tree(first).is_none());
    assert!(client.transfer.tree(second).is_none());
    assert!(client.transfer.live_tree(third).is_some());
}

#[test]
fn a_list_for_a_superseded_generation_is_refused() {
    let (mut client, generation, _) = setup(&[file("a")], 5);
    let (now, _) = client.transfer.retire_generation();
    assert_eq!(now, Some(generation + 1));
    assert!(client.transfer.accept_for(generation, &[file("b")], None).is_none());
    assert!(client.transfer.accept_for(generation + 1, &[file("b")], None).is_some());
}

#[test]
fn the_last_generation_closes_the_transfer() {
    let mut client = Client::new(100, 5);
    client.transfer.capabilities(true, true);
    client.transfer.state.generation = u64::MAX;
    assert!(client.transfer.enabled());
    assert!(client.transfer.accept_for(u64::MAX, &[file("b")], None).is_none());
    assert!(!client.transfer.enabled());
    assert_eq!(client.transfer.generation(), None);
    client.transfer.capabilities(false, true);
    client.transfer.capabilities(true, true);
    assert!(!client.transfer.enabled());
}

#[test]
fn a_chunk_of_nothing_counts_as_one_byte() {
    let (mut client, generation, inode) = setup(&[file("file").with_file_size(2)], 0);
    let mut read = client.read(generation, inode, 0, 2);
    for data in [b"x", b"y"] {
        let req = client.request();
        assert_eq!(req.requested_size, 1);
        client.respond(data_response(req.stream_id, data));
    }
    assert_eq!(client.settle(&mut read).unwrap().unwrap(), b"xy");
}

#[test]
fn answers_of_the_wrong_kind_tell_nothing() {
    assert!(told_size(Some(Ok(Value::Bytes(vec![1])))).is_err());
    assert!(told_size(Some(Err(()))).is_err());
    assert!(told_size(None).is_err());
    assert_eq!(told_size(Some(Ok(Value::Size(7)))), Ok(7));
    assert!(told_bytes(Some(Ok(Value::Size(7)))).is_err());
    assert!(told_bytes(Some(Err(()))).is_err());
    assert!(told_bytes(None).is_err());
    assert_eq!(told_bytes(Some(Ok(Value::Bytes(vec![1])))), Ok(vec![1]));
}

#[test]
fn stream_numbers_are_handed_out_within_the_budget() {
    let (mut client, generation, inode) = setup(&[file("file").with_file_size(10)], 4);
    let held = client.read(generation, inode, 0, 4);
    assert_eq!(client.transfer.state.reserved(), 4);
    assert_eq!(client.transfer.allocate(MAX_BUFFERED - 3, &[]), Err(()));
    assert_eq!(client.transfer.allocate(usize::MAX, &[]), Err(()));
    assert_eq!(client.transfer.allocate(MAX_BUFFERED - 4, &[]), Ok(2));
    assert_eq!(client.transfer.allocate(MAX_BUFFERED, &[1]), Ok(3));
    assert!(client.transfer.state.pending.is_empty());
    drop(held);
}
