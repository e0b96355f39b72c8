//! Mounts, from the list that the remote announces to the content for the desktop.

use hypr_clipboard::formats::{PendingWrite, FILE_URI_LIST_MIME, GNOME_COPIED_FILES_MIME};
use hypr_clipboard::inbound::{drop_unpublished_files, Inbound, Mounts};
use hypr_clipboard::payload::{files_payload, uri_payload};
use hypr_clipboard::serve::{ServeAction, Server};
use hypr_clipboard::tree::FileDescriptor;
use std::cell::Cell;
use std::rc::Rc;

/// A mount that counts how often it has come down.
struct FakeMount {
    dropped: Rc<Cell<u32>>,
}

impl FakeMount {
    fn path(&self) -> &'static str {
        "/fake/selection"
    }
}

impl Drop for FakeMount {
    fn drop(&mut self) {
        self.dropped.set(self.dropped.get() + 1);
    }
}

fn file(name: &str) -> FileDescriptor {
    FileDescriptor::new(name.to_string())
}

fn unstarted(pending: &mut Option<PendingWrite>) -> Inbound<u32> {
    let mut inbound = Inbound::new(100, 1024);
    inbound.set_capabilities(pending, true, true);
    inbound
}

fn accept(inbound: &mut Inbound<u32>, files: &[FileDescriptor], data_id: Option<u32>) {
    if let Some(generation) = inbound.transfer.generation() {
        assert!(inbound.accept_for(generation, files, data_id));
    }
}

/// Runs the service until it wants to mount or has nothing to do.
fn run(server: &mut Server<FakeMount>, clipboard: &mut Inbound<u32>) -> ServeAction {
    loop {
        match server.action() {
            ServeAction::TakeWork if clipboard.service.idle() => return ServeAction::TakeWork,
            ServeAction::TakeWork => server.take_work(&mut clipboard.service),
            ServeAction::Release => server.release(),
            ServeAction::Check => server.check(clipboard),
            ServeAction::Settle => server.settle(),
            action => return action,
        }
    }
}

#[test]
fn inbound_mount_publication_respects_generation_and_close() {
    for close in [false, true] {
        let mut pending = None;
        let mut clipboard = unstarted(&mut pending);
        let mut server = Server::new();
        let dropped = Rc::new(Cell::new(0));
        accept(&mut clipboard, &[file("old").with_file_size(1)], None);
        assert_eq!(run(&mut server, &mut clipboard), ServeAction::Mount);
        // The mount is being created when the selection goes.
        if close {
            clipboard.close(&mut pending);
        } else {
            clipboard.retire_selection(&mut pending);
        }
        server.mounted(Some(FakeMount { dropped: Rc::clone(&dropped) }));
        assert_eq!(run(&mut server, &mut clipboard), ServeAction::Publish);
        let path = server.to_publish().unwrap().1.path();
        server.publish(&clipboard, path, &mut pending);
        server.settle();
        assert_eq!(dropped.get(), 1);
        assert!(pending.is_none(), "stale mount must never reach Wayland");
        assert!(server.mounts.mounted.is_empty());
        let end = if close { ServeAction::Stop } else { ServeAction::TakeWork };
        assert_eq!(run(&mut server, &mut clipboard), end);
    }
}

#[test]
fn inbound_mount_failure_keeps_other_clipboard_content() {
    let mut pending = None;
    let mut clipboard = unstarted(&mut pending);
    pending = Some(PendingWrite::Text(b"usable".to_vec()));
    let mut server = Server::new();
    accept(&mut clipboard, &[file("file").with_file_size(1)], None);
    assert_eq!(run(&mut server, &mut clipboard), ServeAction::Mount);
    server.mounted(None);
    assert_eq!(run(&mut server, &mut clipboard), ServeAction::TakeWork);
    clipboard.close(&mut pending);
    assert_eq!(run(&mut server, &mut clipboard), ServeAction::Stop);
    assert!(matches!(pending.as_ref(), Some(PendingWrite::Text(bytes)) if bytes == b"usable"));
}

#[test]
fn inbound_mount_success_publishes_exact_selection() {
    let mut pending = None;
    let mut clipboard = unstarted(&mut pending);
    let mut server = Server::new();
    let dropped = Rc::new(Cell::new(0));
    accept(&mut clipboard, &[file("selected").with_file_size(1)], None);
    assert_eq!(run(&mut server, &mut clipboard), ServeAction::Mount);
    assert_eq!(server.to_mount(), clipboard.transfer.generation());
    server.mounted(Some(FakeMount { dropped: Rc::clone(&dropped) }));
    let path = server.to_publish().unwrap().1.path();
    server.publish(&clipboard, path, &mut pending);
    assert_eq!(run(&mut server, &mut clipboard), ServeAction::TakeWork);
    assert_eq!(
        pending.as_ref().unwrap().data_for_mime(FILE_URI_LIST_MIME).unwrap(),
        b"file:///fake/selection/selected\r\n"
    );
    assert_eq!(dropped.get(), 0);
    clipboard.close(&mut pending);
    assert!(pending.is_none());
    assert_eq!(run(&mut server, &mut clipboard), ServeAction::Stop);
    assert_eq!(dropped.get(), 1);
}

#[test]
fn a_kept_mount_stays_until_its_generation_is_released() {
    let mut pending = None;
    let mut clipboard = unstarted(&mut pending);
    let mut server = Server::new();
    let dropped = Rc::new(Cell::new(0));
    accept(&mut clipboard, &[file("a").with_file_size(1)], Some(5));
    let generation = clipboard.transfer.generation().unwrap();
    assert_eq!(run(&mut server, &mut clipboard), ServeAction::Mount);
    server.mounted(Some(FakeMount { dropped: Rc::clone(&dropped) }));
    let payload = files_payload(&vec!["file:///x".to_string()]);
    server.publish_payload(&clipboard, payload, &mut pending);
    assert_eq!(run(&mut server, &mut clipboard), ServeAction::TakeWork);
    assert!(server.mounts.mounted.contains_key(&generation));
    // Superseded under its lock, it stays; the release of the lock takes it down.
    clipboard.retire_selection(&mut pending);
    assert_eq!(run(&mut server, &mut clipboard), ServeAction::TakeWork);
    assert_eq!(dropped.get(), 0);
    clipboard.release_locks(&[5]);
    assert_eq!(run(&mut server, &mut clipboard), ServeAction::TakeWork);
    assert_eq!(dropped.get(), 1);
    assert!(server.mounts.mounted.is_empty());
}

#[test]
fn a_job_is_mounted_at_most_once() {
    let mut pending = None;
    let mut clipboard = unstarted(&mut pending);
    let mut server: Server<FakeMount> = Server::new();
    accept(&mut clipboard, &[file("a")], None);
    assert_eq!(run(&mut server, &mut clipboard), ServeAction::Mount);
    server.mounted(None);
    clipboard.set_capabilities(&mut pending, true, true);
    assert_eq!(run(&mut server, &mut clipboard), ServeAction::TakeWork);
    accept(&mut clipboard, &[file("b")], None);
    clipboard.retire_selection(&mut pending);
    assert_eq!(run(&mut server, &mut clipboard), ServeAction::TakeWork);
}

#[test]
fn nothing_happens_out_of_turn() {
    let mut pending = None;
    let clipboard = unstarted(&mut pending);
    let dropped = Rc::new(Cell::new(0));
    let mut server = Server::new();
    server.release();
    server.check(&clipboard);
    server.mounted(Some(FakeMount { dropped: Rc::clone(&dropped) }));
    assert_eq!(dropped.get(), 1);
    server.publish(&clipboard, "/m", &mut pending);
    server.publish_payload(&clipboard, files_payload(&vec!["x".to_string()]), &mut pending);
    server.settle();
    assert!(pending.is_none());
    assert!(server.to_mount().is_none());
    assert!(server.to_publish().is_none());
    assert!(server.mounts.mounted.is_empty());
    assert_eq!(server.action(), ServeAction::TakeWork);
}

#[test]
fn inbound_uri_payload_lists_only_roots_and_encodes_names() {
    let payload = uri_payload("/mount", &vec!["a b#é".into(), "folder".into()]).unwrap();
    assert_eq!(
        payload.data_for_mime(FILE_URI_LIST_MIME).unwrap(),
        b"file:///mount/a%20b%23%C3%A9\r\nfile:///mount/folder\r\n"
    );
    assert_eq!(
        payload.data_for_mime(GNOME_COPIED_FILES_MIME).unwrap(),
        b"copy\nfile:///mount/a%20b%23%C3%A9\nfile:///mount/folder"
    );
}

#[test]
fn only_top_level_entries_are_published() {
    let mut pending = None;
    let mut clipboard = unstarted(&mut pending);
    accept(
        &mut clipboard,
        &[
            file("folder").with_directory(),
            file("known").with_relative_path("folder".to_string()).with_file_size(11),
            file("top").with_relative_path(String::new()),
        ],
        None,
    );
    let (job, _) = clipboard.service.take_work().unwrap();
    let job = job.unwrap();
    assert_eq!(job.roots, vec!["folder".to_string(), "top".to_string()]);
    assert!(clipboard.publish(&job, "/m/", &mut pending));
    assert_eq!(
        pending.unwrap().data_for_mime(FILE_URI_LIST_MIME).unwrap(),
        b"file:///m/folder\r\nfile:///m/top\r\n"
    );
}

#[test]
fn a_mount_without_an_absolute_path_is_not_published() {
    assert!(uri_payload("mount", &vec!["a".to_string()]).is_none());
    assert!(uri_payload("", &vec!["a".to_string()]).is_none());
    assert!(uri_payload("/mount", &Vec::new()).is_none());
    assert!(uri_payload("mount", &vec!["/a".to_string()]).is_some());
    assert!(files_payload(&Vec::new()).is_none());
    let payload = files_payload(&vec!["file:///x".to_string()]).unwrap();
    assert_eq!(payload.data_for_mime(FILE_URI_LIST_MIME).unwrap(), b"file:///x\r\n");
    assert_eq!(payload.data_for_mime(GNOME_COPIED_FILES_MIME).unwrap(), b"copy\nfile:///x");
}

#[test]
fn a_list_without_entries_is_not_mounted() {
    let mut pending = None;
    let mut clipboard = unstarted(&mut pending);
    accept(&mut clipboard, &[], None);
    let (job, _) = clipboard.service.take_work().unwrap();
    assert!(!clipboard.wants_mount(&job.unwrap()));
}

#[test]
fn releases_pile_up_until_the_service_wakes() {
    let mut pending = None;
    let mut clipboard = unstarted(&mut pending);
    assert!(clipboard.service.take_work().unwrap().0.is_none());
    assert!(clipboard.service.idle());
    let first = clipboard.transfer.generation().unwrap();
    let second = clipboard.retire_selection(&mut pending).unwrap();
    assert!(!clipboard.service.idle());
    let third = clipboard.retire_selection(&mut pending).unwrap();
    assert_eq!(third, second + 1);
    let (job, release) = clipboard.service.take_work().unwrap();
    assert!(job.is_none());
    assert_eq!(release, vec![first, second]);
    assert!(clipboard.service.idle());
}

#[test]
fn a_release_that_covers_nothing_leaves_no_work() {
    let mut pending = None;
    let mut clipboard = unstarted(&mut pending);
    accept(&mut clipboard, &[file("a")], Some(5));
    let generation = clipboard.transfer.generation().unwrap();
    clipboard.retire_selection(&mut pending);
    clipboard.service.take_work();
    assert!(!clipboard.release_locks(&[6]));
    assert!(clipboard.service.idle());
    assert!(clipboard.release_locks(&[5]));
    assert_eq!(clipboard.service.take_work().unwrap().1, vec![generation]);
}

#[test]
fn a_new_list_takes_the_place_of_one_not_yet_mounted() {
    let mut pending = None;
    let mut clipboard = unstarted(&mut pending);
    accept(&mut clipboard, &[file("old")], None);
    accept(&mut clipboard, &[file("new")], None);
    let (job, _) = clipboard.service.take_work().unwrap();
    assert_eq!(job.unwrap().roots, vec!["new".to_string()]);
}

#[test]
fn the_mounts_of_ended_selections_come_down() {
    let dropped = Rc::new(Cell::new(0));
    let mut mounts = Mounts::new();
    for generation in 1..=3 {
        mounts.settle(generation, FakeMount { dropped: Rc::clone(&dropped) }, true);
    }
    mounts.release(&vec![2, 9, 2, 3]);
    assert_eq!(dropped.get(), 2);
    assert!(mounts.mounted.contains_key(&1));
    assert_eq!(mounts.mounted.len(), 1);
    mounts.release_all();
    assert_eq!(dropped.get(), 3);
}

#[test]
fn only_unpublished_files_are_dropped() {
    let mut pending = Some(PendingWrite::Image(vec![1]));
    drop_unpublished_files(&mut pending);
    assert!(matches!(pending, Some(PendingWrite::Image(_))));
    pending = files_payload(&vec!["file:///x".to_string()]);
    drop_unpublished_files(&mut pending);
    assert!(pending.is_none());
}
