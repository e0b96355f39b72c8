//! Transfers through pipes, with the pipe played by hand.

use hypr_clipboard::deadline::Deadline;
use hypr_clipboard::pipe::{
    move_failed, pipe_polled, poll_timeout, time_checked, wayland_poll, PipeAction, PipeRead,
    PipeWrite, WaylandPoll, POLLERR, POLLHUP, POLLIN, POLLNVAL,
};

const STALL: u128 = 300_000_000;
const TOTAL: u128 = 3_000_000_000;

#[test]
fn events_are_those_of_the_system() {
    assert_eq!(POLLIN, libc::POLLIN);
    assert_eq!(POLLERR, libc::POLLERR);
    assert_eq!(POLLHUP, libc::POLLHUP);
    assert_eq!(POLLNVAL, libc::POLLNVAL);
}

#[test]
fn wayland_poll_returns_when_the_fd_stays_unreadable() {
    assert_eq!(poll_timeout(50_000_000), Some(50));
    assert_eq!(wayland_poll(0, 0, false), WaylandPoll::Readable(false));
    assert_eq!(poll_timeout(0), None);
}

#[test]
fn wayland_poll_rejects_an_invalid_fd() {
    assert_eq!(wayland_poll(1, libc::POLLNVAL, false), WaylandPoll::BadDescriptor);
    assert_eq!(wayland_poll(1, libc::POLLNVAL | libc::POLLIN, false), WaylandPoll::BadDescriptor);
}

#[test]
fn wayland_poll_tells_events_apart() {
    for revents in [libc::POLLIN, libc::POLLERR, libc::POLLHUP, libc::POLLIN | libc::POLLHUP] {
        assert_eq!(wayland_poll(1, revents, false), WaylandPoll::Readable(true));
    }
    assert_eq!(wayland_poll(1, libc::POLLOUT, false), WaylandPoll::Readable(false));
    assert_eq!(wayland_poll(-1, 0, true), WaylandPoll::Again);
    assert_eq!(wayland_poll(-1, 0, false), WaylandPoll::Failed);
}

#[test]
fn a_wait_is_a_whole_number_of_milliseconds() {
    assert_eq!(poll_timeout(1), Some(1));
    assert_eq!(poll_timeout(999_999), Some(1));
    assert_eq!(poll_timeout(1_999_999), Some(1));
    assert_eq!(poll_timeout(2_000_000), Some(2));
    assert_eq!(poll_timeout(u128::MAX), Some(i32::MAX));
}

/// Lets a transfer find its pipe ready at `now`.
fn ready_to_read(read: &mut PipeRead, now: u128) {
    assert_eq!(read.action, PipeAction::CheckTime);
    read.look(now);
    assert_eq!(read.action, PipeAction::Poll);
    read.polled(1, false);
    assert_eq!(read.action, PipeAction::Move);
}

fn ready_to_write(write: &mut PipeWrite, now: u128) {
    assert_eq!(write.action, PipeAction::CheckTime);
    write.look(now);
    assert_eq!(write.action, PipeAction::Poll);
    write.polled(1, false);
    assert_eq!(write.action, PipeAction::Move);
}

#[test]
fn pipe_read_returns_data_when_the_writer_closes() {
    let mut read = PipeRead::new(1024, 0, STALL, TOTAL);
    ready_to_read(&mut read, 1);
    read.on_read(b"clipboard payload", 2);
    ready_to_read(&mut read, 3);
    read.on_read(b"", 4);
    assert_eq!(read.action, PipeAction::Finish);
    assert_eq!(read.data, b"clipboard payload");
}

#[test]
fn pipe_read_times_out_when_the_writer_stalls_mid_transfer() {
    let mut read = PipeRead::new(1024, 0, STALL, TOTAL);
    ready_to_read(&mut read, 0);
    read.on_read(b"partial", 50_000_000);
    let mut now = 50_000_000;
    loop {
        read.look(now);
        if read.action != PipeAction::Poll {
            break;
        }
        read.polled(0, false);
        assert_eq!(read.action, PipeAction::CheckTime);
        now += 100_000_000;
    }
    assert_eq!(read.action, PipeAction::TimedOut);
    assert_eq!(now, 50_000_000 + STALL);
}

#[test]
fn pipe_read_rejects_oversized_payloads() {
    let mut read = PipeRead::new(1024, 0, STALL, TOTAL);
    ready_to_read(&mut read, 0);
    read.on_read(&[0u8; 2048], 1);
    assert_eq!(read.action, PipeAction::TooLarge);
    assert!(read.data.is_empty());
    let mut read = PipeRead::new(1024, 0, STALL, TOTAL);
    for (chunk, action) in [
        (1000, PipeAction::CheckTime),
        (24, PipeAction::CheckTime),
        (1, PipeAction::TooLarge),
    ] {
        ready_to_read(&mut read, 0);
        read.on_read(&vec![0u8; chunk], 1);
        assert_eq!(read.action, action);
    }
    assert_eq!(read.data.len(), 1024);
}

#[test]
fn pipe_read_survives_a_slow_but_progressing_writer() {
    let mut read = PipeRead::new(1024, 0, STALL, TOTAL);
    let mut now = 0;
    for chunk in [b"slow".as_slice(), b"-", b"drip"] {
        now += STALL - 1;
        ready_to_read(&mut read, now);
        read.on_read(chunk, now);
    }
    ready_to_read(&mut read, now + STALL - 1);
    read.on_read(b"", now + STALL - 1);
    assert_eq!(read.action, PipeAction::Finish);
    assert_eq!(read.data, b"slow-drip");
}

#[test]
fn a_transfer_is_given_up_at_its_total_time() {
    let mut read = PipeRead::new(1024, 0, STALL, TOTAL);
    let mut now = 0;
    while now + STALL - 1 < TOTAL {
        now += STALL - 1;
        ready_to_read(&mut read, now);
        read.on_read(b"x", now);
    }
    read.look(TOTAL);
    assert_eq!(read.action, PipeAction::TimedOut);
}

#[test]
fn pipe_write_completes_when_the_reader_drains() {
    let payload = vec![7u8; 256 * 1024];
    let mut out = Vec::new();
    let mut write = PipeWrite::new(&payload, 0, STALL, TOTAL);
    while write.action != PipeAction::Finish {
        ready_to_write(&mut write, 1);
        let rest = write.rest();
        let n = rest.len().min(65_536 - 1);
        out.extend_from_slice(&rest[..n]);
        write.on_written(n, 1);
    }
    assert_eq!(out, payload);
    assert!(write.rest().is_empty());
}

#[test]
fn pipe_write_times_out_when_the_reader_stops_reading() {
    let payload = vec![7u8; 256 * 1024];
    let mut write = PipeWrite::new(&payload, 0, STALL, TOTAL);
    ready_to_write(&mut write, 0);
    write.on_written(65_536, 10);
    write.look(10 + STALL - 1);
    write.polled(0, false);
    write.look(10 + STALL);
    assert_eq!(write.action, PipeAction::TimedOut);
    assert_eq!(write.written, 65_536);
}

#[test]
fn pipe_write_fails_fast_when_the_reader_is_gone() {
    let mut write = PipeWrite::new(b"clipboard", 0, STALL, TOTAL);
    ready_to_write(&mut write, 0);
    write.failed(false, false);
    assert_eq!(write.action, PipeAction::Fail);
    let mut write = PipeWrite::new(b"clipboard", 0, STALL, TOTAL);
    write.look(0);
    write.polled(-1, false);
    assert_eq!(write.action, PipeAction::Fail);
    let mut write = PipeWrite::new(b"clipboard", 0, STALL, TOTAL);
    ready_to_write(&mut write, 0);
    write.on_written(0, 1);
    assert_eq!(write.action, PipeAction::Stopped);
}

#[test]
fn interrupted_calls_are_taken_up_again() {
    assert_eq!(pipe_polled(-1, true), PipeAction::CheckTime);
    assert_eq!(move_failed(true, false), PipeAction::CheckTime);
    assert_eq!(move_failed(false, true), PipeAction::CheckTime);
    let mut read = PipeRead::new(1024, 0, STALL, TOTAL);
    ready_to_read(&mut read, 0);
    read.failed(true, false);
    ready_to_read(&mut read, 0);
    read.failed(false, true);
    ready_to_read(&mut read, 0);
    read.failed(false, false);
    assert_eq!(read.action, PipeAction::Fail);
}

#[test]
fn nothing_to_write_is_done_at_once() {
    assert_eq!(PipeWrite::new(b"", 0, 0, 0).action, PipeAction::Finish);
}

#[test]
fn an_ended_transfer_does_nothing_more() {
    let mut read = PipeRead::new(1024, 0, STALL, TOTAL);
    read.look(TOTAL);
    read.look(0);
    read.polled(1, false);
    read.on_read(b"x", 0);
    read.failed(true, true);
    assert_eq!(read.action, PipeAction::TimedOut);
    assert!(read.data.is_empty());
}

#[test]
fn the_two_limits_are_counted_apart() {
    let mut deadline = Deadline::new(100, 10, 50);
    assert!(!deadline.timed_out(90));
    assert!(!deadline.timed_out(109));
    assert!(deadline.timed_out(110));
    deadline.progress(145);
    assert!(!deadline.timed_out(149));
    assert!(deadline.timed_out(150));
    assert!(time_checked(deadline.timed_out(150)) == PipeAction::TimedOut);
}
