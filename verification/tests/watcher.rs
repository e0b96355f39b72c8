//! The desktop's clipboard, with the compositor played by hand.

use hypr_clipboard::deadline::{time_used_up, transfer_timed_out};
use hypr_clipboard::formats::{
    PendingWrite, SelectionKind, FILE_URI_LIST_MIME, GNOME_COPIED_FILES_MIME, IMAGE_PNG_MIME,
    TEXT_MIME, TEXT_PLAIN_MIME, UTF8_MIME,
};
use hypr_clipboard::intake::{
    clear_cached_selection, settle_caches, Intake, CF_DIB, CF_UNICODETEXT,
};
use hypr_clipboard::png::has_palette_in_order;
use hypr_clipboard::watcher::{
    data_control_manager_version, Bind, ClipState, GlobalsStep, Offered, SelectionStep,
    ECHO_SUPPRESSION_GRACE, ECHO_SUPPRESSION_TIMEOUT, MANAGER_INTERFACE, SEAT_INTERFACE,
};
use std::time::{Duration, Instant};

/// One red pixel.
const PNG: [u8; 70] = [
    0x89, 0x50, 0x4e, 0x47, 0x0d, 0x0a, 0x1a, 0x0a, 0x00, 0x00, 0x00, 0x0d, 0x49, 0x48, 0x44, 0x52,
    0x00, 0x00, 0x00, 0x01, 0x00, 0x00, 0x00, 0x01, 0x08, 0x06, 0x00, 0x00, 0x00, 0x1f, 0x15, 0xc4,
    0x89, 0x00, 0x00, 0x00, 0x0d, 0x49, 0x44, 0x41, 0x54, 0x78, 0x9c, 0x63, 0xf8, 0xcf, 0xc0, 0xf0,
    0x1f, 0x00, 0x05, 0x00, 0x01, 0xff, 0x89, 0x99, 0x3d, 0x1d, 0x00, 0x00, 0x00, 0x00, 0x49, 0x45,
    0x4e, 0x44, 0xae, 0x42, 0x60, 0x82,
];

/// The same pixel behind a bitmap header.
const DIB: [u8; 44] = [
    40, 0, 0, 0, 1, 0, 0, 0, 1, 0, 0, 0, 1, 0, 32, 0, 0, 0, 0, 0, 4, 0, 0, 0, 0, 0, 0, 0, 0, 0, 0, 0,
    0, 0, 0, 0, 0, 0, 0, 0, 0x00, 0x00, 0xff, 0xff,
];

/// The same pixel by number, in a palette of one entry.
const INDEXED: [u8; 82] = [
    0x89, 0x50, 0x4e, 0x47, 0x0d, 0x0a, 0x1a, 0x0a, 0x00, 0x00, 0x00, 0x0d, 0x49, 0x48, 0x44, 0x52,
    0x00, 0x00, 0x00, 0x01, 0x00, 0x00, 0x00, 0x01, 0x08, 0x03, 0x00, 0x00, 0x00, 0x28, 0xcb, 0x34,
    0xbb, 0x00, 0x00, 0x00, 0x03, 0x50, 0x4c, 0x54, 0x45, 0xff, 0x00, 0x00, 0x19, 0xe2, 0x09, 0x37,
    0x00, 0x00, 0x00, 0x0a, 0x49, 0x44, 0x41, 0x54, 0x78, 0x9c, 0x63, 0x60, 0x00, 0x00, 0x00, 0x02,
    0x00, 0x01, 0x48, 0xaf, 0xa4, 0x71, 0x00, 0x00, 0x00, 0x00, 0x49, 0x45, 0x4e, 0x44, 0xae, 0x42,
    0x60, 0x82,
];

/// The same, with a palette that ends in the middle of an entry.
const BROKEN_PALETTE: [u8; 83] = [
    0x89, 0x50, 0x4e, 0x47, 0x0d, 0x0a, 0x1a, 0x0a, 0x00, 0x00, 0x00, 0x0d, 0x49, 0x48, 0x44, 0x52,
    0x00, 0x00, 0x00, 0x01, 0x00, 0x00, 0x00, 0x01, 0x08, 0x03, 0x00, 0x00, 0x00, 0x28, 0xcb, 0x34,
    0xbb, 0x00, 0x00, 0x00, 0x04, 0x50, 0x4c, 0x54, 0x45, 0xff, 0x00, 0x00, 0x00, 0x6a, 0xa6, 0xa8,
    0x8b, 0x00, 0x00, 0x00, 0x0a, 0x49, 0x44, 0x41, 0x54, 0x78, 0x9c, 0x63, 0x60, 0x00, 0x00, 0x00,
    0x02, 0x00, 0x01, 0x48, 0xaf, 0xa4, 0x71, 0x00, 0x00, 0x00, 0x00, 0x49, 0x45, 0x4e, 0x44, 0xae,
    0x42, 0x60, 0x82,
];

/// The same pixel by its colours, with such a palette beside it.
const UNUSED_PALETTE: [u8; 85] = [
    0x89, 0x50, 0x4e, 0x47, 0x0d, 0x0a, 0x1a, 0x0a, 0x00, 0x00, 0x00, 0x0d, 0x49, 0x48, 0x44, 0x52,
    0x00, 0x00, 0x00, 0x01, 0x00, 0x00, 0x00, 0x01, 0x08, 0x02, 0x00, 0x00, 0x00, 0x90, 0x77, 0x53,
    0xde, 0x00, 0x00, 0x00, 0x04, 0x50, 0x4c, 0x54, 0x45, 0xff, 0x00, 0x00, 0x00, 0x6a, 0xa6, 0xa8,
    0x8b, 0x00, 0x00, 0x00, 0x0c, 0x49, 0x44, 0x41, 0x54, 0x78, 0x9c, 0x63, 0xf8, 0xcf, 0xc0, 0x00,
    0x00, 0x03, 0x01, 0x01, 0x00, 0xc9, 0xfe, 0x92, 0xef, 0x00, 0x00, 0x00, 0x00, 0x49, 0x45, 0x4e,
    0x44, 0xae, 0x42, 0x60, 0x82,
];

fn millis(n: u64) -> u128 {
    Duration::from_millis(n).as_nanos()
}

#[test]
fn data_control_manager_version_is_limited_to_used_v1_surface() {
    assert_eq!(data_control_manager_version(1), 1);
    assert_eq!(data_control_manager_version(2), 1);
    assert_eq!(data_control_manager_version(u32::MAX), 1);
}

#[test]
fn transfer_timeout_enforces_total_duration_despite_recent_progress() {
    let now = Instant::now();

    assert!(transfer_timed_out(
        now - Duration::from_secs(2),
        now,
        Duration::from_secs(10).as_nanos(),
        Duration::from_secs(1).as_nanos(),
    ));
}

#[test]
fn a_transfer_times_out_at_either_limit() {
    assert!(!time_used_up(9, 4, 5, 10));
    assert!(time_used_up(10, 4, 5, 10));
    assert!(time_used_up(9, 5, 5, 10));
    let now = Instant::now();
    let hour = Duration::from_secs(3600).as_nanos();
    assert!(!transfer_timed_out(now, now, hour, hour));
    assert!(transfer_timed_out(now, now - Duration::from_secs(2), millis(1000), hour));
    assert!(transfer_timed_out(now, now, 0, hour));
}

#[test]
fn taking_the_rdp_write_arms_echo_suppression() {
    let now = millis(5000);

    for content in [
        PendingWrite::Text(b"pasted from the client".to_vec()),
        PendingWrite::Image(vec![0u8; 16]),
        PendingWrite::Files {
            uri_list: b"file:///tmp/selection/file\r\n".to_vec(),
            gnome_copied_files: b"copy\nfile:///tmp/selection/file".to_vec(),
        },
    ] {
        let mut state = ClipState::new();
        let mut pending = None;
        assert!(state.take_pending_write(now, &mut pending).is_none());
        assert!(!state.selection_is_our_echo(now));

        pending = Some(content);

        assert!(state.take_pending_write(now, &mut pending).is_some());
        assert_eq!(state.suppress_echo_until, Some(now + ECHO_SUPPRESSION_TIMEOUT));
        assert!(pending.is_none());
    }
}

#[test]
fn compositor_response_burst_is_suppressed_then_expires() {
    let mut state = ClipState::new();
    let started = millis(5000);
    let mut pending = Some(PendingWrite::Text(vec![1]));
    state.take_pending_write(started, &mut pending).unwrap();

    let first = started + millis(10);
    assert!(state.selection_is_our_echo(first));
    let grace_deadline = first + ECHO_SUPPRESSION_GRACE;
    assert_eq!(state.suppress_echo_until, Some(grace_deadline));

    assert!(state.selection_is_our_echo(first + millis(1)));
    assert_eq!(state.suppress_echo_until, Some(grace_deadline));

    assert!(!state.selection_is_our_echo(grace_deadline));
    assert_eq!(state.suppress_echo_until, None);
}

#[test]
fn a_late_echo_does_not_outlast_the_timeout() {
    let mut state = ClipState::new();
    let mut pending = Some(PendingWrite::Text(vec![1]));
    state.take_pending_write(0, &mut pending).unwrap();
    assert_eq!(ECHO_SUPPRESSION_TIMEOUT, millis(2000));
    assert_eq!(ECHO_SUPPRESSION_GRACE, millis(100));
    assert!(state.selection_is_our_echo(millis(1950)));
    assert_eq!(state.suppress_echo_until, Some(millis(2000)));
    assert!(!state.selection_is_our_echo(millis(2000)));
    assert!(!state.selection_is_our_echo(millis(2001)));
}

#[test]
fn globals_are_bound_as_they_are_advertised() {
    let mut state = ClipState::new();
    assert_eq!(state.missing_globals(), vec![MANAGER_INTERFACE, SEAT_INTERFACE]);
    assert_eq!(state.globals_step(1), GlobalsStep::Wait);
    assert_eq!(state.globals_step(0), GlobalsStep::Missing);
    assert_eq!(state.on_global("wl_output", 3), Bind::Nothing);
    assert_eq!(state.on_global("wl_seat", 7), Bind::Seat(1));
    assert_eq!(state.on_global("wl_seat", 7), Bind::Nothing);
    assert_eq!(state.missing_globals(), vec!["zwlr_data_control_manager_v1"]);
    assert_eq!(state.on_global("zwlr_data_control_manager_v1", 2), Bind::Manager(1));
    assert_eq!(state.on_global("zwlr_data_control_manager_v1", 1), Bind::Manager(1));
    assert_eq!(state.globals_step(0), GlobalsStep::Ready);
    assert!(state.missing_globals().is_empty());
}

#[test]
fn the_device_comes_and_goes() {
    let mut state = ClipState::new();
    assert!(!state.device);
    state.on_device();
    assert!(state.device);
    state.on_finished();
    assert!(!state.device);
}

#[test]
fn active_content_is_given_out_until_its_source_is_cancelled() {
    let mut state = ClipState::new();
    assert!(state.on_source_send(TEXT_MIME).is_none());
    state.activate(PendingWrite::Text(b"text".to_vec()), 4);
    assert_eq!(state.take_source(), Some(4));
    assert_eq!(state.take_source(), None);
    state.activate(PendingWrite::Image(b"image".to_vec()), 5);
    assert_eq!(state.on_source_send(IMAGE_PNG_MIME).unwrap(), b"image");
    assert!(state.on_source_send(TEXT_MIME).is_none());
    state.on_source_cancelled(4);
    assert_eq!(state.on_source_send(IMAGE_PNG_MIME).unwrap(), b"image");
    state.on_source_cancelled(5);
    assert!(state.on_source_send(IMAGE_PNG_MIME).is_none());
    assert_eq!(state.active_source, None);
}

#[test]
fn a_selection_is_read_under_its_preferred_types() {
    let mut state = ClipState::new();
    state.on_data_offer(7);
    state.on_data_offer(8);
    for mime in ["text/plain", "UTF8_STRING", "image/png", "text/uri-list"] {
        state.on_offer_mime(7, mime.to_string());
    }
    state.on_offer_mime(9, "image/png".to_string());
    match state.on_selection(0, Some(7)) {
        SelectionStep::Read(offered) => {
            assert_eq!(offered.text, Some(UTF8_MIME));
            assert_eq!(offered.image, Some(IMAGE_PNG_MIME));
            assert_eq!(offered.files, Some(FILE_URI_LIST_MIME));
        }
        _ => panic!("the offer is readable"),
    }
    assert!(matches!(state.on_selection(0, Some(7)), SelectionStep::Unannounced));
    assert!(matches!(state.on_selection(0, Some(8)), SelectionStep::Unsupported));
    assert!(matches!(state.on_selection(0, Some(9)), SelectionStep::Unannounced));
    assert!(matches!(state.on_selection(0, None), SelectionStep::Emptied));
    assert!(state.offer_mimes.is_empty());
}

#[test]
fn an_echo_is_forgotten_with_its_offer() {
    let mut state = ClipState::new();
    let mut pending = Some(PendingWrite::Text(vec![1]));
    state.take_pending_write(0, &mut pending).unwrap();
    state.on_data_offer(7);
    state.on_offer_mime(7, TEXT_MIME.to_string());
    assert!(matches!(state.on_selection(1, Some(7)), SelectionStep::Echo));
    assert!(state.offer_mimes.is_empty());
    assert!(matches!(state.on_selection(2, None), SelectionStep::Echo));
    assert!(matches!(state.on_selection(millis(3000), None), SelectionStep::Emptied));
}

#[test]
fn inbound_file_mime_payload() {
    let pending = PendingWrite::Files {
        uri_list: b"file:///tmp/selection/a%20b\r\nfile:///tmp/selection/folder\r\n".to_vec(),
        gnome_copied_files: b"copy\nfile:///tmp/selection/a%20b\nfile:///tmp/selection/folder"
            .to_vec(),
    };
    assert_eq!(pending.kind(), SelectionKind::Files);
    assert_eq!(
        pending.data_for_mime(FILE_URI_LIST_MIME).unwrap(),
        b"file:///tmp/selection/a%20b\r\nfile:///tmp/selection/folder\r\n"
    );
    assert_eq!(
        pending.data_for_mime(GNOME_COPIED_FILES_MIME).unwrap(),
        b"copy\nfile:///tmp/selection/a%20b\nfile:///tmp/selection/folder"
    );
    for mime in [TEXT_MIME, TEXT_PLAIN_MIME, IMAGE_PNG_MIME, "application/octet-stream"] {
        assert!(pending.data_for_mime(mime).is_none());
    }
}

#[test]
fn every_offered_type_has_content() {
    for content in [
        PendingWrite::Text(vec![1]),
        PendingWrite::Image(vec![2]),
        PendingWrite::Files { uri_list: vec![3], gnome_copied_files: vec![4] },
    ] {
        let kind = content.kind();
        for mime in kind.wayland_mimes() {
            assert!(kind.accepts_wayland_mime(mime));
            assert!(content.data_for_mime(mime).is_some());
        }
        assert!(!kind.accepts_wayland_mime("application/octet-stream"));
    }
    assert_eq!(SelectionKind::Text.wayland_mimes(), vec![TEXT_MIME, UTF8_MIME, TEXT_PLAIN_MIME]);
    assert_eq!(SelectionKind::Image.wayland_mimes(), vec![IMAGE_PNG_MIME]);
    assert_eq!(
        SelectionKind::Files.wayland_mimes(),
        vec![FILE_URI_LIST_MIME, GNOME_COPIED_FILES_MIME]
    );
}

#[test]
fn the_preferred_type_is_the_first_that_is_offered() {
    let offered = vec![TEXT_PLAIN_MIME.to_string(), TEXT_MIME.to_string()];
    assert_eq!(SelectionKind::Text.offered_wayland_mime(&offered), Some(TEXT_MIME));
    assert_eq!(SelectionKind::Image.offered_wayland_mime(&offered), None);
    assert_eq!(SelectionKind::Files.offered_wayland_mime(&offered), None);
}

#[test]
fn text_and_image_are_taken_in() {
    let offered = Offered { text: Some(TEXT_MIME), image: Some(IMAGE_PNG_MIME), files: None };
    let mut data = Some(b"old".to_vec());
    let mut image = None;
    let mut intake = Intake::begin(&offered, &mut data, &mut image);
    assert_eq!(data, Some(b"old".to_vec()));
    intake.take_text(Some(b"new".to_vec()), &mut data);
    intake.take_image(Some(PNG.to_vec()), &mut image);
    assert_eq!(data, Some(b"new".to_vec()));
    assert_eq!(image, Some(DIB.to_vec()));
    assert_eq!(intake.finish(), Some(vec![CF_UNICODETEXT, CF_DIB]));
}

#[test]
fn formats_that_are_not_offered_are_forgotten() {
    let offered = Offered { text: None, image: Some(IMAGE_PNG_MIME), files: None };
    let mut data = Some(b"old".to_vec());
    let mut image = Some(b"old".to_vec());
    let mut intake = Intake::begin(&offered, &mut data, &mut image);
    assert_eq!((&data, &image), (&None, &Some(b"old".to_vec())));
    intake.take_image(Some(b"not an image".to_vec()), &mut image);
    intake.take_image(Some(Vec::new()), &mut image);
    intake.take_image(None, &mut image);
    assert_eq!(image, Some(b"old".to_vec()));
    assert_eq!(intake.finish(), None);
    clear_cached_selection(&mut data, &mut image);
    assert_eq!((data, image), (None, None));
}

#[test]
fn a_list_without_files_remains_text() {
    let list = b"https://example.com/\r\n".to_vec();
    for (text, frozen, taken) in
        [(None, false, true), (None, true, false), (Some(TEXT_MIME), false, false)]
    {
        let offered = Offered { text, image: None, files: Some(FILE_URI_LIST_MIME) };
        let mut data = None;
        let mut image = None;
        let mut intake = Intake::begin(&offered, &mut data, &mut image);
        intake.take_files(Some(list.clone()), frozen, &mut data);
        assert_eq!(data.is_some(), taken);
        assert_eq!(intake.finish().is_some(), taken);
    }
    let offered = Offered { text: None, image: None, files: Some(FILE_URI_LIST_MIME) };
    let mut data = None;
    let mut image = None;
    let mut intake = Intake::begin(&offered, &mut data, &mut image);
    intake.take_text(Some(Vec::new()), &mut data);
    intake.take_files(Some(Vec::new()), false, &mut data);
    intake.take_files(None, false, &mut data);
    assert_eq!(data, None);
    assert_eq!(intake.finish(), None);
}

#[test]
fn the_formats_are_those_of_the_protocol() {
    assert_eq!(CF_UNICODETEXT, ironrdp_cliprdr::pdu::ClipboardFormatId::CF_UNICODETEXT.value());
    assert_eq!(CF_DIB, ironrdp_cliprdr::pdu::ClipboardFormatId::CF_DIB.value());
}

#[test]
fn only_a_converted_image_is_a_format() {
    let offered = Offered { text: None, image: Some(IMAGE_PNG_MIME), files: None };
    let mut data = None;
    let mut image = None;
    let mut intake = Intake::begin(&offered, &mut data, &mut image);
    intake.take_dib(None, &mut image);
    assert_eq!(image, None);
    intake.take_dib(Some(vec![7]), &mut image);
    assert_eq!(image, Some(vec![7]));
    assert_eq!(intake.finish(), Some(vec![CF_DIB]));
}

#[test]
fn a_new_selection_settles_the_caches() {
    let cached = || (Some(b"text".to_vec()), Some(b"image".to_vec()));
    for step in [SelectionStep::Emptied, SelectionStep::Unsupported] {
        let (mut data, mut image) = cached();
        assert!(step.owner_changed());
        assert!(settle_caches(&step, &mut data, &mut image).is_none());
        assert_eq!((data, image), (None, None));
    }
    for step in [SelectionStep::Echo, SelectionStep::Unannounced] {
        let (mut data, mut image) = cached();
        assert_eq!(step.owner_changed(), matches!(step, SelectionStep::Unannounced));
        assert!(settle_caches(&step, &mut data, &mut image).is_none());
        assert_eq!((data, image), cached());
    }
    let offered = Offered { text: Some(TEXT_MIME), image: None, files: None };
    let (mut data, mut image) = cached();
    let step = SelectionStep::Read(offered);
    let intake = settle_caches(&step, &mut data, &mut image).unwrap();
    assert!(step.owner_changed());
    assert!(intake.text_offered);
    assert_eq!((data, image), (Some(b"text".to_vec()), None));
}

#[test]
fn an_image_whose_palette_ends_in_an_entry_is_no_format() {
    let offered = Offered { text: None, image: Some(IMAGE_PNG_MIME), files: None };
    for (png, converted) in
        [(&INDEXED[..], true), (&BROKEN_PALETTE[..], false), (&UNUSED_PALETTE[..], true)]
    {
        let mut data = None;
        let mut image = None;
        let mut intake = Intake::begin(&offered, &mut data, &mut image);
        intake.take_image(Some(png.to_vec()), &mut image);
        assert_eq!(image.as_deref(), if converted { Some(&DIB[..]) } else { None });
        assert_eq!(intake.finish().is_some(), converted);
        assert_eq!(has_palette_in_order(png), converted);
    }
    assert!(has_palette_in_order(b""));
    assert!(has_palette_in_order(&INDEXED[..30]));
    assert!(has_palette_in_order(&BROKEN_PALETTE[..40]));
    assert!(!has_palette_in_order(&BROKEN_PALETTE[..41]));
}
