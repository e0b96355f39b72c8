//! What a caller can rely on of the desktop's clipboard: which content goes under which MIME
//! type, whose a new selection is, and what is kept of it for the remote.

use crate::formats::{
    PendingWrite, SelectionKind, FILE_URI_LIST_MIME, GNOME_COPIED_FILES_MIME, IMAGE_PNG_MIME,
    TEXT_MIME, TEXT_PLAIN_MIME, UTF8_MIME,
};
use crate::intake::{clear_cached_selection, dib_of_png, settle_caches, Intake};
use crate::png::palette_in_order;
use crate::text::{contains_text, same_text, texts};
use crate::watcher::{
    data_control_manager_version, Bind, ClipState, GlobalsStep, Offered, SelectionStep,
    MANAGER_INTERFACE, SEAT_INTERFACE,
};
use vstd::prelude::*;

verus! {

/// Whether a text is on a list.
pub open spec fn told(list: Seq<String>, text: Seq<char>) -> bool {
    exists|i: int| 0 <= i < list.len() && (#[trigger] list[i])@ == text
}

proof fn lemma_told(list: Seq<String>, text: Seq<char>)
    ensures
        texts(list).contains(text) <==> told(list, text),
{
    if texts(list).contains(text) {
        let i = choose|i: int| 0 <= i < texts(list).len() && texts(list)[i] == text;
        assert(list[i]@ == text);
    }
    if told(list, text) {
        let i = choose|i: int| 0 <= i < list.len() && (#[trigger] list[i])@ == text;
        assert(texts(list)[i] == text);
    }
}

/// Texts are compared as a whole.
pub proof fn law_texts_are_compared_as_a_whole(
    a: &str,
    b: &str,
    same: bool,
    list: Vec<String>,
    found: bool,
)
    requires
        call_ensures(same_text, (a, b), same),
        call_ensures(contains_text, (&list, a), found),
    ensures
        same <==> a@ == b@,
        found <==> told(list@, a@),
{
    lemma_told(list@, a@);
}

/// The version bound is the first one, where it is advertised.
pub proof fn law_the_first_version_is_bound(advertised: u32, version: u32)
    requires
        call_ensures(data_control_manager_version, (advertised,), version),
    ensures
        advertised >= 1 ==> version == 1,
        advertised == 0 ==> version == 0,
{
}

/// Text is offered under three types, an image under one and files under two, the preferred
/// first; and content is given out under exactly the types it is offered under.
pub proof fn law_each_kind_has_its_types(
    kind: SelectionKind,
    mimes: Vec<&'static str>,
    mime: &str,
    accepts: bool,
)
    requires
        call_ensures(SelectionKind::wayland_mimes, (&kind,), mimes),
        call_ensures(SelectionKind::accepts_wayland_mime, (&kind, mime), accepts),
    ensures
        kind is Text ==> mimes@.len() == 3 && mimes@[0]@ == TEXT_MIME@ && mimes@[1]@ == UTF8_MIME@
            && mimes@[2]@ == TEXT_PLAIN_MIME@,
        kind is Image ==> mimes@.len() == 1 && mimes@[0]@ == IMAGE_PNG_MIME@,
        kind is Files ==> mimes@.len() == 2 && mimes@[0]@ == FILE_URI_LIST_MIME@ && mimes@[1]@
            == GNOME_COPIED_FILES_MIME@,
        accepts <==> exists|i: int| 0 <= i < mimes@.len() && (#[trigger] mimes@[i])@ == mime@,
{
    let all = mimes@.map_values(|m: &'static str| m@);
    assert(all.len() == mimes@.len());
    assert(forall|i: int| 0 <= i < all.len() ==> #[trigger] all[i] == mimes@[i]@);
    assert(forall|i: int| 0 <= i < all.len() ==> all[i] == (#[trigger] mimes@[i])@);
    if accepts {
        let i = choose|i: int| 0 <= i < all.len() && all[i] == mime@;
        assert(mimes@[i]@ == mime@);
    }
    if exists|i: int| 0 <= i < mimes@.len() && (#[trigger] mimes@[i])@ == mime@ {
        let i = choose|i: int| 0 <= i < mimes@.len() && (#[trigger] mimes@[i])@ == mime@;
        assert(all[i] == mime@);
    }
}

/// Whether a type is the one to read content of a kind under: of text the one that names its
/// charset, else the one that is UTF-8 by its name, else the plain one; of images the only one;
/// of files the list of URIs.
pub open spec fn read_under(
    kind: SelectionKind,
    offered: Seq<String>,
    mime: Option<&'static str>,
) -> bool {
    match kind {
        SelectionKind::Text => if told(offered, TEXT_MIME@) {
            mime is Some && mime->0@ == TEXT_MIME@
        } else if told(offered, UTF8_MIME@) {
            mime is Some && mime->0@ == UTF8_MIME@
        } else if told(offered, TEXT_PLAIN_MIME@) {
            mime is Some && mime->0@ == TEXT_PLAIN_MIME@
        } else {
            mime is None
        },
        SelectionKind::Image => if told(offered, IMAGE_PNG_MIME@) {
            mime is Some && mime->0@ == IMAGE_PNG_MIME@
        } else {
            mime is None
        },
        SelectionKind::Files => if told(offered, FILE_URI_LIST_MIME@) {
            mime is Some && mime->0@ == FILE_URI_LIST_MIME@
        } else {
            mime is None
        },
    }
}

proof fn lemma_read_under(kind: SelectionKind, offered: Seq<String>, mime: Option<&'static str>)
    requires
        match mime {
            Some(m) => kind.preferred(texts(offered)) == Some(m@),
            None => kind.preferred(texts(offered)) is None,
        },
    ensures
        read_under(kind, offered, mime),
{
    reveal_with_fuel(crate::formats::first_offered, 4);
    lemma_told(offered, TEXT_MIME@);
    lemma_told(offered, UTF8_MIME@);
    lemma_told(offered, TEXT_PLAIN_MIME@);
    lemma_told(offered, IMAGE_PNG_MIME@);
    lemma_told(offered, FILE_URI_LIST_MIME@);
}

/// Content is read under the most preferred of the types it is offered under.
pub proof fn law_the_preferred_type_is_read(
    kind: SelectionKind,
    offered: Vec<String>,
    mime: Option<&'static str>,
)
    requires
        call_ensures(SelectionKind::offered_wayland_mime, (&kind, &offered), mime),
    ensures
        read_under(kind, offered@, mime),
{
    lemma_read_under(kind, offered@, mime);
}

/// Whether bytes are those of content under a type: text and images are given out as they are,
/// files as the list that goes with the type, and nothing under any other type.
pub open spec fn gives_out(content: PendingWrite, mime: Seq<char>, data: Option<&[u8]>) -> bool {
    match content {
        PendingWrite::Text(text) => if mime == TEXT_MIME@ || mime == UTF8_MIME@ || mime
            == TEXT_PLAIN_MIME@ {
            data is Some && data->0@ == text@
        } else {
            data is None
        },
        PendingWrite::Image(png) => if mime == IMAGE_PNG_MIME@ {
            data is Some && data->0@ == png@
        } else {
            data is None
        },
        PendingWrite::Files { uri_list, gnome_copied_files } => {
            &&& mime == FILE_URI_LIST_MIME@ ==> data is Some && data->0@ == uri_list@
            &&& mime == GNOME_COPIED_FILES_MIME@ ==> data is Some && data->0@
                == gnome_copied_files@
            &&& mime != FILE_URI_LIST_MIME@ && mime != GNOME_COPIED_FILES_MIME@ ==> data is None
        },
    }
}

proof fn lemma_gives_out(content: PendingWrite, mime: Seq<char>, data: Option<&[u8]>)
    requires
        match data {
            Some(d) => content.content(mime) == Some(d@),
            None => content.content(mime) is None,
        },
    ensures
        gives_out(content, mime, data),
{
    reveal_strlit("text/uri-list");
    reveal_strlit("x-special/gnome-copied-files");
    assert(FILE_URI_LIST_MIME@.len() == 13);
    assert(GNOME_COPIED_FILES_MIME@.len() == 28);
    let all = SelectionKind::Text.mimes();
    assert(all[0] == TEXT_MIME@ && all[1] == UTF8_MIME@ && all[2] == TEXT_PLAIN_MIME@);
}

/// Content is of the kind it was made as, and is given out as it was made.
pub proof fn law_content_is_given_out_as_it_was_made(
    content: PendingWrite,
    kind: SelectionKind,
    mime: &str,
    data: Option<&[u8]>,
)
    requires
        call_ensures(PendingWrite::kind, (&content,), kind),
        call_ensures(PendingWrite::data_for_mime, (&content, mime), data),
    ensures
        kind is Text <==> content is Text,
        kind is Image <==> content is Image,
        kind is Files <==> content is Files,
        gives_out(content, mime@, data),
{
    lemma_gives_out(content, mime@, data);
}

/// Whether what was advertised is the same.
pub open spec fn same_globals(a: ClipState, b: ClipState) -> bool {
    a.manager == b.manager && a.seat == b.seat && a.device == b.device
}

/// Whether what we give out is the same.
pub open spec fn same_active(a: ClipState, b: ClipState) -> bool {
    a.active_selection == b.active_selection && a.active_source == b.active_source
}

/// A clipboard begins with nothing advertised, offered, given out or expected back.
pub proof fn law_a_clipboard_begins_empty(state: ClipState, offer: u32)
    requires
        call_ensures(ClipState::new, (), state),
    ensures
        state.suppress_echo_until is None,
        !state.manager && !state.seat && !state.device,
        state.active_selection is None,
        state.active_source is None,
        !state.offer_mimes@.contains_key(offer),
{
}

/// Content is taken once, and is expected back for two seconds from then on.
pub proof fn law_a_write_is_expected_back(
    state: &mut ClipState,
    now: u128,
    pending: &mut Option<PendingWrite>,
    taken: Option<PendingWrite>,
)
    requires
        call_ensures(ClipState::take_pending_write, (state, now, pending), taken),
        now + 2_000_000_000 <= u128::MAX,
    ensures
        taken == *old(pending),
        *final(pending) is None,
        *old(pending) is Some ==> {
            &&& final(state).suppress_echo_until matches Some(until)
            &&& until == now + 2_000_000_000
        },
        *old(pending) is None ==> final(state).suppress_echo_until
            == old(state).suppress_echo_until,
        same_globals(*final(state), *old(state)),
        same_active(*final(state), *old(state)),
        final(state).offer_mimes == old(state).offer_mimes,
{
}

/// Whether a selection at `now` is our own, and until when the next is.
pub open spec fn comes_back(
    before: Option<u128>,
    now: u128,
    ours: bool,
    after: Option<u128>,
) -> bool {
    &&& ours <==> before is Some && now < before->0
    &&& !ours ==> after is None
    &&& ours ==> after is Some && after->0 <= before->0 && after->0 <= now + 100_000_000 && (
    after->0 == before->0 || after->0 == now + 100_000_000)
}

/// A selection is our own while our write is expected back, and from the first one on for a
/// tenth of a second at most.
pub proof fn law_a_write_comes_back_in_time(state: &mut ClipState, now: u128, ours: bool)
    requires
        call_ensures(ClipState::selection_is_our_echo, (state, now), ours),
    ensures
        comes_back(old(state).suppress_echo_until, now, ours, final(state).suppress_echo_until),
        same_globals(*final(state), *old(state)),
        same_active(*final(state), *old(state)),
        final(state).offer_mimes == old(state).offer_mimes,
{
}

/// The manager is bound whenever it is advertised and the first seat once, each at the first
/// version at most, and nothing else is.
pub proof fn law_globals_are_bound_by_their_names(
    state: &mut ClipState,
    interface: &str,
    version: u32,
    bind: Bind,
)
    requires
        call_ensures(ClipState::on_global, (state, interface, version), bind),
    ensures
        interface@ == MANAGER_INTERFACE@ ==> bind == Bind::Manager(
            if version == 0 { 0u32 } else { 1u32 },
        ) && final(state).manager && final(state).seat == old(state).seat,
        interface@ == SEAT_INTERFACE@ && !old(state).seat ==> bind == Bind::Seat(
            if version == 0 { 0u32 } else { 1u32 },
        ) && final(state).seat && final(state).manager == old(state).manager,
        interface@ != MANAGER_INTERFACE@ && (interface@ != SEAT_INTERFACE@ || old(state).seat)
            ==> bind == Bind::Nothing && same_globals(*final(state), *old(state)),
        final(state).device == old(state).device,
        same_active(*final(state), *old(state)),
        final(state).offer_mimes == old(state).offer_mimes,
        final(state).suppress_echo_until == old(state).suppress_echo_until,
{
    reveal_strlit("zwlr_data_control_manager_v1");
    reveal_strlit("wl_seat");
    assert(MANAGER_INTERFACE@.len() == 28);
    assert(SEAT_INTERFACE@.len() == 7);
}

/// Globals are waited for until both are there or no time is left, and those that are missing
/// are named.
pub proof fn law_globals_are_waited_for(
    state: ClipState,
    remaining: u128,
    step: GlobalsStep,
    missing: Vec<&'static str>,
)
    requires
        call_ensures(ClipState::globals_step, (&state, remaining), step),
        call_ensures(ClipState::missing_globals, (&state,), missing),
    ensures
        step is Ready <==> state.manager && state.seat,
        step is Missing <==> (!state.manager || !state.seat) && remaining == 0,
        step is Wait <==> (!state.manager || !state.seat) && remaining > 0,
        state.manager && state.seat ==> missing@.len() == 0,
        state.manager && !state.seat ==> missing@.len() == 1 && missing@[0]@ == SEAT_INTERFACE@,
        !state.manager && state.seat ==> missing@.len() == 1 && missing@[0]@
            == MANAGER_INTERFACE@,
        !state.manager && !state.seat ==> missing@.len() == 2 && missing@[0]@
            == MANAGER_INTERFACE@ && missing@[1]@ == SEAT_INTERFACE@,
{
    let names = missing@.map_values(|m: &'static str| m@);
    assert(names.len() == missing@.len());
    assert(names.len() > 0 ==> names[0] == missing@[0]@);
    assert(names.len() > 1 ==> names[1] == missing@[1]@);
}

/// Content that becomes the selection is given out by its source until that source is
/// cancelled, and a source that was replaced takes nothing with it.
pub proof fn law_content_lasts_as_long_as_its_source(
    replaced: &mut ClipState,
    gone: Option<u32>,
    active: &mut ClipState,
    pending: PendingWrite,
    source: u32,
    cancelled: &mut ClipState,
    other: u32,
)
    requires
        call_ensures(ClipState::take_source, (replaced,), gone),
        call_ensures(ClipState::activate, (active, pending, source), ()),
        call_ensures(ClipState::on_source_cancelled, (cancelled, other), ()),
    ensures
        gone == old(replaced).active_source,
        final(replaced).active_source is None,
        final(replaced).active_selection == old(replaced).active_selection,
        same_globals(*final(replaced), *old(replaced)),
        final(replaced).offer_mimes == old(replaced).offer_mimes,
        final(replaced).suppress_echo_until == old(replaced).suppress_echo_until,
        final(active).active_source == Some(source),
        final(active).active_selection is Some,
        final(active).active_selection->0.pending == pending,
        final(active).active_selection->0.kind is Text <==> pending is Text,
        final(active).active_selection->0.kind is Image <==> pending is Image,
        same_globals(*final(active), *old(active)),
        final(active).offer_mimes == old(active).offer_mimes,
        final(active).suppress_echo_until == old(active).suppress_echo_until,
        old(cancelled).active_source == Some(other) ==> final(cancelled).active_source is None
            && final(cancelled).active_selection is None,
        old(cancelled).active_source != Some(other) ==> same_active(
            *final(cancelled),
            *old(cancelled),
        ),
        same_globals(*final(cancelled), *old(cancelled)),
        final(cancelled).offer_mimes == old(cancelled).offer_mimes,
        final(cancelled).suppress_echo_until == old(cancelled).suppress_echo_until,
{
}

/// What is asked of us is answered with what we have made the selection, and with nothing
/// where there is none.
pub proof fn law_the_selection_is_given_out(state: ClipState, mime: &str, data: Option<&[u8]>)
    requires
        call_ensures(ClipState::on_source_send, (&state, mime), data),
        state.wf(),
    ensures
        state.active_selection is None ==> data is None,
        state.active_selection matches Some(active) ==> gives_out(active.pending, mime@, data),
{
    if let Some(active) = state.active_selection {
        lemma_gives_out(active.pending, mime@, data);
    }
}

/// The device comes and goes, and nothing else with it.
pub proof fn law_the_device_comes_and_goes(there: &mut ClipState, gone: &mut ClipState)
    requires
        call_ensures(ClipState::on_device, (there,), ()),
        call_ensures(ClipState::on_finished, (gone,), ()),
    ensures
        final(there).device,
        !final(gone).device,
        final(there).manager == old(there).manager && final(there).seat == old(there).seat,
        final(gone).manager == old(gone).manager && final(gone).seat == old(gone).seat,
        same_active(*final(there), *old(there)),
        same_active(*final(gone), *old(gone)),
        final(there).offer_mimes == old(there).offer_mimes,
        final(gone).offer_mimes == old(gone).offer_mimes,
        final(there).suppress_echo_until == old(there).suppress_echo_until,
        final(gone).suppress_echo_until == old(gone).suppress_echo_until,
{
}

/// An offer begins with no types, and each type that is told of it comes after those before;
/// other offers are left alone, and so are those that were never introduced.
pub proof fn law_types_are_told_offer_by_offer(
    begun: &mut ClipState,
    offer: u32,
    grown: &mut ClipState,
    mime: String,
    other: u32,
)
    requires
        call_ensures(ClipState::on_data_offer, (begun, offer), ()),
        call_ensures(ClipState::on_offer_mime, (grown, offer, mime), ()),
        other != offer,
    ensures
        final(begun).offer_mimes@.contains_key(offer),
        final(begun).offer_mimes@[offer]@.len() == 0,
        final(begun).offer_mimes@.contains_key(other) <==> old(begun).offer_mimes@.contains_key(
            other,
        ),
        old(begun).offer_mimes@.contains_key(other) ==> final(begun).offer_mimes@[other]
            == old(begun).offer_mimes@[other],
        final(grown).offer_mimes@.contains_key(offer) <==> old(grown).offer_mimes@.contains_key(
            offer,
        ),
        old(grown).offer_mimes@.contains_key(offer) ==> final(grown).offer_mimes@[offer]@
            == old(grown).offer_mimes@[offer]@ + seq![mime],
        final(grown).offer_mimes@.contains_key(other) <==> old(grown).offer_mimes@.contains_key(
            other,
        ),
        old(grown).offer_mimes@.contains_key(other) ==> final(grown).offer_mimes@[other]
            == old(grown).offer_mimes@[other],
        same_globals(*final(begun), *old(begun)),
        same_active(*final(begun), *old(begun)),
        final(begun).suppress_echo_until == old(begun).suppress_echo_until,
        same_globals(*final(grown), *old(grown)),
        same_active(*final(grown), *old(grown)),
        final(grown).suppress_echo_until == old(grown).suppress_echo_until,
{
    let before = old(grown).offer_mimes@;
    if before.contains_key(offer) {
        assert(before[offer]@.push(mime) =~= before[offer]@ + seq![mime]);
    }
    assert(old(begun).offer_mimes@.dom().contains(other)
        <==> old(begun).offer_mimes@.contains_key(other));
    assert(final(begun).offer_mimes@.dom().contains(other)
        <==> final(begun).offer_mimes@.contains_key(other));
    assert(old(grown).offer_mimes@.dom().contains(other)
        <==> old(grown).offer_mimes@.contains_key(other));
    assert(old(grown).offer_mimes@.dom().contains(offer)
        <==> old(grown).offer_mimes@.contains_key(offer));
    assert(final(grown).offer_mimes@.dom().contains(other)
        <==> final(grown).offer_mimes@.contains_key(other));
    assert(final(grown).offer_mimes@.dom().contains(offer)
        <==> final(grown).offer_mimes@.contains_key(offer));
    assert(final(begun).offer_mimes@.dom().contains(offer)
        <==> final(begun).offer_mimes@.contains_key(offer));
}

/// Whether any kind of content can be read of what was offered.
pub open spec fn readable(offered: Seq<String>) -> bool {
    ||| told(offered, TEXT_MIME@)
    ||| told(offered, UTF8_MIME@)
    ||| told(offered, TEXT_PLAIN_MIME@)
    ||| told(offered, IMAGE_PNG_MIME@)
    ||| told(offered, FILE_URI_LIST_MIME@)
}

/// A selection is our own write while that is expected back; any other means that the owner has
/// changed, and is empty, unannounced, unreadable or to be read, each kind of content under the
/// type preferred for it. Its offer is forgotten, and no other is.
pub proof fn law_a_selection_is_told_by_its_offer(
    state: &mut ClipState,
    now: u128,
    offer: Option<u32>,
    step: SelectionStep,
    changed: bool,
    other: u32,
)
    requires
        call_ensures(ClipState::on_selection, (state, now, offer), step),
        call_ensures(SelectionStep::owner_changed, (&step,), changed),
    ensures
        comes_back(
            old(state).suppress_echo_until,
            now,
            step is Echo,
            final(state).suppress_echo_until,
        ),
        changed <==> !(step is Echo),
        changed && offer is None ==> step is Emptied,
        changed && offer is Some && !old(state).offer_mimes@.contains_key(offer->0)
            ==> step is Unannounced,
        changed && offer is Some && old(state).offer_mimes@.contains_key(offer->0) ==> {
            let offered = old(state).offer_mimes@[offer->0]@;
            &&& step is Unsupported <==> !readable(offered)
            &&& readable(offered) ==> {
                &&& step matches SelectionStep::Read(types)
                &&& read_under(SelectionKind::Text, offered, types.text)
                &&& read_under(SelectionKind::Image, offered, types.image)
                &&& read_under(SelectionKind::Files, offered, types.files)
            }
        },
        final(state).offer_mimes@.contains_key(other) <==> old(state).offer_mimes@.contains_key(
            other,
        ) && offer != Some(other),
        final(state).offer_mimes@.contains_key(other) ==> final(state).offer_mimes@[other]
            == old(state).offer_mimes@[other],
        same_globals(*final(state), *old(state)),
        same_active(*final(state), *old(state)),
{
    if changed && offer is Some && old(state).offer_mimes@.contains_key(offer->0) {
        let offered = old(state).offer_mimes@[offer->0]@;
        reveal_with_fuel(crate::formats::first_offered, 4);
        lemma_told(offered, TEXT_MIME@);
        lemma_told(offered, UTF8_MIME@);
        lemma_told(offered, TEXT_PLAIN_MIME@);
        lemma_told(offered, IMAGE_PNG_MIME@);
        lemma_told(offered, FILE_URI_LIST_MIME@);
        if let SelectionStep::Read(types) = step {
            lemma_read_under(SelectionKind::Text, offered, types.text);
            lemma_read_under(SelectionKind::Image, offered, types.image);
            lemma_read_under(SelectionKind::Files, offered, types.files);
        }
    }
}

/// Where there is nothing to read, nothing stays cached; our own write and an offer that nothing
/// was told of leave the caches; and an offer that is to be read leaves those it has content for.
pub proof fn law_caches_follow_the_selection(
    step: SelectionStep,
    data: &mut Option<Vec<u8>>,
    image: &mut Option<Vec<u8>>,
    intake: Option<Intake>,
)
    requires
        call_ensures(settle_caches, (&step, data, image), intake),
    ensures
        step is Emptied || step is Unsupported ==> *final(data) is None && *final(image) is None,
        step is Echo || step is Unannounced ==> *final(data) == *old(data) && *final(image)
            == *old(image),
        intake is Some <==> step is Read,
        step matches SelectionStep::Read(offered) ==> {
            &&& intake->0.text_offered <==> offered.text is Some
            &&& intake->0.formats@.len() == 0
            &&& offered.text is Some ==> *final(data) == *old(data)
            &&& offered.text is None ==> *final(data) is None
            &&& offered.image is Some ==> *final(image) == *old(image)
            &&& offered.image is None ==> *final(image) is None
        },
{
}

/// The same of an offer that is begun with by itself, and of caches that are cleared.
pub proof fn law_an_offer_keeps_what_it_has_content_for(
    offered: Offered,
    data: &mut Option<Vec<u8>>,
    image: &mut Option<Vec<u8>>,
    intake: Intake,
    old_data: &mut Option<Vec<u8>>,
    old_image: &mut Option<Vec<u8>>,
)
    requires
        call_ensures(Intake::begin, (&offered, data, image), intake),
        call_ensures(clear_cached_selection, (old_data, old_image), ()),
    ensures
        intake.text_offered <==> offered.text is Some,
        intake.formats@.len() == 0,
        offered.text is Some ==> *final(data) == *old(data),
        offered.text is None ==> *final(data) is None,
        offered.image is Some ==> *final(image) == *old(image),
        offered.image is None ==> *final(image) is None,
        *final(old_data) is None,
        *final(old_image) is None,
{
}

/// Whether bytes were cached as a format that is announced after those before.
pub open spec fn taken_as(
    format: u32,
    bytes: Seq<u8>,
    before: Seq<u32>,
    after: Seq<u32>,
    cached: Option<Vec<u8>>,
) -> bool {
    &&& cached is Some
    &&& cached->0@ == bytes
    &&& after.len() == before.len() + 1
    &&& after[before.len() as int] == format
    &&& forall|i: int| 0 <= i < before.len() ==> #[trigger] after[i] == before[i]
}

/// Text that was read and is not empty is cached and announced as text; anything else leaves
/// all as it is.
pub proof fn law_text_is_taken_as_it_was_read(
    intake: &mut Intake,
    read: Option<Vec<u8>>,
    data: &mut Option<Vec<u8>>,
)
    requires
        call_ensures(Intake::take_text, (intake, read, data), ()),
    ensures
        read is Some && read->0@.len() > 0 ==> taken_as(
            13,
            read->0@,
            old(intake).formats@,
            final(intake).formats@,
            *final(data),
        ),
        read is None || read->0@.len() == 0 ==> *final(data) == *old(data) && final(intake).formats@
            == old(intake).formats@,
        final(intake).text_offered == old(intake).text_offered,
{
}

/// A list of URIs is taken as text, but not one that named files, nor one that is empty, nor
/// where the offer has text of its own.
pub proof fn law_other_uris_are_taken_as_text(
    intake: &mut Intake,
    read: Option<Vec<u8>>,
    frozen: bool,
    data: &mut Option<Vec<u8>>,
)
    requires
        call_ensures(Intake::take_files, (intake, read, frozen, data), ()),
    ensures
        read is Some && read->0@.len() > 0 && !frozen && !old(intake).text_offered ==> taken_as(
            13,
            read->0@,
            old(intake).formats@,
            final(intake).formats@,
            *final(data),
        ),
        read is None || read->0@.len() == 0 || frozen || old(intake).text_offered ==> *final(data)
            == *old(data) && final(intake).formats@ == old(intake).formats@,
        final(intake).text_offered == old(intake).text_offered,
{
}

/// An image that was converted is cached and announced as one; one that could not be leaves all
/// as it is.
pub proof fn law_an_image_is_taken_as_it_was_converted(
    intake: &mut Intake,
    dib: Option<Vec<u8>>,
    image: &mut Option<Vec<u8>>,
    reader: &mut Intake,
    read: Option<Vec<u8>>,
    cached: &mut Option<Vec<u8>>,
)
    requires
        call_ensures(Intake::take_dib, (intake, dib, image), ()),
        call_ensures(Intake::take_image, (reader, read, cached), ()),
    ensures
        dib is Some ==> taken_as(
            8,
            dib->0@,
            old(intake).formats@,
            final(intake).formats@,
            *final(image),
        ),
        dib is None ==> *final(image) == *old(image) && final(intake).formats@
            == old(intake).formats@,
        final(intake).text_offered == old(intake).text_offered,
        ({
            let converted = read is Some && read->0@.len() > 0 && palette_in_order(read->0@)
                && dib_of_png(read->0@) is Some;
            &&& converted ==> taken_as(
                8,
                dib_of_png(read->0@)->0,
                old(reader).formats@,
                final(reader).formats@,
                *final(cached),
            )
            &&& !converted ==> *final(cached) == *old(cached) && final(reader).formats@
                == old(reader).formats@
        }),
        final(reader).text_offered == old(reader).text_offered,
{
}

/// What was taken in is announced, all of it and in order, unless there is nothing.
pub proof fn law_what_was_taken_in_is_announced(intake: Intake, formats: Option<Vec<u32>>)
    requires
        call_ensures(Intake::finish, (intake,), formats),
    ensures
        formats is Some <==> intake.formats@.len() > 0,
        formats is Some ==> formats->0@ == intake.formats@,
{
}

} // verus!
