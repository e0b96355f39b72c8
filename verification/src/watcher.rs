//! The desktop's clipboard as the compositor tells of it.
//!
//! Times are nanoseconds on one clock. Offers and sources go by the numbers that the
//! compositor's protocol gives them.

use crate::formats::{PendingWrite, SelectionKind};
use crate::text::{same_text, texts};
use std::collections::HashMap;
use vstd::prelude::*;

verus! {

/// The version of the data-control manager that is spoken. Primary selections, which come
/// with the next one, are not handled.
pub const DATA_CONTROL_VERSION: u32 = 1;

pub const SEAT_VERSION: u32 = 1;

pub const MANAGER_INTERFACE: &'static str = "zwlr_data_control_manager_v1";

pub const SEAT_INTERFACE: &'static str = "wl_seat";

/// How long a write of our own is expected to come back as a new selection.
pub const ECHO_SUPPRESSION_TIMEOUT: u128 = 2_000_000_000;

/// How long after the first such return the rest of them is expected.
pub const ECHO_SUPPRESSION_GRACE: u128 = 100_000_000;

pub open spec fn lesser(a: u32, b: u32) -> u32 {
    if a <= b { a } else { b }
}

/// The version to bind the data-control manager at.
pub fn data_control_manager_version(advertised_version: u32) -> (version: u32)
    ensures
        version == lesser(advertised_version, DATA_CONTROL_VERSION),
{
    if advertised_version <= DATA_CONTROL_VERSION {
        advertised_version
    } else {
        DATA_CONTROL_VERSION
    }
}

/// Content that we have made the selection.
pub struct ActiveSelection {
    pub kind: SelectionKind,
    pub pending: PendingWrite,
}

/// What an advertised global is to be bound as.
#[derive(Clone, Copy, PartialEq, Eq, Debug, Structural)]
pub enum Bind {
    Manager(u32),
    Seat(u32),
    Nothing,
}

/// Whether the globals that are needed are there.
#[derive(Clone, Copy, PartialEq, Eq, Debug, Structural)]
pub enum GlobalsStep {
    Ready,
    Missing,
    /// More announcements are to be waited for.
    Wait,
}

/// The MIME type to read each kind of content of an offer under.
#[derive(Clone, Copy)]
pub struct Offered {
    pub text: Option<&'static str>,
    pub image: Option<&'static str>,
    pub files: Option<&'static str>,
}

/// What a new selection is to the clipboard.
pub enum SelectionStep {
    /// It is a write of our own that comes back.
    Echo,
    /// There is no selection any more.
    Emptied,
    /// Nothing was told of what the offer holds.
    Unannounced,
    /// The offer holds nothing that can be read.
    Unsupported,
    /// The offer is to be read.
    Read(Offered),
}

impl SelectionStep {
    /// Whether somebody else has taken the clipboard: what the remote offered is superseded,
    /// and what was kept of the desktop's files is out of date.
    pub fn owner_changed(&self) -> (changed: bool)
        ensures
            changed == !(self is Echo),
    {
        !matches!(self, SelectionStep::Echo)
    }
}

/// The outcome of one look at the echo deadline: whether a selection seen at `now` is our
/// own, and the deadline from then on.
pub open spec fn echo(until: Option<u128>, now: u128) -> (bool, Option<u128>) {
    match until {
        None => (false, None),
        Some(deadline) => if now >= deadline {
            (false, None)
        } else if deadline <= now + ECHO_SUPPRESSION_GRACE {
            (true, Some(deadline))
        } else {
            (true, Some((now + ECHO_SUPPRESSION_GRACE) as u128))
        },
    }
}

/// Whether a MIME type found for a kind is the preferred one of those offered.
pub open spec fn finds(
    kind: SelectionKind,
    offered: Seq<Seq<char>>,
    found: Option<&'static str>,
) -> bool {
    match found {
        Some(mime) => kind.preferred(offered) == Some(mime@),
        None => kind.preferred(offered) is None,
    }
}

pub struct ClipState {
    /// Until when a new selection is taken for the return of our own write.
    pub suppress_echo_until: Option<u128>,
    pub manager: bool,
    pub seat: bool,
    pub device: bool,
    /// The MIME types told of each offer so far.
    pub offer_mimes: HashMap<u32, Vec<String>>,
    pub active_selection: Option<ActiveSelection>,
    /// The source of the active selection, to be destroyed when it is replaced.
    pub active_source: Option<u32>,
}

impl ClipState {
    /// Active content is of the kind that it is offered as.
    pub open spec fn wf(&self) -> bool {
        self.active_selection matches Some(active) ==> active.kind == active.pending.spec_kind()
    }

    pub fn new() -> (state: Self)
        ensures
            state.wf(),
            state.suppress_echo_until is None,
            !state.manager && !state.seat && !state.device,
            state.offer_mimes@ == Map::<u32, Vec<String>>::empty(),
            state.active_selection is None,
            state.active_source is None,
    {
        ClipState {
            suppress_echo_until: None,
            manager: false,
            seat: false,
            device: false,
            offer_mimes: HashMap::new(),
            active_selection: None,
            active_source: None,
        }
    }

    /// Nothing but the echo deadline differs.
    pub open spec fn same_but_echo(&self, other: &ClipState) -> bool {
        *self == (ClipState { suppress_echo_until: self.suppress_echo_until, ..*other })
    }

    /// Nothing but the offers differs.
    pub open spec fn same_but_offers(&self, other: &ClipState) -> bool {
        *self == (ClipState { offer_mimes: self.offer_mimes, ..*other })
    }

    /// Takes the content to be written, and expects it back as a selection from then on.
    pub fn take_pending_write(&mut self, now: u128, pending: &mut Option<PendingWrite>) -> (taken:
        Option<PendingWrite>)
        requires
            now + ECHO_SUPPRESSION_TIMEOUT <= u128::MAX,
        ensures
            taken == *old(pending),
            *final(pending) is None,
            final(self).same_but_echo(old(self)),
            final(self).suppress_echo_until == if taken is Some {
                Some((now + ECHO_SUPPRESSION_TIMEOUT) as u128)
            } else {
                old(self).suppress_echo_until
            },
    {
        let taken = pending.take();
        if taken.is_some() {
            self.suppress_echo_until = Some(now + ECHO_SUPPRESSION_TIMEOUT);
        }
        taken
    }

    /// Whether a selection seen at `now` is the return of our own write. The compositor may
    /// answer one write with several; later selections are somebody else's.
    pub fn selection_is_our_echo(&mut self, now: u128) -> (ours: bool)
        ensures
            (ours, final(self).suppress_echo_until) == echo(old(self).suppress_echo_until, now),
            final(self).same_but_echo(old(self)),
    {
        let deadline: u128 = match self.suppress_echo_until {
            Some(deadline) => deadline,
            None => {
                return false;
            },
        };
        if now >= deadline {
            self.suppress_echo_until = None;
            return false;
        }
        if deadline - now > ECHO_SUPPRESSION_GRACE {
            self.suppress_echo_until = Some(now + ECHO_SUPPRESSION_GRACE);
        }
        true
    }

    /// A global is advertised. The manager is taken as often as it is, the seat once.
    pub fn on_global(&mut self, interface: &str, version: u32) -> (bind: Bind)
        ensures
            ({
                if interface@ == MANAGER_INTERFACE@ {
                    &&& bind == Bind::Manager(lesser(version, DATA_CONTROL_VERSION))
                    &&& *final(self) == (ClipState { manager: true, ..*old(self) })
                } else if interface@ == SEAT_INTERFACE@ && !old(self).seat {
                    &&& bind == Bind::Seat(lesser(version, SEAT_VERSION))
                    &&& *final(self) == (ClipState { seat: true, ..*old(self) })
                } else {
                    &&& bind == Bind::Nothing
                    &&& *final(self) == *old(self)
                }
            }),
    {
        if same_text(interface, MANAGER_INTERFACE) {
            self.manager = true;
            Bind::Manager(data_control_manager_version(version))
        } else if same_text(interface, SEAT_INTERFACE) && !self.seat {
            self.seat = true;
            Bind::Seat(if version <= SEAT_VERSION { version } else { SEAT_VERSION })
        } else {
            Bind::Nothing
        }
    }

    /// Whether to go on once `remaining` is left to wait for the globals.
    pub fn globals_step(&self, remaining: u128) -> (step: GlobalsStep)
        ensures
            step == if self.manager && self.seat {
                GlobalsStep::Ready
            } else if remaining == 0 {
                GlobalsStep::Missing
            } else {
                GlobalsStep::Wait
            },
    {
        if self.manager && self.seat {
            GlobalsStep::Ready
        } else if remaining == 0 {
            GlobalsStep::Missing
        } else {
            GlobalsStep::Wait
        }
    }

    /// The interfaces that nobody has advertised.
    pub fn missing_globals(&self) -> (missing: Vec<&'static str>)
        ensures
            missing@.map_values(|m: &'static str| m@) == (if self.manager {
                Seq::<Seq<char>>::empty()
            } else {
                seq![MANAGER_INTERFACE@]
            }) + (if self.seat {
                Seq::<Seq<char>>::empty()
            } else {
                seq![SEAT_INTERFACE@]
            }),
    {
        let mut missing: Vec<&'static str> = Vec::new();
        if !self.manager {
            missing.push(MANAGER_INTERFACE);
        }
        if !self.seat {
            missing.push(SEAT_INTERFACE);
        }
        proof {
            let a = if self.manager {
                Seq::<Seq<char>>::empty()
            } else {
                seq![MANAGER_INTERFACE@]
            };
            let b = if self.seat {
                Seq::<Seq<char>>::empty()
            } else {
                seq![SEAT_INTERFACE@]
            };
            assert(missing@.map_values(|m: &'static str| m@) =~= a + b);
        }
        missing
    }

    /// The source that is to be destroyed before another takes its place.
    pub fn take_source(&mut self) -> (source: Option<u32>)
        ensures
            source == old(self).active_source,
            *final(self) == (ClipState { active_source: None, ..*old(self) }),
    {
        self.active_source.take()
    }

    /// Content becomes the selection, given out by `source`.
    pub fn activate(&mut self, pending: PendingWrite, source: u32)
        ensures
            final(self).wf(),
            *final(self) == (ClipState {
                active_selection: Some(
                    ActiveSelection { kind: pending.spec_kind(), pending },
                ),
                active_source: Some(source),
                ..*old(self)
            }),
    {
        self.active_selection = Some(ActiveSelection { kind: pending.kind(), pending });
        self.active_source = Some(source);
    }

    /// The bytes to give out when the selection is asked for under a MIME type.
    pub fn on_source_send(&self, mime: &str) -> (data: Option<&[u8]>)
        requires
            self.wf(),
        ensures
            match self.active_selection {
                Some(active) => match data {
                    Some(d) => active.pending.content(mime@) == Some(d@),
                    None => active.pending.content(mime@) is None,
                },
                None => data is None,
            },
    {
        match &self.active_selection {
            Some(active) => {
                proof {
                    crate::formats::law_content_for_every_offered_mime(active.pending, mime@);
                }
                if active.kind.accepts_wayland_mime(mime) {
                    active.pending.data_for_mime(mime)
                } else {
                    None
                }
            },
            None => None,
        }
    }

    /// A source is no longer the selection's. A source that was replaced before is none of
    /// the active selection's business.
    pub fn on_source_cancelled(&mut self, source: u32)
        requires
            old(self).wf(),
        ensures
            final(self).wf(),
            *final(self) == if old(self).active_source == Some(source) {
                ClipState { active_source: None, active_selection: None, ..*old(self) }
            } else {
                *old(self)
            },
    {
        let active = match self.active_source {
            Some(s) => s == source,
            None => false,
        };
        if active {
            self.active_source = None;
            self.active_selection = None;
        }
    }

    /// The device is there, and selections can be set.
    pub fn on_device(&mut self)
        ensures
            *final(self) == (ClipState { device: true, ..*old(self) }),
    {
        self.device = true;
    }

    /// The device is gone.
    pub fn on_finished(&mut self)
        ensures
            *final(self) == (ClipState { device: false, ..*old(self) }),
    {
        self.device = false;
    }

    /// An offer is introduced, with nothing told of it yet.
    pub fn on_data_offer(&mut self, offer: u32)
        ensures
            final(self).same_but_offers(old(self)),
            final(self).offer_mimes@.dom() == old(self).offer_mimes@.dom().insert(offer),
            final(self).offer_mimes@[offer]@.len() == 0,
            forall|other: u32|
                other != offer && old(self).offer_mimes@.contains_key(other)
                    ==> #[trigger] final(self).offer_mimes@[other] == old(self).offer_mimes@[other],
    {
        self.offer_mimes.insert(offer, Vec::new());
    }

    /// One more MIME type of an offer is told. Offers that are not known are ignored.
    pub fn on_offer_mime(&mut self, offer: u32, mime: String)
        ensures
            final(self).same_but_offers(old(self)),
            final(self).offer_mimes@.dom() == old(self).offer_mimes@.dom(),
            old(self).offer_mimes@.contains_key(offer) ==> final(self).offer_mimes@[offer]@
                == old(self).offer_mimes@[offer]@.push(mime),
            forall|other: u32|
                other != offer && old(self).offer_mimes@.contains_key(other)
                    ==> #[trigger] final(self).offer_mimes@[other] == old(self).offer_mimes@[other],
    {
        if let Some(mut mimes) = self.offer_mimes.remove(&offer) {
            mimes.push(mime);
            self.offer_mimes.insert(offer, mimes);
        }
        assert(self.offer_mimes@.dom() =~= old(self).offer_mimes@.dom());
    }

    /// What a selection seen at `now` is to the clipboard. Its offer is known no more.
    pub fn on_selection(&mut self, now: u128, offer: Option<u32>) -> (step: SelectionStep)
        ensures
            *final(self) == (ClipState {
                suppress_echo_until: echo(old(self).suppress_echo_until, now).1,
                offer_mimes: final(self).offer_mimes,
                ..*old(self)
            }),
            final(self).offer_mimes@ == match offer {
                Some(id) => old(self).offer_mimes@.remove(id),
                None => old(self).offer_mimes@,
            },
            step is Echo <==> echo(old(self).suppress_echo_until, now).0,
            !(step is Echo) ==> match offer {
                None => step is Emptied,
                Some(id) => if !old(self).offer_mimes@.contains_key(id) {
                    step is Unannounced
                } else {
                    let told = texts(old(self).offer_mimes@[id]@);
                    let readable = SelectionKind::Text.preferred(told) is Some
                        || SelectionKind::Image.preferred(told) is Some
                        || SelectionKind::Files.preferred(told) is Some;
                    match step {
                        SelectionStep::Read(offered) => {
                            &&& readable
                            &&& finds(SelectionKind::Text, told, offered.text)
                            &&& finds(SelectionKind::Image, told, offered.image)
                            &&& finds(SelectionKind::Files, told, offered.files)
                        },
                        SelectionStep::Unsupported => !readable,
                        _ => false,
                    }
                },
            },
    {
        if self.selection_is_our_echo(now) {
            if let Some(id) = offer {
                self.offer_mimes.remove(&id);
            }
            return SelectionStep::Echo;
        }
        let id: u32 = match offer {
            Some(id) => id,
            None => {
                return SelectionStep::Emptied;
            },
        };
        let mimes = match self.offer_mimes.remove(&id) {
            Some(mimes) => mimes,
            None => {
                return SelectionStep::Unannounced;
            },
        };
        let text = SelectionKind::Text.offered_wayland_mime(&mimes);
        let image = SelectionKind::Image.offered_wayland_mime(&mimes);
        let files = SelectionKind::Files.offered_wayland_mime(&mimes);
        if text.is_none() && image.is_none() && files.is_none() {
            return SelectionStep::Unsupported;
        }
        SelectionStep::Read(Offered { text, image, files })
    }
}

/// A write is expected back for no longer than its timeout, however often it comes back.
pub proof fn law_echo_deadline_never_rises(until: Option<u128>, now: u128)
    ensures
        match echo(until, now).1 {
            Some(after) => until matches Some(before) && after <= before && now < after,
            None => !echo(until, now).0,
        },
{
}

/// Once a write has come back, selections are taken for its return for the length of the
/// grace, and for no longer.
pub proof fn law_echo_burst_expires(until: Option<u128>, first: u128, later: u128)
    requires
        echo(until, first).0,
    ensures
        later >= first + ECHO_SUPPRESSION_GRACE ==> !echo(echo(until, first).1, later).0,
        later >= until->0 ==> !echo(echo(until, first).1, later).0,
        later < first + ECHO_SUPPRESSION_GRACE && later < until->0 ==> echo(
            echo(until, first).1,
            later,
        ).0,
{
}

} // verus!
