//! What a selection can hold, and the MIME types it is offered under.

use crate::text::{contains_text, same_text, texts};
use vstd::prelude::*;

verus! {

pub const TEXT_MIME: &'static str = "text/plain;charset=utf-8";

pub const UTF8_MIME: &'static str = "UTF8_STRING";

pub const TEXT_PLAIN_MIME: &'static str = "text/plain";

pub const IMAGE_PNG_MIME: &'static str = "image/png";

pub const FILE_URI_LIST_MIME: &'static str = "text/uri-list";

pub const GNOME_COPIED_FILES_MIME: &'static str = "x-special/gnome-copied-files";

/// The most bytes that are taken from one offer.
pub const MAX_CLIPBOARD_SIZE: usize = 67_108_864;

/// What kind of content a selection holds.
#[derive(Clone, Copy, PartialEq, Eq, Debug, Structural)]
pub enum SelectionKind {
    Text,
    Image,
    Files,
}

/// Content that is to become the desktop's selection.
pub enum PendingWrite {
    Text(Vec<u8>),
    Image(Vec<u8>),
    Files { uri_list: Vec<u8>, gnome_copied_files: Vec<u8> },
}

impl SelectionKind {
    /// The MIME types under which content of this kind is offered, the preferred first.
    pub open spec fn mimes(self) -> Seq<Seq<char>> {
        match self {
            SelectionKind::Text => seq![TEXT_MIME@, UTF8_MIME@, TEXT_PLAIN_MIME@],
            SelectionKind::Image => seq![IMAGE_PNG_MIME@],
            SelectionKind::Files => seq![FILE_URI_LIST_MIME@, GNOME_COPIED_FILES_MIME@],
        }
    }

    /// The MIME types under which content of this kind is read, the preferred first. Of
    /// files only the plain list of URIs is read.
    pub open spec fn readable_mimes(self) -> Seq<Seq<char>> {
        match self {
            SelectionKind::Text => seq![TEXT_MIME@, UTF8_MIME@, TEXT_PLAIN_MIME@],
            SelectionKind::Image => seq![IMAGE_PNG_MIME@],
            SelectionKind::Files => seq![FILE_URI_LIST_MIME@],
        }
    }

    /// The preferred MIME type among those offered: the first that is readable.
    pub open spec fn preferred(self, offered: Seq<Seq<char>>) -> Option<Seq<char>> {
        first_offered(self.readable_mimes(), offered)
    }

    pub fn wayland_mimes(&self) -> (mimes: Vec<&'static str>)
        ensures
            mimes@.map_values(|m: &'static str| m@) == self.mimes(),
    {
        let mut mimes: Vec<&'static str> = Vec::new();
        match self {
            SelectionKind::Text => {
                mimes.push(TEXT_MIME);
                mimes.push(UTF8_MIME);
                mimes.push(TEXT_PLAIN_MIME);
            },
            SelectionKind::Image => {
                mimes.push(IMAGE_PNG_MIME);
            },
            SelectionKind::Files => {
                mimes.push(FILE_URI_LIST_MIME);
                mimes.push(GNOME_COPIED_FILES_MIME);
            },
        }
        assert(mimes@.map_values(|m: &'static str| m@) =~= self.mimes());
        mimes
    }

    /// Whether content of this kind is given out under `mime`.
    pub fn accepts_wayland_mime(&self, mime: &str) -> (accepts: bool)
        ensures
            accepts == self.mimes().contains(mime@),
    {
        let ghost all = self.mimes();
        match self {
            SelectionKind::Text => {
                assert(all[0] == TEXT_MIME@ && all[1] == UTF8_MIME@ && all[2] == TEXT_PLAIN_MIME@);
                same_text(mime, TEXT_MIME) || same_text(mime, UTF8_MIME) || same_text(
                    mime,
                    TEXT_PLAIN_MIME,
                )
            },
            SelectionKind::Image => {
                assert(all[0] == IMAGE_PNG_MIME@);
                same_text(mime, IMAGE_PNG_MIME)
            },
            SelectionKind::Files => {
                assert(all[0] == FILE_URI_LIST_MIME@ && all[1] == GNOME_COPIED_FILES_MIME@);
                same_text(mime, FILE_URI_LIST_MIME) || same_text(mime, GNOME_COPIED_FILES_MIME)
            },
        }
    }

    /// The MIME type to read content of this kind under, if any is offered.
    pub fn offered_wayland_mime(&self, offered: &Vec<String>) -> (mime: Option<&'static str>)
        ensures
            match mime {
                Some(m) => self.preferred(texts(offered@)) == Some(m@),
                None => self.preferred(texts(offered@)) is None,
            },
    {
        proof {
            reveal_with_fuel(first_offered, 4);
            let all = self.readable_mimes();
            assert(all.drop_first() =~= all.subrange(1, all.len() as int));
        }
        match self {
            SelectionKind::Text => {
                if contains_text(offered, TEXT_MIME) {
                    Some(TEXT_MIME)
                } else if contains_text(offered, UTF8_MIME) {
                    Some(UTF8_MIME)
                } else if contains_text(offered, TEXT_PLAIN_MIME) {
                    Some(TEXT_PLAIN_MIME)
                } else {
                    None
                }
            },
            SelectionKind::Image => {
                if contains_text(offered, IMAGE_PNG_MIME) {
                    Some(IMAGE_PNG_MIME)
                } else {
                    None
                }
            },
            SelectionKind::Files => {
                if contains_text(offered, FILE_URI_LIST_MIME) {
                    Some(FILE_URI_LIST_MIME)
                } else {
                    None
                }
            },
        }
    }
}

/// The first of `wanted` that is among `offered`.
pub open spec fn first_offered(wanted: Seq<Seq<char>>, offered: Seq<Seq<char>>) -> Option<Seq<char>>
    decreases wanted.len(),
{
    if wanted.len() == 0 {
        None
    } else if offered.contains(wanted[0]) {
        Some(wanted[0])
    } else {
        first_offered(wanted.drop_first(), offered)
    }
}

impl PendingWrite {
    pub open spec fn spec_kind(self) -> SelectionKind {
        match self {
            PendingWrite::Text(_) => SelectionKind::Text,
            PendingWrite::Image(_) => SelectionKind::Image,
            PendingWrite::Files { .. } => SelectionKind::Files,
        }
    }

    /// The bytes given out under a MIME type.
    pub open spec fn content(self, mime: Seq<char>) -> Option<Seq<u8>> {
        match self {
            PendingWrite::Text(data) => if SelectionKind::Text.mimes().contains(mime) {
                Some(data@)
            } else {
                None
            },
            PendingWrite::Image(data) => if mime == IMAGE_PNG_MIME@ {
                Some(data@)
            } else {
                None
            },
            PendingWrite::Files { uri_list, gnome_copied_files } => if mime
                == FILE_URI_LIST_MIME@ {
                Some(uri_list@)
            } else if mime == GNOME_COPIED_FILES_MIME@ {
                Some(gnome_copied_files@)
            } else {
                None
            },
        }
    }

    pub fn kind(&self) -> (kind: SelectionKind)
        ensures
            kind == self.spec_kind(),
    {
        match self {
            PendingWrite::Text(_) => SelectionKind::Text,
            PendingWrite::Image(_) => SelectionKind::Image,
            PendingWrite::Files { .. } => SelectionKind::Files,
        }
    }

    /// The bytes given out under a MIME type.
    pub fn data_for_mime(&self, mime: &str) -> (data: Option<&[u8]>)
        ensures
            match data {
                Some(d) => self.content(mime@) == Some(d@),
                None => self.content(mime@) is None,
            },
    {
        match self {
            PendingWrite::Text(data) => {
                if SelectionKind::Text.accepts_wayland_mime(mime) {
                    Some(data.as_slice())
                } else {
                    None
                }
            },
            PendingWrite::Image(data) => {
                if same_text(mime, IMAGE_PNG_MIME) {
                    Some(data.as_slice())
                } else {
                    None
                }
            },
            PendingWrite::Files { uri_list, gnome_copied_files } => {
                if same_text(mime, FILE_URI_LIST_MIME) {
                    Some(uri_list.as_slice())
                } else if same_text(mime, GNOME_COPIED_FILES_MIME) {
                    Some(gnome_copied_files.as_slice())
                } else {
                    None
                }
            },
        }
    }
}

/// Content is given out under exactly the MIME types that its kind is offered under.
pub proof fn law_content_for_every_offered_mime(write: PendingWrite, mime: Seq<char>)
    ensures
        write.content(mime) is Some <==> write.spec_kind().mimes().contains(mime),
{
    let all = write.spec_kind().mimes();
    match write {
        PendingWrite::Text(_) => {},
        PendingWrite::Image(_) => {
            assert(all[0] == IMAGE_PNG_MIME@);
        },
        PendingWrite::Files { .. } => {
            assert(all[0] == FILE_URI_LIST_MIME@ && all[1] == GNOME_COPIED_FILES_MIME@);
        },
    }
}

/// A MIME type is chosen for a kind only if it is readable and was offered; where none is
/// chosen, none of the readable ones was offered.
pub proof fn law_preferred_is_offered(kind: SelectionKind, offered: Seq<Seq<char>>)
    ensures
        match kind.preferred(offered) {
            Some(mime) => offered.contains(mime) && kind.readable_mimes().contains(mime),
            None => forall|i: int|
                0 <= i < kind.readable_mimes().len() ==> !offered.contains(
                    #[trigger] kind.readable_mimes()[i],
                ),
        },
{
    lemma_first_offered(kind.readable_mimes(), offered);
}

proof fn lemma_first_offered(wanted: Seq<Seq<char>>, offered: Seq<Seq<char>>)
    ensures
        match first_offered(wanted, offered) {
            Some(mime) => offered.contains(mime) && wanted.contains(mime),
            None => forall|i: int|
                0 <= i < wanted.len() ==> !offered.contains(#[trigger] wanted[i]),
        },
    decreases wanted.len(),
{
    if wanted.len() > 0 {
        let rest = wanted.drop_first();
        lemma_first_offered(rest, offered);
        assert(forall|i: int| 0 < i < wanted.len() ==> wanted[i] == #[trigger] rest[i - 1]);
        if !offered.contains(wanted[0]) {
            match first_offered(rest, offered) {
                Some(mime) => {
                    let k = choose|k: int| 0 <= k < rest.len() && rest[k] == mime;
                    assert(wanted[k + 1] == mime);
                },
                None => {
                    assert forall|i: int| 0 <= i < wanted.len() implies !offered.contains(
                        #[trigger] wanted[i],
                    ) by {
                        if i > 0 {
                            assert(wanted[i] == rest[i - 1]);
                        }
                    }
                },
            }
        }
    }
}

} // verus!
