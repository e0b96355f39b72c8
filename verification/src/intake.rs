//! A new selection of the desktop, taken in for the remote.

use crate::png::{has_palette_in_order, palette_in_order};
use crate::watcher::{Offered, SelectionStep};
use vstd::prelude::*;

verus! {

/// The clipboard format of text.
pub const CF_UNICODETEXT: u32 = 13;

/// The clipboard format of images.
pub const CF_DIB: u32 = 8;

/// What `png_to_cf_dib` makes of an image.
pub uninterp spec fn dib_of_png(png: Seq<u8>) -> Option<Seq<u8>>;

/// `ironrdp_cliprdr_format::bitmap::png_to_cf_dib`: an image in the form that the remote
/// takes, and nothing where it cannot be converted. It panics on an indexed image whose palette
/// ends in the middle of an entry.
#[verifier::external_body]
fn png_to_dib(png: &[u8]) -> (dib: Option<Vec<u8>>)
    requires
        palette_in_order(png@),
    ensures
        bytes_of(dib) == dib_of_png(png@),
{
    ironrdp_cliprdr_format::bitmap::png_to_cf_dib(png).ok()
}

/// What cached or read bytes stand for.
pub open spec fn bytes_of(bytes: Option<Vec<u8>>) -> Option<Seq<u8>> {
    match bytes {
        Some(b) => Some(b@),
        None => None,
    }
}

/// Bytes that say something.
pub open spec fn non_empty(bytes: Option<Vec<u8>>) -> bool {
    bytes matches Some(b) && b@.len() > 0
}

/// Forgets what was cached, so that nothing of a selection that is gone is offered on.
pub fn clear_cached_selection(data: &mut Option<Vec<u8>>, image: &mut Option<Vec<u8>>)
    ensures
        *final(data) is None,
        *final(image) is None,
{
    *data = None;
    *image = None;
}

/// The formats that an offer has yielded while it is read.
pub struct Intake {
    pub text_offered: bool,
    pub formats: Vec<u32>,
}

impl Intake {
    /// Begins to take in an offer. What is cached of formats that the offer does not have
    /// is forgotten, lest it be offered on with the new selection.
    pub fn begin(offered: &Offered, data: &mut Option<Vec<u8>>, image: &mut Option<Vec<u8>>) -> (
    intake: Self)
        ensures
            intake.text_offered == (offered.text is Some),
            intake.formats@.len() == 0,
            *final(data) == if offered.text is Some { *old(data) } else { None },
            *final(image) == if offered.image is Some { *old(image) } else { None },
    {
        let text_offered = offered.text.is_some();
        if !text_offered {
            *data = None;
        }
        if offered.image.is_none() {
            *image = None;
        }
        Intake { text_offered, formats: Vec::new() }
    }

    /// Nothing but the formats differs.
    pub open spec fn same_but_formats(&self, other: &Intake) -> bool {
        self.text_offered == other.text_offered
    }

    /// Text was read, or could not be. Empty text is no format.
    pub fn take_text(&mut self, read: Option<Vec<u8>>, data: &mut Option<Vec<u8>>)
        ensures
            final(self).same_but_formats(old(self)),
            if non_empty(read) {
                &&& *final(data) == read
                &&& final(self).formats@ == old(self).formats@.push(CF_UNICODETEXT)
            } else {
                &&& *final(data) == *old(data)
                &&& final(self).formats@ == old(self).formats@
            },
    {
        if let Some(text) = read {
            if !text.is_empty() {
                *data = Some(text);
                self.formats.push(CF_UNICODETEXT);
            }
        }
    }

    /// An image was converted, or could not be.
    pub fn take_dib(&mut self, dib: Option<Vec<u8>>, image: &mut Option<Vec<u8>>)
        ensures
            final(self).same_but_formats(old(self)),
            if dib is Some {
                &&& *final(image) == dib
                &&& final(self).formats@ == old(self).formats@.push(CF_DIB)
            } else {
                &&& *final(image) == *old(image)
                &&& final(self).formats@ == old(self).formats@
            },
    {
        if dib.is_some() {
            *image = dib;
            self.formats.push(CF_DIB);
        }
    }

    /// An image was read, or could not be. It is converted to the form that the remote
    /// takes; one that is empty or cannot be converted is no format, and neither is one whose
    /// palette ends in the middle of an entry.
    pub fn take_image(&mut self, read: Option<Vec<u8>>, image: &mut Option<Vec<u8>>)
        ensures
            final(self).same_but_formats(old(self)),
            ({
                let dib = if non_empty(read) && palette_in_order(read->0@) {
                    dib_of_png(read->0@)
                } else {
                    None
                };
                if dib is Some {
                    &&& bytes_of(*final(image)) == dib
                    &&& final(self).formats@ == old(self).formats@.push(CF_DIB)
                } else {
                    &&& *final(image) == *old(image)
                    &&& final(self).formats@ == old(self).formats@
                }
            }),
    {
        if let Some(png) = read {
            if !png.is_empty() && has_palette_in_order(png.as_slice()) {
                let dib = png_to_dib(png.as_slice());
                self.take_dib(dib, image);
            }
        }
    }

    /// A list of URIs was read, or could not be; `frozen` says that it named files, which
    /// are now kept for the remote. A list of other URIs remains ordinary text, where the
    /// offer has no text of its own.
    pub fn take_files(&mut self, read: Option<Vec<u8>>, frozen: bool, data: &mut Option<Vec<u8>>)
        ensures
            final(self).same_but_formats(old(self)),
            if non_empty(read) && !frozen && !old(self).text_offered {
                &&& *final(data) == read
                &&& final(self).formats@ == old(self).formats@.push(CF_UNICODETEXT)
            } else {
                &&& *final(data) == *old(data)
                &&& final(self).formats@ == old(self).formats@
            },
    {
        if let Some(uri_list) = read {
            if !frozen && !self.text_offered && !uri_list.is_empty() {
                *data = Some(uri_list);
                self.formats.push(CF_UNICODETEXT);
            }
        }
    }

    /// The formats to announce to the remote, if there is one.
    pub fn finish(self) -> (formats: Option<Vec<u32>>)
        ensures
            formats == if self.formats@.len() > 0 { Some(self.formats) } else { None },
    {
        if self.formats.is_empty() {
            None
        } else {
            Some(self.formats)
        }
    }
}

/// What a new selection makes of the caches. Where there is nothing to read any more, all of
/// the selection before it is forgotten; where there is, what it does not offer is forgotten,
/// and the rest is taken in; our own write and an offer that nothing was told of leave them.
pub fn settle_caches(
    step: &SelectionStep,
    data: &mut Option<Vec<u8>>,
    image: &mut Option<Vec<u8>>,
) -> (intake: Option<Intake>)
    ensures
        match *step {
            SelectionStep::Emptied | SelectionStep::Unsupported => {
                &&& intake is None
                &&& *final(data) is None
                &&& *final(image) is None
            },
            SelectionStep::Echo | SelectionStep::Unannounced => {
                &&& intake is None
                &&& *final(data) == *old(data)
                &&& *final(image) == *old(image)
            },
            SelectionStep::Read(offered) => {
                &&& intake matches Some(begun)
                &&& begun.text_offered == (offered.text is Some)
                &&& begun.formats@.len() == 0
                &&& *final(data) == if offered.text is Some { *old(data) } else { None }
                &&& *final(image) == if offered.image is Some { *old(image) } else { None }
            },
        },
{
    match step {
        SelectionStep::Emptied | SelectionStep::Unsupported => {
            clear_cached_selection(data, image);
            None
        },
        SelectionStep::Echo | SelectionStep::Unannounced => None,
        SelectionStep::Read(offered) => Some(Intake::begin(offered, data, image)),
    }
}

/// Every announced format has something cached to hand out for it.
pub open spec fn announcement_is_backed(
    formats: Seq<u32>,
    data: Option<Seq<u8>>,
    image: Option<Seq<u8>>,
) -> bool {
    &&& formats.contains(CF_UNICODETEXT) ==> (data matches Some(text) && text.len() > 0)
    &&& formats.contains(CF_DIB) ==> image is Some
}

/// What an offer has yielded is cached at every step: before anything is read, after text or
/// a list that counts as text, and after an image.
pub proof fn law_announced_formats_are_cached(
    formats: Seq<u32>,
    data: Option<Seq<u8>>,
    image: Option<Seq<u8>>,
    text: Seq<u8>,
    dib: Seq<u8>,
)
    requires
        announcement_is_backed(formats, data, image),
        text.len() > 0,
    ensures
        announcement_is_backed(Seq::empty(), data, image),
        announcement_is_backed(formats.push(CF_UNICODETEXT), Some(text), image),
        announcement_is_backed(formats.push(CF_DIB), data, Some(dib)),
{
    let with_text = formats.push(CF_UNICODETEXT);
    if with_text.contains(CF_DIB) {
        let i = choose|i: int| 0 <= i < with_text.len() && with_text[i] == CF_DIB;
        assert(formats[i] == CF_DIB);
    }
    let with_image = formats.push(CF_DIB);
    if with_image.contains(CF_UNICODETEXT) {
        let i = choose|i: int| 0 <= i < with_image.len() && with_image[i] == CF_UNICODETEXT;
        assert(formats[i] == CF_UNICODETEXT);
    }
}

} // verus!
