//! The palettes of PNG images, as far as a converter can be given them.

use vstd::prelude::*;

verus! {

/// The bytes that mark a file as a PNG image.
pub const SIGNATURE_LEN: usize = 8;

/// Where the colour type of an image stands.
pub const COLOUR_TYPE_AT: usize = 25;

/// The colour type of images whose pixels are numbers of palette entries.
pub const INDEXED: u8 = 3;

/// The number in the four bytes from `at` on, the highest first.
pub open spec fn number_at(bytes: Seq<u8>, at: int) -> int {
    ((bytes[at] * 256 + bytes[at + 1]) * 256 + bytes[at + 2]) * 256 + bytes[at + 3]
}

/// Whether the four bytes from `at` on are the letters of image data.
pub open spec fn is_image_data(bytes: Seq<u8>, at: int) -> bool {
    bytes[at] == 73 && bytes[at + 1] == 68 && bytes[at + 2] == 65 && bytes[at + 3] == 84
}

/// Whether the four bytes from `at` on are the letters of a palette.
pub open spec fn is_palette(bytes: Seq<u8>, at: int) -> bool {
    bytes[at] == 80 && bytes[at + 1] == 76 && bytes[at + 2] == 84 && bytes[at + 3] == 69
}

/// Whether every palette from the chunk at `at` on, and before the image data, is made of
/// whole entries of three bytes.
///
/// A chunk is a length, four letters, so many bytes, and a checksum of four bytes.
pub open spec fn palettes_whole(png: Seq<u8>, at: int) -> bool
    decreases (if at + 8 > png.len() { 0 } else { png.len() - at }),
{
    if at < 0 || at + 8 > png.len() {
        true
    } else {
        let length = number_at(png, at);
        if is_image_data(png, at + 4) {
            true
        } else if is_palette(png, at + 4) && length % 3 != 0 {
            false
        } else {
            palettes_whole(png, at + 12 + length)
        }
    }
}

/// Whether an image can be handed to a converter that takes a palette entry by entry: it has
/// no palette to go by, or one of whole entries.
pub open spec fn palette_in_order(png: Seq<u8>) -> bool {
    png.len() <= COLOUR_TYPE_AT || png[COLOUR_TYPE_AT as int] != INDEXED || palettes_whole(
        png,
        SIGNATURE_LEN as int,
    )
}

pub fn has_palette_in_order(png: &[u8]) -> (whole: bool)
    ensures
        whole == palette_in_order(png@),
{
    if png.len() <= COLOUR_TYPE_AT || png[COLOUR_TYPE_AT] != INDEXED {
        return true;
    }
    let mut at: usize = SIGNATURE_LEN;
    while png.len() >= 8 && at <= png.len() - 8
        invariant
            palette_in_order(png@) == palettes_whole(png@, at as int),
        decreases png.len() - at,
    {
        let length: u64 = ((png[at] as u64 * 256 + png[at + 1] as u64) * 256 + png[at + 2] as u64)
            * 256 + png[at + 3] as u64;
        assert(length == number_at(png@, at as int));
        if png[at + 4] == 73 && png[at + 5] == 68 && png[at + 6] == 65 && png[at + 7] == 84 {
            return true;
        }
        if png[at + 4] == 80 && png[at + 5] == 76 && png[at + 6] == 84 && png[at + 7] == 69
            && length % 3 != 0 {
            return false;
        }
        let left: usize = png.len() - at;
        if 12 + length > left as u64 {
            assert(palettes_whole(png@, at + 12 + length));
            return true;
        }
        at = at + 12 + length as usize;
    }
    true
}

/// Whether chunks begin at the given places, one after the other from the signature on, none but
/// the last being image data: each chunk ends twelve bytes and its length after it begins.
pub open spec fn chunks_at(png: Seq<u8>, starts: Seq<int>) -> bool {
    &&& starts.len() > 0
    &&& starts[0] == 8
    &&& forall|i: int| 0 <= i < starts.len() ==> 0 <= #[trigger] starts[i] && starts[i] + 8
        <= png.len()
    &&& forall|i: int| #![trigger starts[i]]
        0 <= i < starts.len() - 1 ==> {
            let at = starts[i];
            &&& png.subrange(at + 4, at + 8) != seq![73u8, 68u8, 65u8, 84u8]
            &&& starts[i + 1] == at + 12 + 16_777_216 * png[at] + 65_536 * png[at + 1] + 256 * png[at
                + 2] + png[at + 3]
        }
}

/// Whether the last of the chunks is a palette that ends in the middle of an entry.
pub open spec fn ends_in_broken_palette(png: Seq<u8>, starts: Seq<int>) -> bool {
    let at = starts[starts.len() - 1];
    &&& chunks_at(png, starts)
    &&& png.subrange(at + 4, at + 8) == seq![80u8, 76u8, 84u8, 69u8]
    &&& (16_777_216 * png[at] + 65_536 * png[at + 1] + 256 * png[at + 2] + png[at + 3]) % 3 != 0
}

proof fn lemma_letters(png: Seq<u8>, at: int)
    requires
        0 <= at,
        at + 8 <= png.len(),
    ensures
        is_image_data(png, at + 4) <==> png.subrange(at + 4, at + 8) == seq![73u8, 68u8, 65u8, 84u8],
        is_palette(png, at + 4) <==> png.subrange(at + 4, at + 8) == seq![80u8, 76u8, 84u8, 69u8],
        number_at(png, at) == 16_777_216 * png[at] + 65_536 * png[at + 1] + 256 * png[at + 2] + png[at
            + 3],
{
    let letters = png.subrange(at + 4, at + 8);
    let data = seq![73u8, 68u8, 65u8, 84u8];
    let palette = seq![80u8, 76u8, 84u8, 69u8];
    assert(letters[0] == png[at + 4] && letters[1] == png[at + 5] && letters[2] == png[at + 6]
        && letters[3] == png[at + 7]);
    if is_image_data(png, at + 4) {
        assert(letters =~= data);
    }
    if is_palette(png, at + 4) {
        assert(letters =~= palette);
    }
    assert(data[0] == 73 && data[1] == 68 && data[2] == 65 && data[3] == 84);
    assert(palette[0] == 80 && palette[1] == 76 && palette[2] == 84 && palette[3] == 69);
}

proof fn lemma_broken_from(png: Seq<u8>, starts: Seq<int>, i: int)
    requires
        ends_in_broken_palette(png, starts),
        0 <= i < starts.len(),
    ensures
        !palettes_whole(png, starts[i]),
    decreases starts.len() - i,
{
    let at = starts[i];
    lemma_letters(png, at);
    if i < starts.len() - 1 {
        lemma_broken_from(png, starts, i + 1);
        assert(starts[i + 1] == at + 12 + number_at(png, at));
    } else {
        let data = seq![73u8, 68u8, 65u8, 84u8];
        let palette = seq![80u8, 76u8, 84u8, 69u8];
        assert(data[0] != palette[0]);
    }
}

proof fn lemma_broken_chunks(png: Seq<u8>, starts: Seq<int>) -> (all: Seq<int>)
    requires
        chunks_at(png, starts),
        !palettes_whole(png, starts[starts.len() - 1]),
    ensures
        ends_in_broken_palette(png, all),
    decreases png.len() - starts[starts.len() - 1],
{
    let at = starts[starts.len() - 1];
    lemma_letters(png, at);
    let length = number_at(png, at);
    if is_palette(png, at + 4) && length % 3 != 0 {
        starts
    } else {
        assert(!palettes_whole(png, at + 12 + length));
        let more = starts.push(at + 12 + length);
        assert forall|i: int| 0 <= i < more.len() implies 0 <= #[trigger] more[i] && more[i] + 8
            <= png.len() by {
            if i < starts.len() {
                assert(more[i] == starts[i]);
            }
        }
        assert forall|i: int| #![trigger more[i]] 0 <= i < more.len() - 1 implies {
            let at = more[i];
            &&& png.subrange(at + 4, at + 8) != seq![73u8, 68u8, 65u8, 84u8]
            &&& more[i + 1] == at + 12 + 16_777_216 * png[at] + 65_536 * png[at + 1] + 256 * png[at
                + 2] + png[at + 3]
        } by {
            assert(more[i] == starts[i]);
            if i < starts.len() - 1 {
                assert(more[i + 1] == starts[i + 1]);
            }
        }
        lemma_broken_chunks(png, more)
    }
}

/// An image is held back exactly if its pixels go by a palette, and one of the palettes before
/// its image data ends in the middle of an entry.
pub proof fn law_only_a_broken_palette_is_held_back(png: &[u8], whole: bool)
    requires
        call_ensures(has_palette_in_order, (png,), whole),
    ensures
        !whole <==> png@.len() > 25 && png@[25] == 3 && exists|starts: Seq<int>|
            ends_in_broken_palette(png@, starts),
{
    if !whole {
        let first = seq![8int];
        assert(first[0] == 8);
        let starts = lemma_broken_chunks(png@, first);
        assert(ends_in_broken_palette(png@, starts));
    }
    if png@.len() > 25 && png@[25] == 3 && exists|starts: Seq<int>| ends_in_broken_palette(
        png@,
        starts,
    ) {
        let starts = choose|starts: Seq<int>| ends_in_broken_palette(png@, starts);
        lemma_broken_from(png@, starts, 0);
    }
}

} // verus!
