//! A mounted selection as content for the desktop.

use crate::formats::PendingWrite;
use crate::text::{is_absolute, join_path, joined_path, texts};
use vstd::prelude::*;
use vstd::utf8::encode_utf8;

verus! {

/// What `url::Url::from_file_path` makes of an absolute path.
pub uninterp spec fn file_uri(path: Seq<char>) -> Seq<char>;

/// `url::Url::from_file_path`, as text, where paths begin at `/`: the `file` URI of an absolute
/// path, and nothing for any other.
#[verifier::external_body]
fn uri_of_path(path: &str) -> (uri: Option<String>)
    ensures
        match uri {
            Some(u) => is_absolute(path@) && u@ == file_uri(path@),
            None => !is_absolute(path@),
        },
{
    url::Url::from_file_path(path).ok().map(String::from)
}

/// Each URI on a line of its own.
pub open spec fn uri_lines(uris: Seq<Seq<char>>) -> Seq<u8>
    decreases uris.len(),
{
    if uris.len() == 0 {
        Seq::empty()
    } else {
        uri_lines(uris.drop_last()) + encode_utf8(uris.last()) + seq![13u8, 10u8]
    }
}

/// The URIs with a line feed before each.
pub open spec fn uris_after_feeds(uris: Seq<Seq<char>>) -> Seq<u8>
    decreases uris.len(),
{
    if uris.len() == 0 {
        Seq::empty()
    } else {
        uris_after_feeds(uris.drop_last()) + seq![10u8] + encode_utf8(uris.last())
    }
}

/// The word that marks a list of copied files.
pub open spec fn copy_word() -> Seq<u8> {
    seq![99u8, 111u8, 112u8, 121u8]
}

/// The content that lists the given URIs; there is none for an empty list.
pub fn files_payload(uris: &Vec<String>) -> (payload: Option<PendingWrite>)
    ensures
        payload is Some <==> uris.len() > 0,
        payload matches Some(write) ==> {
            &&& write matches PendingWrite::Files { uri_list, gnome_copied_files }
            &&& uri_list@ == uri_lines(texts(uris@))
            &&& gnome_copied_files@ == copy_word() + uris_after_feeds(texts(uris@))
        },
{
    if uris.is_empty() {
        return None;
    }
    let ghost all = texts(uris@);
    let mut uri_list: Vec<u8> = Vec::new();
    let mut gnome_copied_files: Vec<u8> = Vec::new();
    gnome_copied_files.push(99);
    gnome_copied_files.push(111);
    gnome_copied_files.push(112);
    gnome_copied_files.push(121);
    let mut i: usize = 0;
    assert(gnome_copied_files@ =~= copy_word() + uris_after_feeds(all.take(0)));
    assert(uri_list@ =~= uri_lines(all.take(0)));
    while i < uris.len()
        invariant
            all == texts(uris@),
            i <= uris.len(),
            uri_list@ == uri_lines(all.take(i as int)),
            gnome_copied_files@ == copy_word() + uris_after_feeds(all.take(i as int)),
        decreases uris.len() - i,
    {
        proof {
            assert(all.take(i + 1).drop_last() =~= all.take(i as int));
            assert(all.take(i + 1).last() == uris@[i as int]@);
        }
        let bytes = uris[i].as_str().as_bytes();
        let ghost list_before = uri_list@;
        let ghost copied_before = gnome_copied_files@;
        uri_list.extend_from_slice(bytes);
        uri_list.push(13);
        uri_list.push(10);
        gnome_copied_files.push(10);
        gnome_copied_files.extend_from_slice(bytes);
        i = i + 1;
        assert(uri_list@ =~= list_before + bytes@ + seq![13u8, 10u8]);
        assert(gnome_copied_files@ =~= copied_before + seq![10u8] + bytes@);
        assert(gnome_copied_files@ =~= copy_word() + uris_after_feeds(all.take(i as int)));
    }
    assert(all.take(i as int) =~= all);
    Some(PendingWrite::Files { uri_list, gnome_copied_files })
}

/// The URIs of the entries of a mount.
pub open spec fn entry_uris(mount: Seq<char>, roots: Seq<Seq<char>>) -> Seq<Seq<char>> {
    roots.map_values(|name: Seq<char>| file_uri(joined_path(mount, name)))
}

/// Whether every entry of a mount has an absolute path.
pub open spec fn entries_absolute(mount: Seq<char>, roots: Seq<Seq<char>>) -> bool {
    forall|i: int| 0 <= i < roots.len() ==> is_absolute(joined_path(mount, #[trigger] roots[i]))
}

/// The content that lists the top-level entries of a mounted selection.
pub fn uri_payload(mount: &str, roots: &Vec<String>) -> (payload: Option<PendingWrite>)
    ensures
        payload is Some <==> roots.len() > 0 && entries_absolute(mount@, texts(roots@)),
        payload matches Some(write) ==> {
            let uris = entry_uris(mount@, texts(roots@));
            &&& write matches PendingWrite::Files { uri_list, gnome_copied_files }
            &&& uri_list@ == uri_lines(uris)
            &&& gnome_copied_files@ == copy_word() + uris_after_feeds(uris)
        },
{
    let ghost names = texts(roots@);
    let mut uris: Vec<String> = Vec::new();
    let mut i: usize = 0;
    while i < roots.len()
        invariant
            names == texts(roots@),
            i <= roots.len(),
            uris.len() == i,
            forall|j: int|
                #![trigger names[j]]
                0 <= j < i ==> is_absolute(joined_path(mount@, names[j])) && uris@[j]@
                    == file_uri(joined_path(mount@, names[j])),
        decreases roots.len() - i,
    {
        assert(names[i as int] == roots@[i as int]@);
        let path = join_path(mount, roots[i].as_str());
        match uri_of_path(path.as_str()) {
            Some(uri) => uris.push(uri),
            None => {
                return None;
            },
        }
        i = i + 1;
    }
    proof {
        let want = entry_uris(mount@, names);
        assert forall|j: int| 0 <= j < want.len() implies texts(uris@)[j] == want[j] by {
            assert(want[j] == file_uri(joined_path(mount@, names[j])));
        }
        assert(texts(uris@) =~= want);
    }
    files_payload(&uris)
}

/// Every entry of a mount at an absolute path can be listed, under any name.
pub proof fn law_absolute_mount_lists_every_entry(mount: Seq<char>, roots: Seq<Seq<char>>)
    requires
        is_absolute(mount),
    ensures
        entries_absolute(mount, roots),
{
    assert forall|i: int| 0 <= i < roots.len() implies is_absolute(
        joined_path(mount, #[trigger] roots[i]),
    ) by {
        assert(mount.push('/')[0] == mount[0]);
    }
}

} // verus!
