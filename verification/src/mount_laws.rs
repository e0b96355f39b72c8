//! What a caller can rely on of mounts: what is mounted, what the desktop is offered for it, and
//! when a mount comes down.

use crate::formats::PendingWrite;
use crate::inbound::{drop_unpublished_files, Inbound, Job, Mounts, Service};
use crate::payload::{entry_uris, file_uri, files_payload, uri_lines, uri_payload, uris_after_feeds};
use crate::selection_laws::{
    all_ended, lemma_all_ended, lemma_locks_released, lemma_same_requests, lemma_same_selections,
    lemma_superseded, locks_released, same_requests, same_selections, superseded,
};
use crate::serve::{Phase, ServeAction, Server};
use crate::text::{join_path, joined_path, texts};
use crate::tree::FileDescriptor;
use crate::tree_laws::tree_of_list;
use vstd::prelude::*;
use vstd::utf8::encode_utf8;

verus! {

/// What leaving work for the mount service does: a job takes the place of one not yet taken,
/// releases pile up, and the service is to be woken.
pub open spec fn work_left(
    before: Service,
    after: Service,
    job: Option<Job>,
    release: Seq<u64>,
    close: bool,
) -> bool {
    &&& after.dirty
    &&& after.closed <==> before.closed || close
    &&& job is Some ==> after.job == job
    &&& job is None ==> after.job == before.job
    &&& after.release@ == before.release@ + release
}

/// What was added to the releases.
pub open spec fn newly_released(before: Service, after: Service) -> Seq<u64> {
    after.release@.skip(before.release@.len() as int)
}

proof fn lemma_newly_released(before: Service, after: Service, release: Seq<u64>)
    requires
        after.release@ == before.release@ + release,
    ensures
        newly_released(before, after) == release,
{
    assert(newly_released(before, after) =~= release);
}

/// Whether files that were to be offered are not offered any more, and other content stays.
pub open spec fn files_withdrawn(
    before: Option<PendingWrite>,
    after: Option<PendingWrite>,
) -> bool {
    if before is Some && before->0 is Files {
        after is None
    } else {
        after == before
    }
}

/// Work is left, waits, and is taken once.
pub proof fn law_work_is_left_and_taken_once(
    fresh: Service,
    left: &mut Service,
    job: Option<Job>,
    release: Vec<u64>,
    close: bool,
    waiting: Service,
    idle: bool,
    taken: &mut Service,
    work: Option<(Option<Job>, Vec<u64>)>,
)
    requires
        call_ensures(Service::new, (), fresh),
        call_ensures(Service::update, (left, job, release, close), ()),
        call_ensures(Service::idle, (&waiting,), idle),
        call_ensures(Service::take_work, (taken,), work),
    ensures
        !fresh.closed && !fresh.dirty && fresh.job is None && fresh.release@.len() == 0,
        work_left(*old(left), *final(left), job, release@, close),
        idle <==> !waiting.dirty && !waiting.closed,
        work is None <==> old(taken).closed,
        work matches Some((job, release)) ==> {
            &&& job == old(taken).job
            &&& release@ == old(taken).release@
            &&& final(taken).job is None
            &&& final(taken).release@.len() == 0
            &&& !final(taken).dirty
            &&& !final(taken).closed
        },
        work is None ==> *final(taken) == *old(taken),
{
    assert(fresh@.release == fresh.release@);
    assert(final(taken)@.release == final(taken).release@);
}

/// What is taken in begins empty, with the limits it was given, and without work.
pub proof fn law_the_inbound_side_begins_empty<A>(
    max_entries: usize,
    max_chunk: u32,
    inbound: Inbound<A>,
)
    requires
        call_ensures(Inbound::<A>::new, (max_entries, max_chunk), inbound),
    ensures
        inbound.transfer.max_entries == max_entries,
        max_chunk > 0 ==> inbound.transfer.max_chunk == max_chunk,
        max_chunk == 0 ==> inbound.transfer.max_chunk == 1,
        !inbound.transfer.state.closed && !inbound.transfer.state.stream,
        inbound.transfer.state.generation == 0,
        inbound.transfer.state.next_stream == Some(1u32),
        inbound.transfer.state.pending@.len() == 0,
        inbound.transfer.state.retiring@.len() == 0,
        inbound.transfer.state.current.tree.nodes@.len() == 0,
        !inbound.service.closed && !inbound.service.dirty && inbound.service.job is None,
        inbound.service.release@.len() == 0,
{
    let state = inbound.transfer.state;
    assert(state@.pending.len() == state.pending@.len());
    assert(state@.retiring.len() == state.retiring@.len());
    assert(state@.current.tree.nodes.len() == state.current.tree.nodes@.len());
    assert(inbound.service@.release == inbound.service.release@);
}

/// Files that were to be offered are withdrawn, and nothing else is.
pub proof fn law_unpublished_files_are_withdrawn(pending: &mut Option<PendingWrite>)
    requires
        call_ensures(drop_unpublished_files, (pending,), ()),
    ensures
        files_withdrawn(*old(pending), *final(pending)),
{
}

/// A selection that is superseded is withdrawn from the desktop, and every generation that ends
/// with it is left to the service.
pub proof fn law_retiring_leaves_what_ends_to_the_service<A>(
    inbound: &mut Inbound<A>,
    pending: &mut Option<PendingWrite>,
    generation: Option<u64>,
)
    requires
        call_ensures(Inbound::<A>::retire_selection, (inbound, pending), generation),
        old(inbound).wf(),
    ensures
        ({
            let released = newly_released(old(inbound).service, final(inbound).service);
            &&& superseded(old(inbound).transfer.state, final(inbound).transfer.state, released)
            &&& work_left(old(inbound).service, final(inbound).service, None, released, false)
        }),
        files_withdrawn(*old(pending), *final(pending)),
        generation == if !final(inbound).transfer.state.closed
            && final(inbound).transfer.state.stream {
            Some(final(inbound).transfer.state.generation)
        } else {
            None
        },
{
    lemma_superseded(old(inbound).transfer.state, final(inbound).transfer.state);
    let released = old(inbound).transfer.state@.retire_released();
    lemma_newly_released(old(inbound).service, final(inbound).service, released);
}

/// The release of locks leaves exactly what ends by it to the service, and no work where
/// nothing does.
pub proof fn law_released_locks_leave_what_ends_to_the_service<A>(
    inbound: &mut Inbound<A>,
    data_ids: &[u32],
    left_work: bool,
)
    requires
        call_ensures(Inbound::<A>::release_locks, (inbound, data_ids), left_work),
        old(inbound).wf(),
    ensures
        ({
            let released = newly_released(old(inbound).service, final(inbound).service);
            &&& locks_released(
                old(inbound).transfer.state,
                final(inbound).transfer.state,
                data_ids@,
                released,
            )
            &&& left_work <==> released.len() > 0
            &&& left_work ==> work_left(
                old(inbound).service,
                final(inbound).service,
                None,
                released,
                false,
            )
            &&& !left_work ==> final(inbound).service == old(inbound).service
        }),
{
    lemma_locks_released(
        old(inbound).transfer.state,
        final(inbound).transfer.state,
        data_ids@,
    );
    let released = old(inbound).transfer.state@.lock_released(data_ids@);
    let before = old(inbound).service;
    let after = final(inbound).service;
    if left_work {
        lemma_newly_released(before, after, released);
    } else {
        assert(released =~= Seq::empty());
        assert(newly_released(before, after) =~= Seq::empty());
    }
}

/// A change of what the remote can do withdraws the files and leaves every generation to the
/// service.
pub proof fn law_a_change_of_capabilities_leaves_all_to_the_service<A>(
    inbound: &mut Inbound<A>,
    pending: &mut Option<PendingWrite>,
    stream: bool,
    huge: bool,
)
    requires
        call_ensures(Inbound::<A>::set_capabilities, (inbound, pending, stream, huge), ()),
        old(inbound).wf(),
    ensures
        ({
            let before = old(inbound).transfer.state;
            let after = final(inbound).transfer.state;
            let released = newly_released(old(inbound).service, final(inbound).service);
            &&& after.stream == stream
            &&& after.huge == huge
            &&& work_left(old(inbound).service, final(inbound).service, None, released, false)
            &&& if before.stream == stream && before.huge == huge {
                &&& released.len() == 0
                &&& same_selections(before, after)
                &&& same_requests(before.pending@, after.pending@)
            } else {
                all_ended(before, after, released)
            }
        }),
        files_withdrawn(*old(pending), *final(pending)),
{
    let before = old(inbound).transfer.state;
    let after = final(inbound).transfer.state;
    if before.stream == stream && before.huge == huge {
        lemma_newly_released(old(inbound).service, final(inbound).service, Seq::empty());
        lemma_same_selections(before, after);
        lemma_same_requests(before, after);
    } else {
        lemma_newly_released(
            old(inbound).service,
            final(inbound).service,
            before@.shutdown_released(),
        );
        lemma_all_ended(before, after);
    }
}

/// Closing ends everything, and the service with it.
pub proof fn law_closing_leaves_all_to_the_service<A>(
    inbound: &mut Inbound<A>,
    pending: &mut Option<PendingWrite>,
)
    requires
        call_ensures(Inbound::<A>::close, (inbound, pending), ()),
        old(inbound).wf(),
    ensures
        ({
            let released = newly_released(old(inbound).service, final(inbound).service);
            &&& all_ended(old(inbound).transfer.state, final(inbound).transfer.state, released)
            &&& work_left(old(inbound).service, final(inbound).service, None, released, true)
        }),
        final(inbound).transfer.state.closed,
        files_withdrawn(*old(pending), *final(pending)),
{
    let before = old(inbound).transfer.state;
    lemma_newly_released(
        old(inbound).service,
        final(inbound).service,
        before@.shutdown_released(),
    );
    lemma_all_ended(before, final(inbound).transfer.state);
}

/// A list that is taken over serves under its lock and is left to be mounted, with the names of
/// all its entries at the top; a list that comes too late is not.
pub proof fn law_an_accepted_list_is_left_to_be_mounted<A>(
    inbound: &mut Inbound<A>,
    generation: u64,
    files: &[FileDescriptor],
    data_id: Option<u32>,
    left_work: bool,
)
    requires
        call_ensures(Inbound::<A>::accept_for, (inbound, generation, files, data_id), left_work),
        old(inbound).wf(),
    ensures
        ({
            let before = old(inbound).transfer.state;
            let after = final(inbound).transfer.state;
            let released = newly_released(old(inbound).service, final(inbound).service);
            let tree = after.current.tree;
            &&& left_work <==> !before.closed && before.stream && before.generation == generation
                && generation < u64::MAX
            &&& left_work ==> {
                &&& superseded(before, after, released)
                &&& after.generation == generation + 1
                &&& after.current.data_id == data_id
                &&& tree_of_list(tree, files@, old(inbound).transfer.max_entries)
                &&& final(inbound).service.job matches Some(job)
                &&& job.generation == generation + 1
                &&& job.roots@.len() == tree.roots@.len()
                &&& forall|i: int| #![trigger job.roots@[i]]
                    0 <= i < job.roots@.len() ==> job.roots@[i]@ == tree.nodes@[tree.roots@[i]
                        - tree.base - 2].name@
                &&& work_left(
                    old(inbound).service,
                    final(inbound).service,
                    final(inbound).service.job,
                    released,
                    false,
                )
            }
            &&& !left_work ==> final(inbound).service == old(inbound).service
            &&& !left_work && generation < u64::MAX ==> {
                &&& same_selections(before, after)
                &&& same_requests(before.pending@, after.pending@)
            }
        }),
{
    let before = old(inbound).transfer.state;
    let after = final(inbound).transfer.state;
    if !left_work && generation < u64::MAX {
        lemma_same_selections(before, after);
        lemma_same_requests(before, after);
    }
    if left_work {
        lemma_superseded(before, after);
        lemma_newly_released(
            old(inbound).service,
            final(inbound).service,
            before@.retire_released(),
        );
        let tree = after.current.tree;
        crate::preserve::lemma_retire_wf(before@);
        crate::tree_laws::lemma_built_is_of_list(
            tree,
            files@,
            old(inbound).transfer.max_entries,
            before@.retire_current().next_base,
        );
        let job = final(inbound).service.job->0;
        assert(tree@.roots == tree.roots@);
        assert(texts(job.roots@).len() == job.roots@.len());
        assert forall|i: int| #![trigger job.roots@[i]] 0 <= i < job.roots@.len() implies
            job.roots@[i]@ == tree.nodes@[tree.roots@[i] - tree.base - 2].name@ by {
            assert(texts(job.roots@)[i] == job.roots@[i]@);
            assert(tree@.owns(tree@.roots[i]));
            let k = tree.roots@[i] - tree.base - 2;
            assert(tree@.nodes[k] == tree.nodes@[k]@);
        }
    }
}

/// The path of an entry under a mount.
pub open spec fn entry_path(mount: Seq<char>, name: Seq<char>) -> Seq<char> {
    if name.len() > 0 && name[0] == '/' {
        name
    } else if mount.len() == 0 || mount[mount.len() - 1] == '/' {
        mount + name
    } else {
        mount + seq!['/'] + name
    }
}

/// Each text on a line of its own.
pub open spec fn on_lines(uris: Seq<Seq<char>>) -> Seq<u8>
    decreases uris.len(),
{
    if uris.len() == 0 {
        Seq::empty()
    } else {
        encode_utf8(uris[0]) + seq![13u8, 10u8] + on_lines(uris.drop_first())
    }
}

/// Each text after a line feed.
pub open spec fn after_feeds(uris: Seq<Seq<char>>) -> Seq<u8>
    decreases uris.len(),
{
    if uris.len() == 0 {
        Seq::empty()
    } else {
        seq![10u8] + encode_utf8(uris[0]) + after_feeds(uris.drop_first())
    }
}

/// Whether content lists the given URIs, all of them and in order, in both forms: a line for
/// each, and a line for each after the word `copy`.
pub open spec fn lists(content: PendingWrite, uris: Seq<Seq<char>>) -> bool {
    &&& content matches PendingWrite::Files { uri_list, gnome_copied_files }
    &&& uri_list@ == on_lines(uris)
    &&& gnome_copied_files@ == seq![99u8, 111u8, 112u8, 121u8] + after_feeds(uris)
}

proof fn lemma_lines(uris: Seq<Seq<char>>)
    ensures
        uri_lines(uris) == on_lines(uris),
        uris_after_feeds(uris) == after_feeds(uris),
    decreases uris.len(),
{
    if uris.len() > 0 {
        lemma_lines_front(uris);
        lemma_lines(uris.drop_first());
        assert(uri_lines(uris) =~= on_lines(uris));
        assert(uris_after_feeds(uris) =~= after_feeds(uris));
    }
}

/// The lines of a list are the line of its first and those of the rest.
proof fn lemma_lines_front(uris: Seq<Seq<char>>)
    requires
        uris.len() > 0,
    ensures
        uri_lines(uris) == encode_utf8(uris[0]) + seq![13u8, 10u8] + uri_lines(uris.drop_first()),
        uris_after_feeds(uris) == seq![10u8] + encode_utf8(uris[0]) + uris_after_feeds(
            uris.drop_first(),
        ),
    decreases uris.len(),
{
    reveal_with_fuel(uri_lines, 2);
    reveal_with_fuel(uris_after_feeds, 2);
    if uris.len() == 1 {
        assert(uris.drop_last() =~= Seq::empty());
        assert(uris.drop_first() =~= Seq::empty());
        assert(uri_lines(uris) =~= encode_utf8(uris[0]) + seq![13u8, 10u8] + uri_lines(
            uris.drop_first(),
        ));
        assert(uris_after_feeds(uris) =~= seq![10u8] + encode_utf8(uris[0]) + uris_after_feeds(
            uris.drop_first(),
        ));
    } else {
        let rest = uris.drop_last();
        lemma_lines_front(rest);
        assert(rest[0] == uris[0]);
        assert(uris.drop_first().drop_last() =~= rest.drop_first());
        assert(uris.drop_first().last() == uris.last());
        assert(uri_lines(uris) =~= encode_utf8(uris[0]) + seq![13u8, 10u8] + uri_lines(
            uris.drop_first(),
        ));
        assert(uris_after_feeds(uris) =~= seq![10u8] + encode_utf8(uris[0]) + uris_after_feeds(
            uris.drop_first(),
        ));
    }
}

/// A name is put under a directory with one slash between them, unless it is a path of its own.
pub proof fn law_paths_are_joined_by_a_slash(directory: &str, name: &str, path: String)
    requires
        call_ensures(join_path, (directory, name), path),
    ensures
        path@ == entry_path(directory@, name@),
{
    assert(path@ =~= entry_path(directory@, name@));
}

/// Any list of URIs but the empty one becomes content that lists them.
pub proof fn law_content_lists_its_uris(uris: Vec<String>, payload: Option<PendingWrite>)
    requires
        call_ensures(files_payload, (&uris,), payload),
    ensures
        payload is Some <==> uris@.len() > 0,
        payload matches Some(content) ==> lists(content, uris@.map_values(|u: String| u@)),
{
    lemma_lines(texts(uris@));
}

/// Whether every entry of a mount has a path from the root directory on.
pub open spec fn all_rooted(mount: Seq<char>, roots: Seq<String>) -> bool {
    forall|i: int| #![trigger roots[i]]
        0 <= i < roots.len() ==> entry_path(mount, roots[i]@).len() > 0 && entry_path(
            mount,
            roots[i]@,
        )[0] == '/'
}

/// The URIs of the entries of a mount, in order.
pub open spec fn uris_of(mount: Seq<char>, roots: Seq<String>) -> Seq<Seq<char>> {
    Seq::new(roots.len(), |i: int| file_uri(entry_path(mount, roots[i]@)))
}

proof fn lemma_entries(mount: Seq<char>, roots: Seq<String>)
    ensures
        crate::payload::entries_absolute(mount, texts(roots)) <==> all_rooted(mount, roots),
        entry_uris(mount, texts(roots)) == uris_of(mount, roots),
        mount.len() > 0 && mount[0] == '/' ==> all_rooted(mount, roots),
{
    assert(texts(roots).len() == roots.len());
    assert forall|i: int| 0 <= i < roots.len() implies joined_path(
        mount,
        #[trigger] texts(roots)[i],
    ) == entry_path(mount, roots[i]@) by {
        assert(texts(roots)[i] == roots[i]@);
        assert(joined_path(mount, roots[i]@) =~= entry_path(mount, roots[i]@));
    }
    assert forall|i: int| 0 <= i < roots.len() implies #[trigger] entry_uris(mount, texts(roots))[i]
        == uris_of(mount, roots)[i] by {
        assert(texts(roots)[i] == roots[i]@);
    }
    assert(entry_uris(mount, texts(roots)) =~= uris_of(mount, roots));
    if all_rooted(mount, roots) {
        assert forall|i: int| 0 <= i < texts(roots).len() implies crate::text::is_absolute(
            joined_path(mount, #[trigger] texts(roots)[i]),
        ) by {
            assert(texts(roots)[i] == roots[i]@);
        }
    }
    if crate::payload::entries_absolute(mount, texts(roots)) {
        assert forall|i: int| #![trigger roots[i]] 0 <= i < roots.len() implies entry_path(
            mount,
            roots[i]@,
        ).len() > 0 && entry_path(mount, roots[i]@)[0] == '/' by {
            assert(crate::text::is_absolute(joined_path(mount, texts(roots)[i])));
        }
    }
}

/// The content for a mount lists all of its entries, by their paths under the mount. A mount at
/// a path from the root directory on can always be listed.
pub proof fn law_a_mount_is_listed_entry_by_entry(
    mount: &str,
    roots: Vec<String>,
    payload: Option<PendingWrite>,
)
    requires
        call_ensures(uri_payload, (mount, &roots), payload),
    ensures
        payload is Some <==> roots@.len() > 0 && all_rooted(mount@, roots@),
        mount@.len() > 0 && mount@[0] == '/' && roots@.len() > 0 ==> payload is Some,
        payload matches Some(content) ==> lists(content, uris_of(mount@, roots@)),
{
    lemma_entries(mount@, roots@);
    lemma_lines(uris_of(mount@, roots@));
}

/// A job is worth mounting if it shows anything and is the advertised one; its entries are
/// published, all of them, while it is that and they can be listed; and content that is not
/// published leaves what is there.
pub proof fn law_only_what_is_advertised_is_published<A>(
    inbound: Inbound<A>,
    job: Job,
    wanted: bool,
    mount: &str,
    pending: &mut Option<PendingWrite>,
    published: bool,
    payload: Option<PendingWrite>,
    other: &mut Option<PendingWrite>,
    given: bool,
)
    requires
        call_ensures(Inbound::<A>::wants_mount, (&inbound, &job), wanted),
        call_ensures(Inbound::<A>::publish, (&inbound, &job, mount, pending), published),
        call_ensures(
            Inbound::<A>::publish_payload,
            (&inbound, job.generation, payload, other),
            given,
        ),
    ensures
        ({
            let state = inbound.transfer.state;
            let live = !state.closed && state.stream && state.generation == job.generation;
            &&& wanted <==> live && job.roots@.len() > 0
            &&& published <==> live && job.roots@.len() > 0 && all_rooted(mount@, job.roots@)
            &&& published ==> *final(pending) is Some && lists(
                final(pending)->0,
                uris_of(mount@, job.roots@),
            )
            &&& !published ==> *final(pending) == *old(pending)
            &&& given <==> live && payload is Some
            &&& given ==> *final(other) == payload
            &&& !given ==> *final(other) == *old(other)
        }),
{
    lemma_entries(mount@, job.roots@);
    lemma_lines(uris_of(mount@, job.roots@));
}

/// Whether a generation is mounted as it was, or not mounted as before.
pub open spec fn same_mount<M>(before: Map<u64, M>, after: Map<u64, M>, generation: u64) -> bool {
    &&& after.contains_key(generation) <==> before.contains_key(generation)
    &&& before.contains_key(generation) ==> after[generation] == before[generation]
}

/// Mounts come down by their generation, all others staying; all come down at once; and a mount
/// is kept exactly if it was published.
pub proof fn law_mounts_come_down_by_generation<M>(
    fresh: Mounts<M>,
    some: &mut Mounts<M>,
    release: Vec<u64>,
    all: &mut Mounts<M>,
    settled: &mut Mounts<M>,
    generation: u64,
    mount: M,
    published: bool,
    g: u64,
)
    requires
        call_ensures(Mounts::<M>::new, (), fresh),
        call_ensures(Mounts::<M>::release, (some, &release), ()),
        call_ensures(Mounts::<M>::release_all, (all,), ()),
        call_ensures(Mounts::<M>::settle, (settled, generation, mount, published), ()),
    ensures
        !fresh.mounted@.contains_key(g),
        release@.contains(g) ==> !final(some).mounted@.contains_key(g),
        !release@.contains(g) ==> same_mount(old(some).mounted@, final(some).mounted@, g),
        !final(all).mounted@.contains_key(g),
        published ==> final(settled).mounted@.contains_key(generation)
            && final(settled).mounted@[generation] == mount,
        !published || g != generation ==> same_mount(
            old(settled).mounted@,
            final(settled).mounted@,
            g,
        ),
{
}

/// The service begins with nothing mounted and nothing in hand.
pub proof fn law_the_service_begins_empty<M>(server: Server<M>)
    requires
        call_ensures(Server::<M>::new, (), server),
    ensures
        server.phase is Idle,
        server.mounts.mounted@ == Map::<u64, M>::empty(),
{
}

/// What is to be done next is what the service has in hand.
pub proof fn law_the_service_does_what_is_in_hand<M>(
    server: Server<M>,
    action: ServeAction,
    generation: Option<u64>,
    waiting: Option<(&Job, &M)>,
)
    requires
        call_ensures(Server::<M>::action, (&server,), action),
        call_ensures(Server::<M>::to_mount, (&server,), generation),
        call_ensures(Server::<M>::to_publish, (&server,), waiting),
    ensures
        action is TakeWork <==> server.phase is Idle,
        action is Release <==> server.phase is Releasing || server.phase is Closing,
        action is Check <==> server.phase is Checking,
        action is Mount <==> server.phase is Mounting,
        action is Publish <==> server.phase is Publishing,
        action is Settle <==> server.phase is Settling,
        action is Stop <==> server.phase is Stopped,
        server.phase matches Phase::Mounting(job) ==> generation == Some(job.generation),
        !(server.phase is Mounting) ==> generation is None,
        server.phase matches Phase::Publishing(job, mount) ==> waiting == Some((&job, &mount)),
        !(server.phase is Publishing) ==> waiting is None,
{
}

/// The service takes all the work there is, and ends where it was closed.
pub proof fn law_the_service_takes_all_work<M>(server: &mut Server<M>, service: &mut Service)
    requires
        call_ensures(Server::<M>::take_work, (server, service), ()),
        old(server).phase is Idle,
    ensures
        final(server).mounts.mounted@ == old(server).mounts.mounted@,
        old(service).closed ==> final(server).phase is Closing && final(service)@ == old(service)@,
        !old(service).closed ==> {
            &&& final(server).phase matches Phase::Releasing { job, release }
            &&& job == old(service).job
            &&& release@ == old(service).release@
            &&& final(service).job is None
            &&& final(service).release@.len() == 0
            &&& !final(service).dirty
            &&& !final(service).closed
        },
{
    assert(final(service)@.release == final(service).release@);
    assert(old(service)@.release == old(service).release@);
}

/// The mounts of the generations that were released come down, those of all others stay, and
/// the job is gone on with. Once the service is closed all come down, and it ends.
pub proof fn law_released_mounts_come_down_and_the_job_goes_on<M>(server: &mut Server<M>, g: u64)
    requires
        call_ensures(Server::<M>::release, (server,), ()),
    ensures
        old(server).phase matches Phase::Releasing { job, release } ==> {
            let before = old(server).mounts.mounted@;
            let after = final(server).mounts.mounted@;
            &&& release@.contains(g) ==> !after.contains_key(g)
            &&& !release@.contains(g) ==> same_mount(before, after, g)
            &&& job matches Some(next) ==> final(server).phase == Phase::<M>::Checking(next)
            &&& job is None ==> final(server).phase is Idle
        },
        old(server).phase is Closing ==> {
            &&& final(server).phase is Stopped
            &&& !final(server).mounts.mounted@.contains_key(g)
        },
{
    lemma_phase(final(server).phase);
}

/// A phase is what it stands for.
proof fn lemma_phase<M>(phase: Phase<M>)
    ensures
        phase@ matches crate::serve::PhaseView::Checking(job) ==> phase == Phase::<M>::Checking(
            job,
        ),
        phase@ matches crate::serve::PhaseView::Mounting(job) ==> phase == Phase::<M>::Mounting(
            job,
        ),
        phase@ matches crate::serve::PhaseView::Publishing(job, mount) ==> phase
            == Phase::<M>::Publishing(job, mount),
        phase@ matches crate::serve::PhaseView::Settling { generation, mount, published }
            ==> phase == (Phase::<M>::Settling { generation, mount, published }),
{
}

/// A job with one entry or more that is found live is mounted; any other is let go. Nothing
/// that is mounted is touched.
pub proof fn law_a_live_job_is_mounted<M, A>(
    server: &mut Server<M>,
    inbound: Inbound<A>,
    job: Job,
)
    requires
        call_ensures(Server::<M>::check::<A>, (server, &inbound), ()),
        old(server).phase == Phase::<M>::Checking(job),
    ensures
        ({
            let state = inbound.transfer.state;
            let live = !state.closed && state.stream && state.generation == job.generation;
            &&& live && job.roots@.len() >= 1 ==> final(server).phase == Phase::<M>::Mounting(job)
            &&& !live || job.roots@.len() == 0 ==> final(server).phase is Idle
        }),
        final(server).mounts.mounted@ == old(server).mounts.mounted@,
{
    lemma_phase(final(server).phase);
}

/// What was mounted for a job is published for that job; where nothing was, the job is let go.
pub proof fn law_what_is_mounted_is_published<M>(
    server: &mut Server<M>,
    job: Job,
    mount: Option<M>,
)
    requires
        call_ensures(Server::<M>::mounted, (server, mount), ()),
        old(server).phase == Phase::<M>::Mounting(job),
    ensures
        mount matches Some(made) ==> final(server).phase == Phase::<M>::Publishing(job, made),
        mount is None ==> final(server).phase is Idle,
        final(server).mounts.mounted@ == old(server).mounts.mounted@,
{
    lemma_phase(final(server).phase);
}

/// A mounted job is published with all its entries while it is live, and settled accordingly.
pub proof fn law_a_mounted_job_is_published_while_live<M, A>(
    server: &mut Server<M>,
    inbound: Inbound<A>,
    mount: &str,
    pending: &mut Option<PendingWrite>,
    job: Job,
    made: M,
)
    requires
        call_ensures(Server::<M>::publish::<A>, (server, &inbound, mount, pending), ()),
        old(server).phase == Phase::<M>::Publishing(job, made),
    ensures
        ({
            let state = inbound.transfer.state;
            let published = !state.closed && state.stream && state.generation == job.generation
                && job.roots@.len() > 0 && all_rooted(mount@, job.roots@);
            &&& final(server).phase == (Phase::<M>::Settling {
                generation: job.generation,
                mount: made,
                published,
            })
            &&& published ==> *final(pending) is Some && lists(
                final(pending)->0,
                uris_of(mount@, job.roots@),
            )
            &&& !published ==> *final(pending) == *old(pending)
        }),
        final(server).mounts.mounted@ == old(server).mounts.mounted@,
{
    lemma_phase(final(server).phase);
    lemma_entries(mount@, job.roots@);
    lemma_lines(uris_of(mount@, job.roots@));
}

/// The same of content that was made elsewhere.
pub proof fn law_given_content_is_published_while_live<M, A>(
    server: &mut Server<M>,
    inbound: Inbound<A>,
    payload: Option<PendingWrite>,
    pending: &mut Option<PendingWrite>,
    job: Job,
    made: M,
)
    requires
        call_ensures(Server::<M>::publish_payload::<A>, (server, &inbound, payload, pending), ()),
        old(server).phase == Phase::<M>::Publishing(job, made),
    ensures
        ({
            let state = inbound.transfer.state;
            let published = !state.closed && state.stream && state.generation == job.generation
                && payload is Some;
            &&& final(server).phase == (Phase::<M>::Settling {
                generation: job.generation,
                mount: made,
                published,
            })
            &&& published ==> *final(pending) == payload
            &&& !published ==> *final(pending) == *old(pending)
        }),
        final(server).mounts.mounted@ == old(server).mounts.mounted@,
{
    lemma_phase(final(server).phase);
}

/// A mount is kept under its generation exactly if it was published, and no other is touched.
pub proof fn law_a_published_mount_is_kept<M>(
    server: &mut Server<M>,
    generation: u64,
    mount: M,
    published: bool,
    g: u64,
)
    requires
        call_ensures(Server::<M>::settle, (server,), ()),
        old(server).phase == (Phase::<M>::Settling { generation, mount, published }),
    ensures
        final(server).phase is Idle,
        published ==> {
            let after = final(server).mounts.mounted@;
            after.contains_key(generation) && after[generation] == mount
        },
        !published || g != generation ==> same_mount(
            old(server).mounts.mounted@,
            final(server).mounts.mounted@,
            g,
        ),
{
}

/// A step that is not due changes nothing.
pub proof fn law_only_the_step_that_is_due_is_taken<M, A>(
    service: &mut Service,
    inbound: Inbound<A>,
    mount: Option<M>,
    path: &str,
    payload: Option<PendingWrite>,
    pending: &mut Option<PendingWrite>,
    other: &mut Option<PendingWrite>,
    a: &mut Server<M>,
    b: &mut Server<M>,
    c: &mut Server<M>,
    d: &mut Server<M>,
    e: &mut Server<M>,
    f: &mut Server<M>,
    g: &mut Server<M>,
)
    requires
        call_ensures(Server::<M>::take_work, (a, service), ()),
        call_ensures(Server::<M>::release, (b,), ()),
        call_ensures(Server::<M>::check::<A>, (c, &inbound), ()),
        call_ensures(Server::<M>::mounted, (d, mount), ()),
        call_ensures(Server::<M>::publish::<A>, (e, &inbound, path, pending), ()),
        call_ensures(Server::<M>::publish_payload::<A>, (f, &inbound, payload, other), ()),
        call_ensures(Server::<M>::settle, (g,), ()),
    ensures
        !(old(a).phase is Idle) ==> final(a)@ == old(a)@ && final(service)@ == old(service)@,
        !(old(b).phase is Releasing) && !(old(b).phase is Closing) ==> final(b)@ == old(b)@,
        !(old(c).phase is Checking) ==> final(c)@ == old(c)@,
        !(old(d).phase is Mounting) ==> final(d)@ == old(d)@,
        !(old(e).phase is Publishing) ==> final(e)@ == old(e)@ && *final(pending) == *old(pending),
        !(old(f).phase is Publishing) ==> final(f)@ == old(f)@ && *final(other) == *old(other),
        !(old(g).phase is Settling) ==> final(g)@ == old(g)@,
{
}

/// A job that is left for an idle service, with one entry or more and advertised throughout,
/// ends up mounted and listed, if it can be mounted at all: the service takes it, finds it
/// live, mounts its generation, lists each of its entries and keeps what was mounted.
pub proof fn law_a_job_ends_up_mounted<M, A>(
    a: &mut Server<M>,
    service: &mut Service,
    b: &mut Server<M>,
    c: &mut Server<M>,
    inbound: Inbound<A>,
    generation: Option<u64>,
    d: &mut Server<M>,
    mount: M,
    e: &mut Server<M>,
    path: &str,
    pending: &mut Option<PendingWrite>,
    f: &mut Server<M>,
    job: Job,
)
    requires
        old(a).phase is Idle,
        !old(service).closed,
        old(service).job == Some(job),
        job.roots@.len() >= 1,
        !inbound.transfer.state.closed,
        inbound.transfer.state.stream,
        inbound.transfer.state.generation == job.generation,
        path@.len() > 0 && path@[0] == '/',
        call_ensures(Server::<M>::take_work, (a, service), ()),
        *old(b) == *final(a),
        call_ensures(Server::<M>::release, (b,), ()),
        *old(c) == *final(b),
        call_ensures(Server::<M>::check::<A>, (c, &inbound), ()),
        call_ensures(Server::<M>::to_mount, (final(c),), generation),
        *old(d) == *final(c),
        call_ensures(Server::<M>::mounted, (d, Some(mount)), ()),
        *old(e) == *final(d),
        call_ensures(Server::<M>::publish::<A>, (e, &inbound, path, pending), ()),
        *old(f) == *final(e),
        call_ensures(Server::<M>::settle, (f,), ()),
    ensures
        generation == Some(job.generation),
        final(f).phase is Idle,
        final(f).mounts.mounted@.contains_key(job.generation),
        final(f).mounts.mounted@[job.generation] == mount,
        *final(pending) is Some,
        lists(final(pending)->0, uris_of(path@, job.roots@)),
{
    lemma_phase(final(b).phase);
    lemma_phase(final(c).phase);
    lemma_phase(final(d).phase);
    lemma_phase(final(e).phase);
    lemma_entries(path@, job.roots@);
    lemma_lines(uris_of(path@, job.roots@));
}

} // verus!
