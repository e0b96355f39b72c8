//! The lifetime of what the remote offers: selections, their mounts, and the content that
//! the desktop is given for them.
//!
//! Mounting is slow and stays off the protocol's path. Selections come and go under one
//! lock; a mount service takes the work they leave, and what it has mounted reaches the
//! desktop only while its selection is still the advertised one.

use crate::formats::PendingWrite;
use crate::model::StateView;
use crate::payload::{
    copy_word, entries_absolute, entry_uris, uri_lines, uri_payload, uris_after_feeds,
};
use crate::text::texts;
use crate::transfer::Transfer;
use crate::tree::FileDescriptor;
use std::collections::HashMap;
use vstd::prelude::*;

verus! {

/// A selection that is to be mounted.
pub struct Job {
    pub generation: u64,
    pub roots: Vec<String>,
}

/// The work left for the mount service.
pub struct Service {
    pub closed: bool,
    pub dirty: bool,
    pub job: Option<Job>,
    /// Generations whose mount must come down.
    pub release: Vec<u64>,
}

/// The work left for the service.
#[verifier::ext_equal]
pub struct ServiceView {
    pub closed: bool,
    pub dirty: bool,
    pub job: Option<Job>,
    pub release: Seq<u64>,
}

impl View for Service {
    type V = ServiceView;

    open spec fn view(&self) -> ServiceView {
        ServiceView {
            closed: self.closed,
            dirty: self.dirty,
            job: self.job,
            release: self.release@,
        }
    }
}

impl ServiceView {
    pub open spec fn initial() -> ServiceView {
        ServiceView { closed: false, dirty: false, job: None, release: Seq::empty() }
    }

    /// The work once more is left. Releases are appended, never replaced: several retirements
    /// can pile up before the service next wakes. A new job takes the place of an old one.
    pub open spec fn updated(self, job: Option<Job>, release: Seq<u64>, close: bool) -> ServiceView {
        ServiceView {
            closed: self.closed || close,
            dirty: true,
            job: if job is Some { job } else { self.job },
            release: self.release + release,
        }
    }

    /// The work once it is taken. Nothing is taken of a closed service.
    pub open spec fn taken(self) -> ServiceView {
        if self.closed {
            self
        } else {
            ServiceView::initial()
        }
    }
}

impl Service {
    pub fn new() -> (service: Self)
        ensures
            service@ == ServiceView::initial(),
    {
        Service { closed: false, dirty: false, job: None, release: Vec::new() }
    }

    /// The state once work is left.
    pub open spec fn updated(
        &self,
        after: &Service,
        job: Option<Job>,
        release: Seq<u64>,
        close: bool,
    ) -> bool {
        after@ == self@.updated(job, release, close)
    }

    /// Leaves work for the service, which is then to be woken.
    pub fn update(&mut self, job: Option<Job>, release: Vec<u64>, close: bool)
        ensures
            old(self).updated(final(self), job, release@, close),
    {
        if close {
            self.closed = true;
        }
        if job.is_some() {
            self.job = job;
        }
        let mut release = release;
        self.release.append(&mut release);
        self.dirty = true;
    }

    /// Whether there is nothing for the service to wake for.
    pub fn idle(&self) -> (idle: bool)
        ensures
            idle == (!self.dirty && !self.closed),
    {
        !self.dirty && !self.closed
    }

    /// Takes all the work there is. Nothing is taken once the service is closed.
    pub fn take_work(&mut self) -> (work: Option<(Option<Job>, Vec<u64>)>)
        ensures
            work is None <==> old(self).closed,
            match work {
                None => *final(self) == *old(self),
                Some((job, release)) => {
                    &&& job == old(self).job
                    &&& release@ == old(self).release@
                    &&& final(self)@ == old(self)@.taken()
                },
            },
    {
        if self.closed {
            return None;
        }
        self.dirty = false;
        let job = self.job.take();
        let mut release: Vec<u64> = Vec::new();
        core::mem::swap(&mut release, &mut self.release);
        Some((job, release))
    }
}

/// What is left of content that was to become the selection when the files in it are not
/// to be offered any more. Other content stays.
pub open spec fn without_files(pending: Option<PendingWrite>) -> Option<PendingWrite> {
    match pending {
        Some(PendingWrite::Files { .. }) => None,
        _ => pending,
    }
}

pub fn drop_unpublished_files(pending: &mut Option<PendingWrite>)
    ensures
        *final(pending) == without_files(*old(pending)),
{
    if matches!(pending, Some(PendingWrite::Files { .. })) {
        *pending = None;
    }
}

/// Whether the entries of a job can be published under the path where they are mounted: the
/// job is still the advertised one, and every entry has a path.
pub open spec fn publishable<A>(s: StateView<A>, job: Job, mount: Seq<char>) -> bool {
    s.live(job.generation) && job.roots.len() > 0 && entries_absolute(mount, texts(job.roots@))
}

/// Whether content lists exactly the given entries of a mount.
pub open spec fn lists_entries(
    pending: Option<PendingWrite>,
    mount: Seq<char>,
    roots: Seq<Seq<char>>,
) -> bool {
    let uris = entry_uris(mount, roots);
    &&& pending matches Some(PendingWrite::Files { uri_list, gnome_copied_files })
    &&& uri_list@ == uri_lines(uris)
    &&& gnome_copied_files@ == copy_word() + uris_after_feeds(uris)
}

/// The selections, and the work they leave for the mount service.
#[verifier::reject_recursive_types(A)]
pub struct Inbound<A> {
    pub transfer: Transfer<A>,
    pub service: Service,
}

impl<A> Inbound<A> {
    pub open spec fn wf(&self) -> bool {
        self.transfer.wf()
    }

    pub fn new(max_entries: usize, max_chunk: u32) -> (inbound: Self)
        ensures
            inbound.wf(),
            inbound.transfer.state@ == StateView::<A>::initial(),
            inbound.transfer.max_entries == max_entries,
            inbound.transfer.max_chunk == if max_chunk == 0 { 1 } else { max_chunk },
            inbound.service@ == ServiceView::initial(),
    {
        Inbound { transfer: Transfer::new(max_entries, max_chunk), service: Service::new() }
    }

    /// Supersedes the advertised selection. Whatever is mounted keeps serving until its
    /// lock is released. Gives the generation that is advertised from now on.
    pub fn retire_selection(&mut self, pending: &mut Option<PendingWrite>) -> (generation: Option<
        u64,
    >)
        requires
            old(self).wf(),
        ensures
            final(self).wf(),
            final(self).transfer.same_limits(&old(self).transfer),
            final(self).transfer.state@ == old(self).transfer.state@.retire_current(),
            generation == if final(self).transfer.state@.live(final(self).transfer.state.generation) {
                Some(final(self).transfer.state.generation)
            } else {
                None
            },
            *final(pending) == without_files(*old(pending)),
            old(self).service.updated(
                &final(self).service,
                None,
                old(self).transfer.state@.retire_released(),
                false,
            ),
    {
        let (generation, released) = self.transfer.retire_generation();
        drop_unpublished_files(pending);
        self.service.update(None, released, false);
        generation
    }

    /// The remote may drop the bytes that the given locks kept: the selections they
    /// covered stop serving. Whether there is work for the service is handed back.
    pub fn release_locks(&mut self, data_ids: &[u32]) -> (left_work: bool)
        requires
            old(self).wf(),
        ensures
            final(self).wf(),
            final(self).transfer.same_limits(&old(self).transfer),
            final(self).transfer.state@ == old(self).transfer.state@.release_locks(data_ids@),
            ({
                let released = old(self).transfer.state@.lock_released(data_ids@);
                &&& left_work == (released.len() > 0)
                &&& if left_work {
                    old(self).service.updated(&final(self).service, None, released, false)
                } else {
                    final(self).service == old(self).service
                }
            }),
    {
        let released = self.transfer.release_locks(data_ids);
        if released.is_empty() {
            return false;
        }
        self.service.update(None, released, false);
        true
    }

    /// Takes over what the remote can do. A change ends every selection.
    pub fn set_capabilities(
        &mut self,
        pending: &mut Option<PendingWrite>,
        stream: bool,
        huge: bool,
    )
        requires
            old(self).wf(),
        ensures
            final(self).wf(),
            final(self).transfer.same_limits(&old(self).transfer),
            final(self).transfer.state@ == old(self).transfer.state@.capabilities(stream, huge),
            *final(pending) == without_files(*old(pending)),
            old(self).service.updated(
                &final(self).service,
                None,
                if old(self).transfer.state.stream != stream || old(self).transfer.state.huge
                    != huge {
                    old(self).transfer.state@.shutdown_released()
                } else {
                    Seq::empty()
                },
                false,
            ),
    {
        drop_unpublished_files(pending);
        let released = self.transfer.capabilities(stream, huge);
        self.service.update(None, released, false);
    }

    /// Takes over a file list for which `generation` is still advertised, and leaves it
    /// to be mounted. Whether there is work for the service is handed back.
    pub fn accept_for(
        &mut self,
        generation: u64,
        files: &[FileDescriptor],
        data_id: Option<u32>,
    ) -> (left_work: bool)
        requires
            old(self).wf(),
        ensures
            final(self).wf(),
            final(self).transfer.same_limits(&old(self).transfer),
            ({
                let s = old(self).transfer.state@;
                let t = final(self).transfer.state@;
                &&& left_work == (s.live(generation) && s.generation < u64::MAX)
                &&& if left_work {
                    &&& t == s.accepted(files@, old(self).transfer.max_entries, data_id)
                    &&& final(self).service.job matches Some(job)
                    &&& job.generation == t.generation
                    &&& texts(job.roots@) == t.current.tree.root_names()
                    &&& old(self).service.updated(
                        &final(self).service,
                        final(self).service.job,
                        s.retire_released(),
                        false,
                    )
                } else {
                    &&& t == if s.live(generation) { s.retire_current() } else { s }
                    &&& final(self).service == old(self).service
                }
            }),
    {
        match self.transfer.accept_for(generation, files, data_id) {
            Some((generation, roots, released)) => {
                self.service.update(Some(Job { generation, roots }), released, false);
                true
            },
            None => false,
        }
    }

    /// Ends every selection and the service for good.
    pub fn close(&mut self, pending: &mut Option<PendingWrite>)
        requires
            old(self).wf(),
        ensures
            final(self).wf(),
            final(self).transfer.same_limits(&old(self).transfer),
            final(self).transfer.state@ == old(self).transfer.state@.close(),
            *final(pending) == without_files(*old(pending)),
            old(self).service.updated(
                &final(self).service,
                None,
                old(self).transfer.state@.shutdown_released(),
                true,
            ),
    {
        let released = self.transfer.close();
        drop_unpublished_files(pending);
        self.service.update(None, released, true);
    }

    /// Whether a job is worth mounting: it has something to show and is still advertised.
    pub fn wants_mount(&self, job: &Job) -> (wanted: bool)
        ensures
            wanted == (job.roots.len() > 0 && self.transfer.state@.live(job.generation)),
    {
        !job.roots.is_empty() && self.transfer.state.live(job.generation)
    }

    /// Makes what was mounted for a generation the content for the desktop. The mount may
    /// have taken its time while a new copy, a local owner or the close arrived: only the
    /// generation that is still advertised is published.
    pub fn publish_payload(
        &self,
        generation: u64,
        payload: Option<PendingWrite>,
        pending: &mut Option<PendingWrite>,
    ) -> (published: bool)
        ensures
            published == (self.transfer.state@.live(generation) && payload is Some),
            *final(pending) == if published { payload } else { *old(pending) },
    {
        if self.transfer.state.live(generation) && payload.is_some() {
            *pending = payload;
            true
        } else {
            false
        }
    }

    /// Publishes the entries of a job under the path where they are mounted.
    pub fn publish(&self, job: &Job, mount: &str, pending: &mut Option<PendingWrite>) -> (published:
        bool)
        ensures
            published == publishable(self.transfer.state@, *job, mount@),
            if published {
                lists_entries(*final(pending), mount@, texts(job.roots@))
            } else {
                *final(pending) == *old(pending)
            },
    {
        let payload = uri_payload(mount, &job.roots);
        self.publish_payload(job.generation, payload, pending)
    }
}

/// The mounts of the selections that still serve, by generation. Dropping a mount takes it
/// down.
#[verifier::reject_recursive_types(M)]
pub struct Mounts<M> {
    pub mounted: HashMap<u64, M>,
}

impl<M> Mounts<M> {
    pub fn new() -> (mounts: Self)
        ensures
            mounts.mounted@ == Map::<u64, M>::empty(),
    {
        Mounts { mounted: HashMap::new() }
    }

    /// Takes down the mounts of the given generations.
    pub fn release(&mut self, release: &Vec<u64>)
        ensures
            final(self).mounted@ == old(self).mounted@.remove_keys(release@.to_set()),
    {
        let ghost before = self.mounted@;
        let mut i: usize = 0;
        assert(before =~= before.remove_keys(release@.take(0).to_set()));
        while i < release.len()
            invariant
                i <= release.len(),
                self.mounted@ == before.remove_keys(release@.take(i as int).to_set()),
            decreases release.len() - i,
        {
            self.mounted.remove(&release[i]);
            i = i + 1;
            proof {
                let a = release@.take(i - 1);
                let b = release@.take(i as int);
                assert(b =~= a.push(release@[i - 1]));
                assert forall|g: u64| b.to_set().contains(g) <==> a.to_set().contains(g) || g
                    == release@[i - 1] by {
                    if a.contains(g) {
                        let k = choose|k: int| 0 <= k < a.len() && a[k] == g;
                        assert(b[k] == g);
                    }
                    if g == release@[i - 1] {
                        assert(b[i - 1] == g);
                    }
                }
                assert(self.mounted@ =~= before.remove_keys(b.to_set()));
            }
        }
        assert(release@.take(i as int) =~= release@);
    }

    /// Takes down every mount.
    pub fn release_all(&mut self)
        ensures
            final(self).mounted@ == Map::<u64, M>::empty(),
    {
        self.mounted = HashMap::new();
    }

    /// Keeps a mount if it was published; it comes down at once if it was not.
    pub fn settle(&mut self, generation: u64, mount: M, published: bool)
        ensures
            final(self).mounted@ == if published {
                old(self).mounted@.insert(generation, mount)
            } else {
                old(self).mounted@
            },
    {
        if published {
            self.mounted.insert(generation, mount);
        }
    }
}

/// A mount that was begun for a selection is never published once the selection is
/// superseded, or ended by the close or by a change of what the remote can do.
pub proof fn law_stale_mount_is_not_published<A>(s: StateView<A>, stream: bool, huge: bool)
    requires
        s.wf(),
    ensures
        !s.retire_current().live(s.generation),
        !s.close().live(s.generation),
        s.stream != stream || s.huge != huge ==> !s.capabilities(stream, huge).live(s.generation),
{
}

} // verus!
