//! The mount service, step by step.
//!
//! The service takes the work that selections leave, takes down the mounts of those that have
//! ended, mounts the newest, and keeps the mount if it could be published. It is told what has
//! happened, and says what to do next. Mounts come down in [`Server::release`] and
//! [`Server::settle`] only, which need nothing of the selections: whoever shares them under a
//! lock does not hold it there.

use crate::formats::PendingWrite;
use crate::inbound::{lists_entries, publishable, Inbound, Job, Mounts, Service, ServiceView};
use crate::text::texts;
use vstd::prelude::*;

verus! {

/// What is to be done next for the service.
#[derive(Clone, Copy, PartialEq, Eq, Debug, Structural)]
pub enum ServeAction {
    /// Wait for work and take it.
    TakeWork,
    /// Take down the mounts that are to come down.
    Release,
    /// See whether the job is worth mounting.
    Check,
    /// Mount the job.
    Mount,
    /// Publish the job under its mount.
    Publish,
    /// Keep the mount or take it down.
    Settle,
    /// The service has ended.
    Stop,
}

/// Where the service stands.
#[verifier::reject_recursive_types(M)]
pub enum Phase<M> {
    Idle,
    Releasing { job: Option<Job>, release: Vec<u64> },
    /// The service was closed, and every mount is to come down.
    Closing,
    Checking(Job),
    Mounting(Job),
    Publishing(Job, M),
    Settling { generation: u64, mount: M, published: bool },
    Stopped,
}

#[verifier::ext_equal]
#[verifier::reject_recursive_types(M)]
pub enum PhaseView<M> {
    Idle,
    Releasing { job: Option<Job>, release: Seq<u64> },
    Closing,
    Checking(Job),
    Mounting(Job),
    Publishing(Job, M),
    Settling { generation: u64, mount: M, published: bool },
    Stopped,
}

/// The mounts of the service, and where it stands.
#[verifier::ext_equal]
#[verifier::reject_recursive_types(M)]
pub struct ServerView<M> {
    pub phase: PhaseView<M>,
    pub mounted: Map<u64, M>,
}

#[verifier::reject_recursive_types(M)]
pub struct Server<M> {
    pub phase: Phase<M>,
    pub mounts: Mounts<M>,
}

impl<M> View for Phase<M> {
    type V = PhaseView<M>;

    open spec fn view(&self) -> PhaseView<M> {
        match *self {
            Phase::Idle => PhaseView::Idle,
            Phase::Releasing { job, release } => PhaseView::Releasing { job, release: release@ },
            Phase::Closing => PhaseView::Closing,
            Phase::Checking(job) => PhaseView::Checking(job),
            Phase::Mounting(job) => PhaseView::Mounting(job),
            Phase::Publishing(job, mount) => PhaseView::Publishing(job, mount),
            Phase::Settling { generation, mount, published } => PhaseView::Settling {
                generation,
                mount,
                published,
            },
            Phase::Stopped => PhaseView::Stopped,
        }
    }
}

impl<M> View for Server<M> {
    type V = ServerView<M>;

    open spec fn view(&self) -> ServerView<M> {
        ServerView { phase: self.phase@, mounted: self.mounts.mounted@ }
    }
}

impl<M> PhaseView<M> {
    pub open spec fn action(self) -> ServeAction {
        match self {
            PhaseView::Idle => ServeAction::TakeWork,
            PhaseView::Releasing { .. } | PhaseView::Closing => ServeAction::Release,
            PhaseView::Checking(_) => ServeAction::Check,
            PhaseView::Mounting(_) => ServeAction::Mount,
            PhaseView::Publishing(..) => ServeAction::Publish,
            PhaseView::Settling { .. } => ServeAction::Settle,
            PhaseView::Stopped => ServeAction::Stop,
        }
    }
}

impl<M> ServerView<M> {
    pub open spec fn initial() -> ServerView<M> {
        ServerView { phase: PhaseView::Idle, mounted: Map::empty() }
    }

    pub open spec fn took_work(self, service: ServiceView) -> ServerView<M> {
        match self.phase {
            PhaseView::Idle => ServerView {
                phase: if service.closed {
                    PhaseView::Closing
                } else {
                    PhaseView::Releasing { job: service.job, release: service.release }
                },
                ..self
            },
            _ => self,
        }
    }

    pub open spec fn released(self) -> ServerView<M> {
        match self.phase {
            PhaseView::Releasing { job, release } => ServerView {
                phase: match job {
                    Some(job) => PhaseView::Checking(job),
                    None => PhaseView::Idle,
                },
                mounted: self.mounted.remove_keys(release.to_set()),
            },
            PhaseView::Closing => ServerView { phase: PhaseView::Stopped, mounted: Map::empty() },
            _ => self,
        }
    }

    /// `live` says that the job is the advertised one.
    pub open spec fn checked(self, live: bool) -> ServerView<M> {
        match self.phase {
            PhaseView::Checking(job) => ServerView {
                phase: if job.roots.len() > 0 && live {
                    PhaseView::Mounting(job)
                } else {
                    PhaseView::Idle
                },
                ..self
            },
            _ => self,
        }
    }

    pub open spec fn mounted_as(self, mount: Option<M>) -> ServerView<M> {
        match self.phase {
            PhaseView::Mounting(job) => ServerView {
                phase: match mount {
                    Some(mount) => PhaseView::Publishing(job, mount),
                    None => PhaseView::Idle,
                },
                ..self
            },
            _ => self,
        }
    }

    pub open spec fn published(self, published: bool) -> ServerView<M> {
        match self.phase {
            PhaseView::Publishing(job, mount) => ServerView {
                phase: PhaseView::Settling { generation: job.generation, mount, published },
                ..self
            },
            _ => self,
        }
    }

    pub open spec fn settled(self) -> ServerView<M> {
        match self.phase {
            PhaseView::Settling { generation, mount, published } => ServerView {
                phase: PhaseView::Idle,
                mounted: if published {
                    self.mounted.insert(generation, mount)
                } else {
                    self.mounted
                },
            },
            _ => self,
        }
    }
}

impl<M> Server<M> {
    pub fn new() -> (server: Self)
        ensures
            server@ == ServerView::<M>::initial(),
    {
        Server { phase: Phase::Idle, mounts: Mounts::new() }
    }

    /// What is to be done next.
    pub fn action(&self) -> (action: ServeAction)
        ensures
            action == self@.phase.action(),
    {
        match &self.phase {
            Phase::Idle => ServeAction::TakeWork,
            Phase::Releasing { .. } => ServeAction::Release,
            Phase::Closing => ServeAction::Release,
            Phase::Checking(_) => ServeAction::Check,
            Phase::Mounting(_) => ServeAction::Mount,
            Phase::Publishing(_, _) => ServeAction::Publish,
            Phase::Settling { .. } => ServeAction::Settle,
            Phase::Stopped => ServeAction::Stop,
        }
    }

    /// The generation that is to be mounted.
    pub fn to_mount(&self) -> (generation: Option<u64>)
        ensures
            generation == match self@.phase {
                PhaseView::Mounting(job) => Some(job.generation),
                _ => None,
            },
    {
        match &self.phase {
            Phase::Mounting(job) => Some(job.generation),
            _ => None,
        }
    }

    /// The job that is to be published, and its mount.
    pub fn to_publish(&self) -> (waiting: Option<(&Job, &M)>)
        ensures
            match waiting {
                Some((job, mount)) => self@.phase == PhaseView::Publishing(*job, *mount),
                None => !(self@.phase is Publishing),
            },
    {
        match &self.phase {
            Phase::Publishing(job, mount) => Some((job, mount)),
            _ => None,
        }
    }

    /// Takes the work that the selections have left.
    pub fn take_work(&mut self, service: &mut Service)
        ensures
            final(self)@ == old(self)@.took_work(old(service)@),
            final(service)@ == if old(self)@.phase is Idle {
                old(service)@.taken()
            } else {
                old(service)@
            },
    {
        if let Phase::Idle = self.phase {
            match service.take_work() {
                None => {
                    self.phase = Phase::Closing;
                },
                Some((job, release)) => {
                    self.phase = Phase::Releasing { job, release };
                },
            }
        }
    }

    /// Takes down the mounts of the selections that have ended, or all of them once the
    /// service is closed.
    pub fn release(&mut self)
        ensures
            final(self)@ == old(self)@.released(),
    {
        let mut phase = Phase::Idle;
        core::mem::swap(&mut phase, &mut self.phase);
        match phase {
            Phase::Releasing { job, release } => {
                self.mounts.release(&release);
                if let Some(job) = job {
                    self.phase = Phase::Checking(job);
                }
            },
            Phase::Closing => {
                self.mounts.release_all();
                self.phase = Phase::Stopped;
            },
            other => {
                self.phase = other;
            },
        }
    }

    /// Goes on with the job if it has something to show and is still advertised.
    pub fn check<A>(&mut self, inbound: &Inbound<A>)
        ensures
            match old(self)@.phase {
                PhaseView::Checking(job) => final(self)@ == old(self)@.checked(
                    inbound.transfer.state@.live(job.generation),
                ),
                _ => final(self)@ == old(self)@,
            },
    {
        let mut phase = Phase::Idle;
        core::mem::swap(&mut phase, &mut self.phase);
        match phase {
            Phase::Checking(job) => {
                if inbound.wants_mount(&job) {
                    self.phase = Phase::Mounting(job);
                }
            },
            other => {
                self.phase = other;
            },
        }
    }

    /// The job was mounted, or could not be.
    pub fn mounted(&mut self, mount: Option<M>)
        ensures
            final(self)@ == old(self)@.mounted_as(mount),
    {
        let mut phase = Phase::Idle;
        core::mem::swap(&mut phase, &mut self.phase);
        match phase {
            Phase::Mounting(job) => {
                if let Some(mount) = mount {
                    self.phase = Phase::Publishing(job, mount);
                }
            },
            other => {
                self.phase = other;
            },
        }
    }

    /// Publishes the job's entries under the path of its mount, if it is still advertised.
    pub fn publish<A>(
        &mut self,
        inbound: &Inbound<A>,
        mount: &str,
        pending: &mut Option<PendingWrite>,
    )
        ensures
            match old(self)@.phase {
                PhaseView::Publishing(job, _) => {
                    let published = publishable(inbound.transfer.state@, job, mount@);
                    &&& final(self)@ == old(self)@.published(published)
                    &&& if published {
                        lists_entries(*final(pending), mount@, texts(job.roots@))
                    } else {
                        *final(pending) == *old(pending)
                    }
                },
                _ => final(self)@ == old(self)@ && *final(pending) == *old(pending),
            },
    {
        let mut phase = Phase::Idle;
        core::mem::swap(&mut phase, &mut self.phase);
        match phase {
            Phase::Publishing(job, made) => {
                let published = inbound.publish(&job, mount, pending);
                self.phase = Phase::Settling {
                    generation: job.generation,
                    mount: made,
                    published,
                };
            },
            other => {
                self.phase = other;
            },
        }
    }

    /// Publishes given content for the job, if there is any and the job is still advertised.
    pub fn publish_payload<A>(
        &mut self,
        inbound: &Inbound<A>,
        payload: Option<PendingWrite>,
        pending: &mut Option<PendingWrite>,
    )
        ensures
            match old(self)@.phase {
                PhaseView::Publishing(job, _) => {
                    let published = inbound.transfer.state@.live(job.generation) && payload is Some;
                    &&& final(self)@ == old(self)@.published(published)
                    &&& *final(pending) == if published { payload } else { *old(pending) }
                },
                _ => final(self)@ == old(self)@ && *final(pending) == *old(pending),
            },
    {
        let mut phase = Phase::Idle;
        core::mem::swap(&mut phase, &mut self.phase);
        match phase {
            Phase::Publishing(job, made) => {
                let published = inbound.publish_payload(job.generation, payload, pending);
                self.phase = Phase::Settling {
                    generation: job.generation,
                    mount: made,
                    published,
                };
            },
            other => {
                self.phase = other;
            },
        }
    }

    /// Keeps the mount if it was published, and takes it down if not.
    pub fn settle(&mut self)
        ensures
            final(self)@ == old(self)@.settled(),
    {
        let mut phase = Phase::Idle;
        core::mem::swap(&mut phase, &mut self.phase);
        match phase {
            Phase::Settling { generation, mount, published } => {
                self.mounts.settle(generation, mount, published);
            },
            other => {
                self.phase = other;
            },
        }
    }
}

} // verus!
