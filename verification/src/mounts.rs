//! What the mount service promises over a whole run.

use crate::inbound::{Job, ServiceView};
use crate::serve::{PhaseView, ServeAction, ServerView};
use vstd::prelude::*;

verus! {

/// What can happen in a run of the mount service.
#[verifier::reject_recursive_types(M)]
pub enum ServeEvent<M> {
    /// The selections leave work, at any time.
    Update { job: Option<Job>, release: Seq<u64>, close: bool },
    /// The service does what it says is to be done next.
    TakeWork,
    Release,
    Check { live: bool },
    Mount { mount: Option<M> },
    Publish { published: bool },
    Settle,
}

/// The service, and the work left for it.
#[verifier::ext_equal]
#[verifier::reject_recursive_types(M)]
pub struct ServeRun<M> {
    pub service: ServiceView,
    pub server: ServerView<M>,
}

impl<M> ServeRun<M> {
    pub open spec fn initial() -> ServeRun<M> {
        ServeRun { service: ServiceView::initial(), server: ServerView::initial() }
    }

    /// Whether an event can happen: work may be left at any time, and the service does
    /// nothing out of turn.
    pub open spec fn possible(self, event: ServeEvent<M>) -> bool {
        let action = self.server.phase.action();
        match event {
            ServeEvent::Update { .. } => true,
            ServeEvent::TakeWork => action == ServeAction::TakeWork,
            ServeEvent::Release => action == ServeAction::Release,
            ServeEvent::Check { .. } => action == ServeAction::Check,
            ServeEvent::Mount { .. } => action == ServeAction::Mount,
            ServeEvent::Publish { .. } => action == ServeAction::Publish,
            ServeEvent::Settle => action == ServeAction::Settle,
        }
    }

    pub open spec fn after(self, event: ServeEvent<M>) -> ServeRun<M> {
        match event {
            ServeEvent::Update { job, release, close } => ServeRun {
                service: self.service.updated(job, release, close),
                ..self
            },
            ServeEvent::TakeWork => ServeRun {
                service: self.service.taken(),
                server: self.server.took_work(self.service),
            },
            ServeEvent::Release => ServeRun { server: self.server.released(), ..self },
            ServeEvent::Check { live } => ServeRun { server: self.server.checked(live), ..self },
            ServeEvent::Mount { mount } => ServeRun {
                server: self.server.mounted_as(mount),
                ..self
            },
            ServeEvent::Publish { published } => ServeRun {
                server: self.server.published(published),
                ..self
            },
            ServeEvent::Settle => ServeRun { server: self.server.settled(), ..self },
        }
    }
}

/// The service after a run of events.
pub open spec fn served<M>(events: Seq<ServeEvent<M>>) -> ServeRun<M>
    decreases events.len(),
{
    if events.len() == 0 {
        ServeRun::initial()
    } else {
        served(events.drop_last()).after(events.last())
    }
}

/// Whether the events can happen one after the other.
pub open spec fn possible_run<M>(events: Seq<ServeEvent<M>>) -> bool
    decreases events.len(),
{
    events.len() == 0 || (possible_run(events.drop_last()) && served(
        events.drop_last(),
    ).possible(events.last()))
}

/// The service just before the event at `k`.
pub open spec fn before<M>(events: Seq<ServeEvent<M>>, k: int) -> ServeRun<M> {
    served(events.take(k))
}

/// Whether a job was left for the service at `k`.
pub open spec fn left_at<M>(events: Seq<ServeEvent<M>>, k: int, job: Job) -> bool {
    &&& 0 <= k < events.len()
    &&& events[k] matches ServeEvent::Update { job: Some(left), .. }
    &&& left == job
}

/// Whether a generation was put among those whose mount must come down at `k`.
pub open spec fn put_at<M>(events: Seq<ServeEvent<M>>, k: int, generation: u64) -> bool {
    &&& 0 <= k < events.len()
    &&& events[k] matches ServeEvent::Update { release, .. }
    &&& release.contains(generation)
}

/// Whether the service was closed at `k`.
pub open spec fn closed_at<M>(events: Seq<ServeEvent<M>>, k: int) -> bool {
    &&& 0 <= k < events.len()
    &&& events[k] matches ServeEvent::Update { close, .. }
    &&& close
}

/// Whether a mount that was published was kept at `k`.
pub open spec fn kept_at<M>(
    events: Seq<ServeEvent<M>>,
    k: int,
    generation: u64,
    mount: M,
) -> bool {
    &&& 0 <= k < events.len()
    &&& events[k] is Settle
    &&& before(events, k).server.phase == (PhaseView::Settling { generation, mount, published: true })
}

/// Whether the mount of a generation came down at `k`, if there was one.
pub open spec fn taken_down_at<M>(events: Seq<ServeEvent<M>>, k: int, generation: u64) -> bool {
    &&& 0 <= k < events.len()
    &&& events[k] is Release
    &&& match before(events, k).server.phase {
        PhaseView::Closing => true,
        PhaseView::Releasing { release, .. } => release.contains(generation),
        _ => false,
    }
}

/// Whether the mount kept at `k` has not come down since, nor another taken its place.
pub open spec fn still_kept<M>(
    events: Seq<ServeEvent<M>>,
    k: int,
    generation: u64,
    mount: M,
) -> bool {
    &&& kept_at(events, k, generation, mount)
    &&& forall|j: int| k < j ==> !#[trigger] taken_down_at(events, j, generation)
    &&& forall|j: int, other: M| k < j ==> !#[trigger] kept_at(events, j, generation, other)
}

/// The last thing that the service itself did.
pub open spec fn last_step<M>(events: Seq<ServeEvent<M>>) -> Option<ServeEvent<M>>
    decreases events.len(),
{
    if events.len() == 0 {
        None
    } else if events.last() is Update {
        last_step(events.drop_last())
    } else {
        Some(events.last())
    }
}

/// Where the job that waits for the service was left; negative if none waits.
pub open spec fn waiting_from<M>(events: Seq<ServeEvent<M>>) -> int
    decreases events.len(),
{
    if events.len() == 0 {
        -1
    } else {
        let rest = events.drop_last();
        match events.last() {
            ServeEvent::Update { job: Some(_), .. } => rest.len() as int,
            ServeEvent::TakeWork => if served(rest).service.closed {
                waiting_from(rest)
            } else {
                -1
            },
            _ => waiting_from(rest),
        }
    }
}

/// Where the job that the service took last was left; negative if it took none.
pub open spec fn taken_from<M>(events: Seq<ServeEvent<M>>) -> int
    decreases events.len(),
{
    if events.len() == 0 {
        -1
    } else {
        let rest = events.drop_last();
        if events.last() is TakeWork && !served(rest).service.closed && waiting_from(rest) >= 0 {
            waiting_from(rest)
        } else {
            taken_from(rest)
        }
    }
}

/// Where the job that is mounted at `k` was left.
pub open spec fn job_of_mount<M>(events: Seq<ServeEvent<M>>, k: int) -> int {
    taken_from(events.take(k))
}

/// A job was mounted from `taken_from` by the last mount; negative if there was none.
spec fn mounted_from<M>(events: Seq<ServeEvent<M>>) -> int
    decreases events.len(),
{
    if events.len() == 0 {
        -1
    } else {
        let rest = events.drop_last();
        if events.last() is Mount {
            taken_from(rest)
        } else {
            mounted_from(rest)
        }
    }
}

/// The job that the service has in hand and has not mounted yet.
spec fn in_hand<M>(phase: PhaseView<M>) -> Option<Job> {
    match phase {
        PhaseView::Releasing { job, .. } => job,
        PhaseView::Checking(job) => Some(job),
        PhaseView::Mounting(job) => Some(job),
        _ => None,
    }
}

/// Where a run stands tells what came before.
spec fn traced<M>(events: Seq<ServeEvent<M>>) -> bool {
    let r = served(events);
    &&& match r.server.phase {
        PhaseView::Releasing { release, .. } => forall|g: u64|
            release.contains(g) ==> exists|k: int| #[trigger] put_at(events, k, g),
        PhaseView::Mounting(job) => job.roots.len() > 0 && last_step(events) == Some(
            ServeEvent::<M>::Check { live: true },
        ),
        PhaseView::Publishing(job, mount) => last_step(events) == Some(
            ServeEvent::Mount { mount: Some(mount) },
        ),
        PhaseView::Settling { published, .. } => last_step(events) == Some(
            ServeEvent::<M>::Publish { published },
        ),
        PhaseView::Closing => r.service.closed,
        PhaseView::Stopped => r.service.closed && r.server.mounted == Map::<u64, M>::empty(),
        _ => true,
    }
    &&& forall|g: u64|
        r.service.release.contains(g) ==> exists|k: int| #[trigger] put_at(events, k, g)
    &&& r.service.closed ==> exists|k: int| #[trigger] closed_at(events, k)
    &&& !r.service.dirty ==> r.service == ServiceView::initial()
    &&& waiting_from(events) >= 0 <==> r.service.job is Some
    &&& r.service.job matches Some(job) ==> left_at(events, waiting_from(events), job)
    &&& waiting_from(events) >= 0 ==> waiting_from(events) > taken_from(events)
    &&& in_hand(r.server.phase) matches Some(job) ==> {
        &&& left_at(events, taken_from(events), job)
        &&& taken_from(events) > mounted_from(events)
    }
    &&& mounted_from(events) <= taken_from(events) < events.len()
    &&& waiting_from(events) < events.len()
}

proof fn lemma_traced<M>(events: Seq<ServeEvent<M>>)
    requires
        possible_run(events),
    ensures
        traced(events),
    decreases events.len(),
{
    if events.len() > 0 {
        let rest = events.drop_last();
        lemma_traced(rest);
        let n = rest.len() as int;
        let e = events.last();
        assert(events[n] == e);
        assert forall|k: int, g: u64| put_at(rest, k, g) implies #[trigger] put_at(events, k, g) by {
            assert(events[k] == rest[k]);
        }
        assert forall|k: int| closed_at(rest, k) implies #[trigger] closed_at(events, k) by {
            assert(events[k] == rest[k]);
        }
        assert forall|k: int, job: Job| left_at(rest, k, job) implies #[trigger] left_at(
            events,
            k,
            job,
        ) by {
            assert(events[k] == rest[k]);
        }
        let q = served(rest);
        let r = served(events);
        assert forall|g: u64| q.service.release.contains(g) implies exists|k: int| #[trigger]
            put_at(events, k, g) by {
            let k = choose|k: int| #[trigger] put_at(rest, k, g);
            assert(put_at(events, k, g));
        }
        if q.service.closed {
            let k = choose|k: int| #[trigger] closed_at(rest, k);
            assert(closed_at(events, k));
        }
        match e {
            ServeEvent::Update { job, release, close } => {
                assert forall|g: u64| r.service.release.contains(g) implies exists|k: int|
                    #[trigger] put_at(events, k, g) by {
                    let i = choose|i: int|
                        0 <= i < r.service.release.len() && r.service.release[i] == g;
                    if i < q.service.release.len() {
                        assert(q.service.release[i] == g);
                        assert(q.service.release.contains(g));
                        let k = choose|k: int| #[trigger] put_at(rest, k, g);
                        assert(put_at(events, k, g));
                    } else {
                        assert(release[i - q.service.release.len()] == g);
                        assert(put_at(events, n, g));
                    }
                }
                if close {
                    assert(closed_at(events, n));
                }
                if let PhaseView::Releasing { release, .. } = r.server.phase {
                    assert forall|g: u64| release.contains(g) implies exists|k: int| #[trigger]
                        put_at(events, k, g) by {
                        let k = choose|k: int| #[trigger] put_at(rest, k, g);
                        assert(put_at(events, k, g));
                    }
                }
            },
            _ => {},
        }
    }
}

/// Nothing before `k` depends on what comes from `k` on.
proof fn lemma_prefix<M>(events: Seq<ServeEvent<M>>, k: int)
    requires
        possible_run(events),
        0 <= k <= events.len(),
    ensures
        possible_run(events.take(k)),
        k < events.len() ==> before(events, k).possible(events[k]),
    decreases events.len(),
{
    if k == events.len() {
        assert(events.take(k) =~= events);
    } else {
        let rest = events.drop_last();
        lemma_prefix(rest, k);
        assert(rest.take(k) =~= events.take(k));
        if k == rest.len() {
            assert(rest.take(k) =~= rest);
        } else {
            assert(rest[k] == events[k]);
        }
    }
}

/// What happened at `k` is what happened at `k` of any longer run.
proof fn lemma_same_past<M>(events: Seq<ServeEvent<M>>, k: int, generation: u64)
    requires
        events.len() > 0,
        k < events.len() - 1,
    ensures
        taken_down_at(events, k, generation) == taken_down_at(events.drop_last(), k, generation),
        forall|mount: M| #[trigger]
            kept_at(events, k, generation, mount) == kept_at(
                events.drop_last(),
                k,
                generation,
                mount,
            ),
{
    if 0 <= k {
        let rest = events.drop_last();
        assert(rest[k] == events[k]);
        assert(rest.take(k) =~= events.take(k));
    }
}

/// Mounts are begun only for a job that was left for the service, that has something to show,
/// and that was found live in the step just before.
pub proof fn law_only_a_live_job_is_mounted<M>(events: Seq<ServeEvent<M>>)
    requires
        possible_run(events),
    ensures
        served(events).server.phase matches PhaseView::Mounting(job) ==> {
            &&& job.roots.len() > 0
            &&& last_step(events) == Some(ServeEvent::<M>::Check { live: true })
            &&& left_at(events, taken_from(events), job)
        },
{
    lemma_traced(events);
}

/// A job with one entry or more that is found live is mounted next, whatever work is left in
/// the meantime.
pub proof fn law_a_live_job_is_mounted_next<M>(
    events: Seq<ServeEvent<M>>,
    left: Seq<ServeEvent<M>>,
    job: Job,
)
    requires
        possible_run(events),
        events.len() > 0,
        before(events, events.len() - 1).server.phase == PhaseView::<M>::Checking(job),
        events.last() == (ServeEvent::<M>::Check { live: true }),
        job.roots@.len() >= 1,
        forall|i: int| 0 <= i < left.len() ==> #[trigger] left[i] is Update,
    ensures
        served(events + left).server.phase == PhaseView::<M>::Mounting(job),
        served(events + left).server.phase.action() == ServeAction::Mount,
    decreases left.len(),
{
    if left.len() == 0 {
        assert(events.take(events.len() - 1) =~= events.drop_last());
        assert(events + left =~= events);
    } else {
        let rest = left.drop_last();
        assert forall|i: int| 0 <= i < rest.len() implies #[trigger] rest[i] is Update by {
            assert(rest[i] == left[i]);
        }
        law_a_live_job_is_mounted_next(events, rest, job);
        assert((events + left).drop_last() =~= events + rest);
        assert((events + left).last() == left[left.len() - 1]);
    }
}

/// No job is mounted twice: the mount at `k` is of a job that was left later than the one
/// mounted at `j` before it.
pub proof fn law_each_job_is_mounted_at_most_once<M>(events: Seq<ServeEvent<M>>, j: int, k: int)
    requires
        possible_run(events),
        0 <= j < k < events.len(),
        events[j] is Mount,
        events[k] is Mount,
    ensures
        0 <= job_of_mount(events, j) < job_of_mount(events, k) < k,
        before(events, k).server.phase matches PhaseView::Mounting(job) && left_at(
            events,
            job_of_mount(events, k),
            job,
        ),
{
    lemma_prefix(events, j);
    lemma_prefix(events, k);
    let a = events.take(j);
    let b = events.take(k);
    lemma_traced(a);
    lemma_traced(b);
    assert(b[j] == events[j]);
    lemma_mounted_from(b, j);
    assert(b.take(j) =~= a);
    let job = before(events, k).server.phase->Mounting_0;
    assert(left_at(b, taken_from(b), job));
    assert(events[taken_from(b)] == b[taken_from(b)]);
}

proof fn lemma_mounted_from<M>(events: Seq<ServeEvent<M>>, j: int)
    requires
        possible_run(events),
        0 <= j < events.len(),
        events[j] is Mount,
    ensures
        mounted_from(events) >= taken_from(events.take(j)),
    decreases events.len(),
{
    let rest = events.drop_last();
    if j == rest.len() {
        assert(events.take(j) =~= rest);
    } else {
        assert(rest[j] == events[j]);
        lemma_mounted_from(rest, j);
        assert(rest.take(j) =~= events.take(j));
        lemma_traced(rest);
    }
}

/// A mount is settled by what its publication came to, in the step just before, and what is
/// published is what was mounted in the step before that.
pub proof fn law_a_mount_is_settled_by_its_publication<M>(events: Seq<ServeEvent<M>>)
    requires
        possible_run(events),
    ensures
        served(events).server.phase matches PhaseView::Settling { published, .. } ==> last_step(
            events,
        ) == Some(ServeEvent::<M>::Publish { published }),
        served(events).server.phase matches PhaseView::Publishing(_, mount) ==> last_step(events)
            == Some(ServeEvent::Mount { mount: Some(mount) }),
{
    lemma_traced(events);
}

/// A mount is there if and only if it was kept, which takes that it was published, and has not
/// come down since.
pub proof fn law_a_mount_stays_until_it_is_taken_down<M>(
    events: Seq<ServeEvent<M>>,
    generation: u64,
    mount: M,
)
    requires
        possible_run(events),
    ensures
        served(events).server.mounted.contains_pair(generation, mount) <==> exists|k: int| #[trigger]
            still_kept(events, k, generation, mount),
    decreases events.len(),
{
    let mounted = served(events).server.mounted;
    if events.len() == 0 {
        assert forall|k: int| !#[trigger] still_kept(events, k, generation, mount) by {}
    } else {
        let rest = events.drop_last();
        let n = rest.len() as int;
        let q = served(rest);
        law_a_mount_stays_until_it_is_taken_down(rest, generation, mount);
        assert(events.take(n) =~= rest);
        assert(events[n] == events.last());
        assert forall|k: int| k < n implies #[trigger] taken_down_at(events, k, generation)
            == taken_down_at(rest, k, generation) by {
            lemma_same_past(events, k, generation);
        }
        assert forall|k: int, m: M| k < n implies #[trigger] kept_at(events, k, generation, m)
            == kept_at(rest, k, generation, m) by {
            lemma_same_past(events, k, generation);
        }
        if mounted.contains_pair(generation, mount) {
            if kept_at(events, n, generation, mount) {
                assert(still_kept(events, n, generation, mount));
            } else {
                assert(q.server.mounted.contains_pair(generation, mount));
                let k = choose|k: int| #[trigger] still_kept(rest, k, generation, mount);
                assert(!taken_down_at(events, n, generation)) by {
                    if taken_down_at(events, n, generation) {
                        assert(!mounted.contains_key(generation));
                    }
                }
                assert forall|j: int, other: M| k < j implies !#[trigger] kept_at(
                    events,
                    j,
                    generation,
                    other,
                ) by {
                    if j == n && kept_at(events, n, generation, other) {
                        assert(mounted[generation] == other);
                    }
                }
                assert(still_kept(events, k, generation, mount));
            }
        }
        if exists|k: int| #[trigger] still_kept(events, k, generation, mount) {
            let k = choose|k: int| #[trigger] still_kept(events, k, generation, mount);
            if k < n {
                assert forall|j: int| k < j implies !#[trigger] taken_down_at(
                    rest,
                    j,
                    generation,
                ) by {
                    if j < n {
                        assert(!taken_down_at(events, j, generation));
                    }
                }
                assert forall|j: int, other: M| k < j implies !#[trigger] kept_at(
                    rest,
                    j,
                    generation,
                    other,
                ) by {
                    if j < n {
                        assert(!kept_at(events, j, generation, other));
                    }
                }
                assert(kept_at(events, k, generation, mount));
                assert(still_kept(rest, k, generation, mount));
                assert(q.server.mounted.contains_pair(generation, mount));
                assert(!taken_down_at(events, n, generation));
                if let PhaseView::Settling { generation: g, mount: m, published } = q.server.phase {
                    if events.last() is Settle && published && g == generation {
                        assert(kept_at(events, n, generation, m));
                    }
                }
            }
        }
    }
}

/// Nothing comes down early: a generation whose mount comes down was put among those that must,
/// or the service was closed.
pub proof fn law_nothing_comes_down_early<M>(events: Seq<ServeEvent<M>>, k: int, generation: u64)
    requires
        possible_run(events),
        taken_down_at(events, k, generation),
    ensures
        (exists|j: int| j < k && #[trigger] put_at(events, j, generation)) || (exists|j: int|
            j < k && #[trigger] closed_at(events, j)),
{
    lemma_prefix(events, k);
    let past = events.take(k);
    lemma_traced(past);
    if served(past).server.phase is Closing {
        let j = choose|j: int| #[trigger] closed_at(past, j);
        assert(past[j] == events[j]);
        assert(closed_at(events, j));
    } else {
        let j = choose|j: int| #[trigger] put_at(past, j, generation);
        assert(past[j] == events[j]);
        assert(put_at(events, j, generation));
    }
}

/// A generation that is put among those whose mount must come down is kept no more once the
/// service has caught up: when it waits with no work left, the mount is gone, unless it was
/// kept only after that.
pub proof fn law_a_released_mount_comes_down<M>(events: Seq<ServeEvent<M>>, k: int, generation: u64)
    requires
        possible_run(events),
        put_at(events, k, generation),
        served(events).server.phase is Idle,
        !served(events).service.dirty,
        forall|j: int, mount: M| k < j ==> !#[trigger] kept_at(events, j, generation, mount),
    ensures
        !served(events).server.mounted.contains_key(generation),
{
    lemma_traced(events);
    lemma_put_is_followed(events, k, generation);
    let down = choose|j: int| k < j && #[trigger] taken_down_at(events, j, generation);
    let mounted = served(events).server.mounted;
    if mounted.contains_key(generation) {
        let mount = mounted[generation];
        law_a_mount_stays_until_it_is_taken_down(events, generation, mount);
        let i = choose|i: int| #[trigger] still_kept(events, i, generation, mount);
        assert(kept_at(events, i, generation, mount));
        assert(!taken_down_at(events, down, generation));
    }
}

/// What is put among those that must come down is still waiting, in hand, or done.
proof fn lemma_put_is_followed<M>(events: Seq<ServeEvent<M>>, k: int, generation: u64)
    requires
        possible_run(events),
        put_at(events, k, generation),
    ensures
        ({
            let r = served(events);
            ||| r.service.release.contains(generation)
            ||| r.server.phase matches PhaseView::Releasing { release, .. } && release.contains(
                generation,
            )
            ||| exists|j: int| k < j && #[trigger] taken_down_at(events, j, generation)
        }),
    decreases events.len(),
{
    let rest = events.drop_last();
    let n = rest.len() as int;
    let q = served(rest);
    let r = served(events);
    assert(events.take(n) =~= rest);
    assert(events[n] == events.last());
    if k == n {
        let release = events[n]->release;
        let i = choose|i: int| 0 <= i < release.len() && release[i] == generation;
        assert(r.service.release[q.service.release.len() + i] == generation);
    } else {
        assert(rest[k] == events[k]);
        lemma_put_is_followed(rest, k, generation);
        if q.service.release.contains(generation) {
            let i = choose|i: int|
                0 <= i < q.service.release.len() && q.service.release[i] == generation;
            if let ServeEvent::Update { .. } = events.last() {
                assert(r.service.release[i] == generation);
            }
        } else if exists|j: int| k < j && #[trigger] taken_down_at(rest, j, generation) {
            let j = choose|j: int| k < j && #[trigger] taken_down_at(rest, j, generation);
            lemma_same_past(events, j, generation);
            assert(taken_down_at(events, j, generation));
        } else if events.last() is Release {
            assert(taken_down_at(events, n, generation));
        }
    }
}

/// The service ends only when it was closed, and then no mount is left. Once it is closed and
/// waits, it ends with its next two steps.
pub proof fn law_the_close_takes_every_mount_down<M>(events: Seq<ServeEvent<M>>)
    requires
        possible_run(events),
    ensures
        served(events).server.phase is Stopped ==> {
            &&& served(events).server.mounted == Map::<u64, M>::empty()
            &&& exists|k: int| #[trigger] closed_at(events, k)
        },
        served(events).server.phase is Idle && served(events).service.closed ==> {
            let end = served(events).after(ServeEvent::TakeWork).after(ServeEvent::Release);
            &&& end.server.phase is Stopped
            &&& end.server.mounted == Map::<u64, M>::empty()
        },
{
    lemma_traced(events);
}

} // verus!
