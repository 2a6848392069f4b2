//! The accept loop of a worker and its idle deadline.

use vstd::prelude::*;

use crate::daemon::worker::shutdown;
use crate::daemon::worker::shutdown::{WorkerSignal, WorkerStop};
use crate::runtime;
use crate::runtime::Deadline;
use crate::time::{Duration, Instant};

verus! {

/// The points of a list of instants.
pub open spec fn points(instants: Seq<Instant>) -> Seq<nat> {
    instants.map_values(|instant: Instant| instant@)
}

/// Puts a point into an ascending list, behind those that are not later.
pub open spec fn insert_point(list: Seq<nat>, point: nat) -> Seq<nat>
    decreases list.len(),
{
    if list.len() == 0 || list.last() <= point {
        list.push(point)
    } else {
        insert_point(list.drop_last(), point).push(list.last())
    }
}

/// Points in ascending order.
pub open spec fn sorted_points(list: Seq<nat>) -> Seq<nat>
    decreases list.len(),
{
    if list.len() == 0 {
        Seq::empty()
    } else {
        insert_point(sorted_points(list.drop_last()), list.last())
    }
}

pub open spec fn ascending_points(list: Seq<nat>) -> bool {
    forall|i: int, j: int| #![trigger list[i], list[j]] 0 <= i <= j < list.len() ==> list[i] <= list[j]
}

fn insert_instant(list: &mut Vec<Instant>, instant: Instant)
    ensures
        points(final(list)@) == insert_point(points(old(list)@), instant@),
{
    let mut later: Vec<Instant> = Vec::new();
    let ghost all = points(list@);
    let ghost mut tail: Seq<nat> = Seq::empty();
    assert(insert_point(points(list@), instant@) + tail =~= insert_point(all, instant@));
    while list.len() > 0 && instant.is_before(&list[list.len() - 1])
        invariant
            points(later@) == tail.reverse(),
            insert_point(points(list@), instant@) + tail == insert_point(all, instant@),
        decreases list.len(),
    {
        let ghost before = points(list@);
        if let Some(last) = list.pop() {
            proof {
                assert(points(list@) =~= before.drop_last());
                assert(before.last() == last@);
                let longer = seq![last@] + tail;
                assert(insert_point(points(list@), instant@).push(last@) + tail
                    =~= insert_point(points(list@), instant@) + longer);
                assert(longer.reverse() =~= tail.reverse().push(last@));
                tail = longer;
            }
            let ghost kept = points(later@);
            later.push(last);
            assert(points(later@) =~= kept.push(last@));
        }
    }
    let ghost start = points(list@);
    assert(start.len() == list@.len());
    assert(start.len() > 0 ==> start.last() == list@.last()@);
    list.push(instant);
    assert(points(list@) =~= start.push(instant@));
    assert(insert_point(start, instant@) == start.push(instant@));
    while later.len() > 0
        invariant
            points(later@) == tail.reverse(),
            points(list@) + tail == insert_point(all, instant@),
        decreases later.len(),
    {
        let ghost before = points(later@);
        let ghost listed = points(list@);
        if let Some(next) = later.pop() {
            proof {
                assert(points(later@) =~= before.drop_last());
                assert(before.last() == next@);
                assert(tail[0] == tail.reverse().last());
                let shorter = tail.skip(1);
                assert(shorter.reverse() =~= tail.reverse().drop_last());
                assert(listed.push(next@) + shorter =~= listed + tail);
                tail = shorter;
            }
            list.push(next);
            assert(points(list@) =~= listed.push(next@));
        }
    }
    assert(tail.len() == 0) by {
        assert(tail.reverse().len() == tail.len());
    }
    assert(points(list@) + tail =~= points(list@));
}

/// Completion times that have not been taken into account yet. They are queued
/// rather than reduced to one maximum, which preserves a chain of valid
/// extensions if the accept loop is briefly unscheduled while several clients
/// complete requests.
#[derive(Clone, Debug)]
pub struct IdleActivity {
    completions: Vec<Instant>,
}

impl View for IdleActivity {
    type V = Seq<nat>;

    closed spec fn view(&self) -> Seq<nat> {
        points(self.completions@)
    }
}

impl IdleActivity {
    pub fn new() -> (r: Self)
        ensures
            r@ == Seq::<nat>::empty(),
    {
        let activity = IdleActivity { completions: Vec::new() };
        assert(activity@ =~= Seq::<nat>::empty());
        activity
    }

    pub fn record_completion(&mut self, completed_at: Instant)
        ensures
            final(self)@ == old(self)@.push(completed_at@),
    {
        let ghost before = self@;
        self.completions.push(completed_at);
        assert(self@ =~= before.push(completed_at@));
    }

    /// Hands out the completion times in ascending order and forgets them.
    pub fn drain_completions(&mut self) -> (r: Vec<Instant>)
        ensures
            points(r@) == sorted_points(old(self)@),
            final(self)@ == Seq::<nat>::empty(),
    {
        let ghost all = self@;
        let mut completions: Vec<Instant> = Vec::new();
        core::mem::swap(&mut completions, &mut self.completions);
        assert(points(completions@) == all);
        assert(self@ =~= Seq::<nat>::empty());
        let mut drained: Vec<Instant> = Vec::new();
        let mut index: usize = 0;
        assert(points(drained@) =~= sorted_points(all.take(0)));
        while index < completions.len()
            invariant
                index <= completions.len(),
                points(completions@) == all,
                points(drained@) == sorted_points(all.take(index as int)),
            decreases completions.len() - index,
        {
            assert(all.take(index + 1).drop_last() =~= all.take(index as int));
            assert(all.take(index + 1).last() == completions@[index as int]@);
            insert_instant(&mut drained, completions[index]);
            index += 1;
        }
        assert(all.take(index as int) =~= all);
        drained
    }
}

/// The idle deadline behind completions in the given order. A request that
/// crosses the deadline, or completes exactly on it, cannot revive the worker;
/// earlier completions extend it from their own time.
pub open spec fn extended(deadline: nat, timeout: nat, completions: Seq<nat>) -> nat
    decreases completions.len(),
{
    if completions.len() == 0 {
        deadline
    } else {
        let before = extended(deadline, timeout, completions.drop_last());
        if completions.last() < before {
            runtime::deadline_after(completions.last(), timeout)
        } else {
            before
        }
    }
}

/// What wakes the accept loop. Where several are ready at once, the caller
/// takes the first of this order.
#[derive(Clone, Copy, Debug, PartialEq, Eq, Structural)]
pub enum ServiceEvent {
    /// A client ended after a `close` request was acknowledged.
    CloseAcknowledged,
    /// A client ended in any other way.
    ClientEnded,
    Signal(WorkerSignal),
    /// A request was completed.
    Activity,
    /// The idle deadline has passed.
    Elapsed,
    Accepted,
    AcceptFailed,
}

/// What the accept loop does next.
#[derive(Clone, Copy, Debug, PartialEq, Eq, Structural)]
pub enum ServiceAction {
    /// Wait for the next event.
    Wait,
    /// Serve the accepted client, and wait.
    Serve,
    Stop(WorkerStop),
}

/// Disconnected, malformed, oversized, or panicked clients are isolated: only
/// an acknowledged close, a signal, or a failed accept ends the loop at once.
pub open spec fn service_action(event: ServiceEvent) -> ServiceAction {
    match event {
        ServiceEvent::CloseAcknowledged => ServiceAction::Stop(WorkerStop::CloseRequested),
        ServiceEvent::Signal(signal) => ServiceAction::Stop(shutdown::signal_stop(signal)),
        ServiceEvent::AcceptFailed => ServiceAction::Stop(WorkerStop::AcceptFailure),
        ServiceEvent::Accepted => ServiceAction::Serve,
        _ => ServiceAction::Wait,
    }
}

/// The state of a serving worker.
#[verifier::ext_equal]
pub struct ServiceState {
    pub idle_deadline: nat,
    pub idle_timeout: nat,
}

/// The deadline after completions have been taken into account, and whether the
/// worker has idled for too long by now.
pub open spec fn polled(state: ServiceState, completions: Seq<nat>, now: nat) -> (
    ServiceState,
    ServiceAction,
) {
    let idle_deadline = extended(state.idle_deadline, state.idle_timeout, completions);
    (
        ServiceState { idle_deadline, ..state },
        if now >= idle_deadline {
            ServiceAction::Stop(WorkerStop::IdleTimeout)
        } else {
            ServiceAction::Wait
        },
    )
}

/// A worker that serves clients until one shutdown trigger wins.
#[derive(Clone, Copy, Debug)]
pub struct WorkerIpcService {
    idle_deadline: Instant,
    idle_timeout: Duration,
}

impl View for WorkerIpcService {
    type V = ServiceState;

    closed spec fn view(&self) -> ServiceState {
        ServiceState { idle_deadline: self.idle_deadline@, idle_timeout: self.idle_timeout@ }
    }
}

impl WorkerIpcService {
    /// A worker that starts to serve at a point in time.
    pub fn starting_at(now: Instant, idle_timeout: Duration) -> (r: Self)
        ensures
            r@ == (ServiceState {
                idle_deadline: runtime::deadline_after(now@, idle_timeout@),
                idle_timeout: idle_timeout@,
            }),
    {
        let idle_deadline = Deadline::after_now(now, idle_timeout).expires_at();
        WorkerIpcService { idle_deadline, idle_timeout }
    }

    /// The point at which the worker stops if nothing is completed before.
    pub fn idle_deadline(&self) -> (r: Instant)
        ensures
            r@ == self@.idle_deadline,
    {
        self.idle_deadline
    }

    /// Takes completions into account and looks at the clock. This comes before
    /// every wait.
    pub fn poll(&mut self, activity: &mut IdleActivity, now: Instant) -> (r: ServiceAction)
        ensures
            final(activity)@ == Seq::<nat>::empty(),
            (final(self)@, r) == polled(old(self)@, sorted_points(old(activity)@), now@),
    {
        let ghost start = self@;
        let drained = activity.drain_completions();
        let ghost all = points(drained@);
        let mut index: usize = 0;
        assert(all.take(0) =~= Seq::<nat>::empty());
        while index < drained.len()
            invariant
                index <= drained.len(),
                all == points(drained@),
                self@.idle_timeout == start.idle_timeout,
                self@.idle_deadline == extended(
                    start.idle_deadline,
                    start.idle_timeout,
                    all.take(index as int),
                ),
            decreases drained.len() - index,
        {
            let completed_at = drained[index];
            assert(all.take(index + 1).drop_last() =~= all.take(index as int));
            assert(all.take(index + 1).last() == completed_at@);
            if completed_at.is_before(&self.idle_deadline) {
                self.idle_deadline = Deadline::after_now(
                    completed_at,
                    self.idle_timeout,
                ).expires_at();
            }
            index += 1;
        }
        assert(all.take(index as int) =~= all);
        if now.is_before(&self.idle_deadline) {
            ServiceAction::Wait
        } else {
            ServiceAction::Stop(WorkerStop::IdleTimeout)
        }
    }

    /// Takes the event that ended a wait.
    pub fn handle(&self, event: ServiceEvent) -> (r: ServiceAction)
        ensures
            r == service_action(event),
    {
        match event {
            ServiceEvent::CloseAcknowledged => ServiceAction::Stop(WorkerStop::CloseRequested),
            ServiceEvent::Signal(signal) => ServiceAction::Stop(signal.stop()),
            ServiceEvent::AcceptFailed => ServiceAction::Stop(WorkerStop::AcceptFailure),
            ServiceEvent::Accepted => ServiceAction::Serve,
            _ => ServiceAction::Wait,
        }
    }
}

proof fn lemma_insert_point(list: Seq<nat>, point: nat)
    requires
        ascending_points(list),
    ensures
        ascending_points(insert_point(list, point)),
        insert_point(list, point).to_multiset() == list.to_multiset().insert(point),
        insert_point(list, point).len() == list.len() + 1,
        list.len() > 0 ==> insert_point(list, point).last() == if list.last() <= point {
            point
        } else {
            list.last()
        },
        list.len() == 0 ==> insert_point(list, point).last() == point,
    decreases list.len(),
{
    broadcast use vstd::seq_lib::group_to_multiset_ensures;

    if list.len() == 0 || list.last() <= point {
        let longer = list.push(point);
        assert forall|i: int, j: int|
            #![trigger longer[i], longer[j]]
            0 <= i <= j < longer.len() implies longer[i] <= longer[j] by {
            if j == list.len() && i < list.len() {
                assert(list[i] <= list[list.len() - 1]);
            }
        }
    } else {
        let shorter = list.drop_last();
        assert(ascending_points(shorter)) by {
            assert forall|i: int, j: int|
                #![trigger shorter[i], shorter[j]]
                0 <= i <= j < shorter.len() implies shorter[i] <= shorter[j] by {
                assert(list[i] <= list[j]);
            }
        }
        lemma_insert_point(shorter, point);
        let inserted = insert_point(shorter, point);
        let longer = inserted.push(list.last());
        if shorter.len() > 0 {
            assert(list[shorter.len() - 1] <= list[list.len() - 1]);
            assert(shorter.last() == list[shorter.len() - 1]);
        }
        assert(inserted.last() <= list.last());
        assert forall|i: int, j: int|
            #![trigger longer[i], longer[j]]
            0 <= i <= j < longer.len() implies longer[i] <= longer[j] by {
            if j == inserted.len() && i < inserted.len() {
                assert(inserted[i] <= inserted[inserted.len() - 1]);
            }
        }
        assert(list =~= shorter.push(list.last()));
        assert(longer.to_multiset() =~= list.to_multiset().insert(point));
    }
}

/// Draining puts the completion times into ascending order and loses none.
pub proof fn drained_completions_are_sorted(list: Seq<nat>)
    ensures
        ascending_points(sorted_points(list)),
        sorted_points(list).to_multiset() == list.to_multiset(),
    decreases list.len(),
{
    broadcast use vstd::seq_lib::group_to_multiset_ensures;

    if list.len() > 0 {
        drained_completions_are_sorted(list.drop_last());
        lemma_insert_point(sorted_points(list.drop_last()), list.last());
        assert(list =~= list.drop_last().push(list.last()));
    } else {
        assert(list =~= Seq::<nat>::empty());
    }
}

/// A request that completes on the idle deadline or behind it does not extend
/// it.
pub proof fn late_completions_do_not_revive(
    deadline: nat,
    timeout: nat,
    completions: Seq<nat>,
    late: nat,
)
    requires
        late >= extended(deadline, timeout, completions),
    ensures
        extended(deadline, timeout, completions.push(late)) == extended(
            deadline,
            timeout,
            completions,
        ),
{
    assert(completions.push(late).drop_last() =~= completions);
}

/// A request that completes before the idle deadline moves it to one timeout
/// behind the completion.
pub proof fn completions_extend_from_their_own_time(
    deadline: nat,
    timeout: nat,
    completions: Seq<nat>,
    completed: nat,
)
    requires
        completed < extended(deadline, timeout, completions),
    ensures
        extended(deadline, timeout, completions.push(completed)) == runtime::deadline_after(
            completed,
            timeout,
        ),
{
    assert(completions.push(completed).drop_last() =~= completions);
}

/// A worker stops for idling exactly when the clock has reached the deadline
/// that its completions leave.
pub proof fn idling_ends_on_the_deadline(state: ServiceState, completions: Seq<nat>, now: nat)
    ensures
        polled(state, completions, now).1 == ServiceAction::Stop(WorkerStop::IdleTimeout) <==> now
            >= extended(state.idle_deadline, state.idle_timeout, completions),
        polled(state, completions, now).1 == ServiceAction::Stop(WorkerStop::IdleTimeout)
            || polled(state, completions, now).1 == ServiceAction::Wait,
{
}

/// A worker starts with its whole timeout ahead, and gives it to every completed
/// request that came in time.
pub proof fn workers_idle_for_their_timeout(
    now: Instant,
    idle_timeout: Duration,
    service: WorkerIpcService,
    completed: nat,
    later: nat,
)
    requires
        call_ensures(WorkerIpcService::starting_at, (now, idle_timeout), service),
        now@ + idle_timeout@ <= crate::time::MAX_NANOS,
        completed + idle_timeout@ <= crate::time::MAX_NANOS,
    ensures
        service@.idle_deadline == now@ + idle_timeout@,
        service@.idle_timeout == idle_timeout@,
        polled(service@, Seq::empty(), later).0 == service@,
        polled(service@, Seq::empty(), later).1 is Stop <==> later >= now@ + idle_timeout@,
        polled(service@, seq![completed], later).0.idle_deadline == if completed < now@
            + idle_timeout@ {
            completed + idle_timeout@
        } else {
            now@ + idle_timeout@
        },
        polled(service@, seq![completed], later).0.idle_timeout == idle_timeout@,
{
    reveal_with_fuel(extended, 2);
    assert(seq![completed].drop_last() =~= Seq::<nat>::empty());
}

/// Only an acknowledged close, a signal or a failed accept stops the service, and
/// each for its own reason; only an accepted client is served.
pub proof fn services_stop_for_a_reason(
    service: &WorkerIpcService,
    event: ServiceEvent,
    r: ServiceAction,
)
    requires
        call_ensures(WorkerIpcService::handle, (service, event), r),
    ensures
        r is Serve <==> event is Accepted,
        r == ServiceAction::Stop(WorkerStop::CloseRequested) <==> event is CloseAcknowledged,
        r == ServiceAction::Stop(WorkerStop::AcceptFailure) <==> event is AcceptFailed,
        r == ServiceAction::Stop(WorkerStop::SignalInterrupt) <==> event == ServiceEvent::Signal(
            WorkerSignal::Interrupt,
        ),
        r == ServiceAction::Stop(WorkerStop::SignalTerminate) <==> event == ServiceEvent::Signal(
            WorkerSignal::Terminate,
        ),
        r is Wait <==> event is ClientEnded || event is Activity || event is Elapsed,
{
}

} // verus!
