//! The one ordered shutdown of a worker.

use vstd::prelude::*;

use crate::text;
use crate::text::join;

verus! {

/// The single trigger selected for a completed worker shutdown.
#[derive(Clone, Copy, Debug, PartialEq, Eq, Structural)]
pub enum WorkerStop {
    /// A valid `close` request was acknowledged.
    CloseRequested,
    /// No valid operation completed before the active idle deadline.
    IdleTimeout,
    /// The worker received SIGINT.
    SignalInterrupt,
    /// The worker received SIGTERM.
    SignalTerminate,
    /// Accept failed; shutdown still drained and cleaned owned resources.
    AcceptFailure,
}

/// A signal that ends a worker.
#[derive(Clone, Copy, Debug, PartialEq, Eq, Structural)]
pub enum WorkerSignal {
    Interrupt,
    Terminate,
}

pub open spec fn signal_stop(signal: WorkerSignal) -> WorkerStop {
    match signal {
        WorkerSignal::Interrupt => WorkerStop::SignalInterrupt,
        WorkerSignal::Terminate => WorkerStop::SignalTerminate,
    }
}

impl WorkerSignal {
    pub fn stop(self) -> (r: WorkerStop)
        ensures
            r == signal_stop(self),
    {
        match self {
            WorkerSignal::Interrupt => WorkerStop::SignalInterrupt,
            WorkerSignal::Terminate => WorkerStop::SignalTerminate,
        }
    }
}

/// Observable shutdown transitions. Cleanup continues through every phase even
/// when one fails.
#[derive(Clone, Copy, Debug, PartialEq, Eq, Structural)]
pub enum WorkerShutdownPhase {
    Draining(WorkerStop),
    AcceptStopped,
    ClientsCancelled,
    ClientsJoined,
    BackendClosed,
    SocketCleaned,
    PidCleaned,
    LockReleased,
    Closed(WorkerStop),
}

/// Stable names for independently aggregated shutdown failures.
#[derive(Clone, Copy, Debug, PartialEq, Eq, Structural)]
pub enum WorkerShutdownStep {
    ClientJoin,
    BackendClose,
    SocketCleanup,
    PidCleanup,
    LockRelease,
}

pub open spec fn step_text(step: WorkerShutdownStep) -> Seq<char> {
    match step {
        WorkerShutdownStep::ClientJoin => "client task join"@,
        WorkerShutdownStep::BackendClose => "MCP backend close"@,
        WorkerShutdownStep::SocketCleanup => "socket cleanup"@,
        WorkerShutdownStep::PidCleanup => "PID cleanup"@,
        WorkerShutdownStep::LockRelease => "lock release"@,
    }
}

impl WorkerShutdownStep {
    pub fn description(self) -> (r: &'static str)
        ensures
            r@ == step_text(self),
    {
        match self {
            WorkerShutdownStep::ClientJoin => "client task join",
            WorkerShutdownStep::BackendClose => "MCP backend close",
            WorkerShutdownStep::SocketCleanup => "socket cleanup",
            WorkerShutdownStep::PidCleanup => "PID cleanup",
            WorkerShutdownStep::LockRelease => "lock release",
        }
    }
}

/// A safely rendered cleanup-hook failure. The detailed cause stays with the
/// caller and is never part of user-facing text.
#[derive(Clone, Copy, Debug, PartialEq, Eq, Structural)]
pub struct WorkerCleanupError;

impl WorkerCleanupError {
    pub fn new() -> (r: Self)
        ensures
            r == WorkerCleanupError,
    {
        WorkerCleanupError
    }

    pub fn display_text(&self) -> (r: &'static str)
        ensures
            r@ == "worker artifact cleanup failed"@,
    {
        "worker artifact cleanup failed"
    }
}

/// Artifact side effects of a shutdown. Phase observation may do nothing.
///
/// What a hook does is said by a relation between its value before and after the
/// call, and whether the call succeeded. Hooks that define no relation say nothing
/// about what they do.
pub trait WorkerShutdownHooks: Sized {
    open spec fn socket_done(before: Self, after: Self, ok: bool) -> bool {
        true
    }

    open spec fn pid_done(before: Self, after: Self, ok: bool) -> bool {
        true
    }

    open spec fn lock_done(before: Self, after: Self, ok: bool) -> bool {
        true
    }

    open spec fn phase_seen(before: Self, after: Self, phase: WorkerShutdownPhase) -> bool {
        true
    }

    fn remove_socket(&mut self) -> (r: Result<(), WorkerCleanupError>)
        ensures
            Self::socket_done(*old(self), *final(self), r is Ok),
    ;

    fn remove_pid(&mut self) -> (r: Result<(), WorkerCleanupError>)
        ensures
            Self::pid_done(*old(self), *final(self), r is Ok),
    ;

    fn release_lock(&mut self) -> (r: Result<(), WorkerCleanupError>)
        ensures
            Self::lock_done(*old(self), *final(self), r is Ok),
    ;

    fn observe_phase(&mut self, phase: WorkerShutdownPhase)
        ensures
            Self::phase_seen(*old(self), *final(self), phase),
    ;
}

/// Hooks for callers that do not publish daemon artifacts.
#[derive(Clone, Copy, Debug, PartialEq, Eq, Structural)]
pub struct NoopWorkerShutdownHooks;

impl Default for NoopWorkerShutdownHooks {
    fn default() -> (r: Self)
        ensures
            r == NoopWorkerShutdownHooks,
    {
        NoopWorkerShutdownHooks
    }
}

impl WorkerShutdownHooks for NoopWorkerShutdownHooks {
    open spec fn socket_done(before: Self, after: Self, ok: bool) -> bool {
        ok
    }

    open spec fn pid_done(before: Self, after: Self, ok: bool) -> bool {
        ok
    }

    open spec fn lock_done(before: Self, after: Self, ok: bool) -> bool {
        ok
    }

    open spec fn phase_seen(before: Self, after: Self, phase: WorkerShutdownPhase) -> bool {
        before == after
    }

    fn remove_socket(&mut self) -> (r: Result<(), WorkerCleanupError>)
        ensures
            r is Ok,
    {
        Ok(())
    }

    fn remove_pid(&mut self) -> (r: Result<(), WorkerCleanupError>)
        ensures
            r is Ok,
    {
        Ok(())
    }

    fn release_lock(&mut self) -> (r: Result<(), WorkerCleanupError>)
        ensures
            r is Ok,
    {
        Ok(())
    }

    fn observe_phase(&mut self, phase: WorkerShutdownPhase) {
    }
}

/// One call of a hook, and whether it succeeded.
pub enum HookCall {
    Socket(bool),
    Pid(bool),
    Lock(bool),
    Phase(WorkerShutdownPhase),
}

/// One call leads from one value of the hooks to another.
pub open spec fn called<H: WorkerShutdownHooks>(before: H, after: H, call: HookCall) -> bool {
    match call {
        HookCall::Socket(ok) => H::socket_done(before, after, ok),
        HookCall::Pid(ok) => H::pid_done(before, after, ok),
        HookCall::Lock(ok) => H::lock_done(before, after, ok),
        HookCall::Phase(phase) => H::phase_seen(before, after, phase),
    }
}

/// Exactly these calls, in this order, lead from one value of the hooks to
/// another.
pub open spec fn made<H: WorkerShutdownHooks>(before: H, after: H, calls: Seq<HookCall>) -> bool
    decreases calls.len(),
{
    if calls.len() == 0 {
        before == after
    } else {
        exists|middle: H|
            made(before, middle, calls.drop_last()) && #[trigger] called(
                middle,
                after,
                calls.last(),
            )
    }
}

/// One more call after a series of calls.
proof fn lemma_one_more<H: WorkerShutdownHooks>(
    before: H,
    middle: H,
    after: H,
    calls: Seq<HookCall>,
    call: HookCall,
)
    requires
        made(before, middle, calls),
        called(middle, after, call),
    ensures
        made(before, after, calls.push(call)),
{
    assert(calls.push(call).drop_last() =~= calls);
    assert(called(middle, after, calls.push(call).last()));
}

/// Two series of calls, one after the other, are one series.
pub proof fn calls_follow_each_other<H: WorkerShutdownHooks>(
    before: H,
    middle: H,
    after: H,
    first: Seq<HookCall>,
    second: Seq<HookCall>,
)
    requires
        made(before, middle, first),
        made(middle, after, second),
    ensures
        made(before, after, first + second),
    decreases second.len(),
{
    if second.len() == 0 {
        assert(first + second =~= first);
    } else {
        let last = choose|last: H|
            made(middle, last, second.drop_last()) && #[trigger] called(
                last,
                after,
                second.last(),
            );
        calls_follow_each_other(before, middle, last, first, second.drop_last());
        lemma_one_more(before, last, after, first + second.drop_last(), second.last());
        assert((first + second.drop_last()).push(second.last()) =~= first + second);
    }
}

/// The observation of phases, one after the other.
pub open spec fn observations(phases: Seq<WorkerShutdownPhase>) -> Seq<HookCall> {
    phases.map_values(|phase: WorkerShutdownPhase| HookCall::Phase(phase))
}

/// The calls of an artifact cleanup: socket, PID file, and lock, each once, and
/// the phase that each of them reaches.
pub open spec fn cleanup_calls(stop: WorkerStop, socket: bool, pid: bool, lock: bool) -> Seq<
    HookCall,
> {
    seq![
        HookCall::Socket(socket),
        HookCall::Phase(WorkerShutdownPhase::SocketCleaned),
        HookCall::Pid(pid),
        HookCall::Phase(WorkerShutdownPhase::PidCleaned),
        HookCall::Lock(lock),
        HookCall::Phase(WorkerShutdownPhase::LockReleased),
        HookCall::Phase(WorkerShutdownPhase::Closed(stop)),
    ]
}

/// One failure recorded during the ordered shutdown sequence.
#[derive(Clone, Copy, Debug, PartialEq, Eq, Structural)]
pub enum WorkerShutdownFailure {
    ClientJoin,
    BackendOwnership,
    Backend,
    Cleanup { step: WorkerShutdownStep, error: WorkerCleanupError },
}

pub open spec fn failure_step(failure: WorkerShutdownFailure) -> WorkerShutdownStep {
    match failure {
        WorkerShutdownFailure::ClientJoin => WorkerShutdownStep::ClientJoin,
        WorkerShutdownFailure::BackendOwnership => WorkerShutdownStep::BackendClose,
        WorkerShutdownFailure::Backend => WorkerShutdownStep::BackendClose,
        WorkerShutdownFailure::Cleanup { step, error } => step,
    }
}

impl WorkerShutdownFailure {
    pub fn step(&self) -> (r: WorkerShutdownStep)
        ensures
            r == failure_step(*self),
    {
        match self {
            WorkerShutdownFailure::ClientJoin => WorkerShutdownStep::ClientJoin,
            WorkerShutdownFailure::BackendOwnership | WorkerShutdownFailure::Backend =>
                WorkerShutdownStep::BackendClose,
            WorkerShutdownFailure::Cleanup { step, error: _ } => *step,
        }
    }
}

/// Aggregated shutdown error. Its text is deliberately stable and omits
/// arbitrary backend/hook messages.
#[derive(Clone, Debug, PartialEq, Eq)]
pub struct WorkerShutdownError {
    stop: WorkerStop,
    failures: Vec<WorkerShutdownFailure>,
}

/// The content of an aggregated shutdown error.
#[verifier::ext_equal]
pub struct ShutdownFailures {
    pub stop: WorkerStop,
    pub failures: Seq<WorkerShutdownFailure>,
}

impl View for WorkerShutdownError {
    type V = ShutdownFailures;

    closed spec fn view(&self) -> ShutdownFailures {
        ShutdownFailures { stop: self.stop, failures: self.failures@ }
    }
}

/// The names of the failed steps, in order.
pub open spec fn failed_steps(failures: Seq<WorkerShutdownFailure>) -> Seq<Seq<char>> {
    failures.map_values(|failure: WorkerShutdownFailure| step_text(failure_step(failure)))
}

impl WorkerShutdownError {
    pub fn stop(&self) -> (r: WorkerStop)
        ensures
            r == self@.stop,
    {
        self.stop
    }

    pub fn failures(&self) -> (r: &[WorkerShutdownFailure])
        ensures
            r@ == self@.failures,
    {
        self.failures.as_slice()
    }

    pub fn display_text(&self) -> (r: String)
        ensures
            r@ == "daemon shutdown completed with failures in "@ + text::joined(
                failed_steps(self@.failures),
                ", "@,
            ),
    {
        let mut names: Vec<String> = Vec::new();
        let mut index: usize = 0;
        let ghost expected = failed_steps(self.failures@);
        assert(text::texts(names@) =~= expected.take(0));
        while index < self.failures.len()
            invariant
                index <= self.failures.len(),
                expected == failed_steps(self.failures@),
                text::texts(names@) == expected.take(index as int),
            decreases self.failures.len() - index,
        {
            let name = self.failures[index].step().description().to_owned();
            let ghost before = text::texts(names@);
            let ghost content = name@;
            names.push(name);
            assert(text::texts(names@) =~= before.push(content));
            assert(expected.take(index + 1) =~= expected.take(index as int).push(
                expected[index as int],
            ));
            index += 1;
        }
        assert(expected.take(index as int) =~= expected);
        let mut shown = "daemon shutdown completed with failures in ".to_owned();
        shown.append(join(names.as_slice(), ", ").as_str());
        shown
    }
}

/// Accept-loop and aggregated shutdown failures. Per-client framing and I/O
/// failures remain isolated and never promote themselves to worker failures.
/// The cause of a failed accept stays with the caller.
#[derive(Clone, Debug, PartialEq, Eq)]
pub enum WorkerError {
    Accept,
    Shutdown(WorkerShutdownError),
    AcceptAndShutdown { shutdown: WorkerShutdownError },
}

impl WorkerError {
    pub fn display_text(&self) -> (r: &'static str)
        ensures
            r@ == (match *self {
                WorkerError::Accept => "daemon IPC accept failed"@,
                WorkerError::Shutdown(_) => "daemon shutdown completed with cleanup failures"@,
                WorkerError::AcceptAndShutdown { shutdown } =>
                    "daemon IPC accept and subsequent shutdown cleanup failed"@,
            }),
    {
        match self {
            WorkerError::Accept => "daemon IPC accept failed",
            WorkerError::Shutdown(_) => "daemon shutdown completed with cleanup failures",
            WorkerError::AcceptAndShutdown { shutdown: _ } =>
                "daemon IPC accept and subsequent shutdown cleanup failed",
        }
    }
}

/// What a shutdown does next.
#[derive(Clone, Copy, Debug, PartialEq, Eq, Structural)]
pub enum ShutdownAction {
    /// Drop the listener.
    StopAccept,
    CancelClients,
    /// Wait for one more client to end.
    JoinClient,
    CloseBackend,
    RemoveSocket,
    RemovePid,
    ReleaseLock,
    Finish,
}

/// What came of the last action.
#[derive(Clone, Copy, Debug, PartialEq, Eq, Structural)]
pub enum ShutdownEvent {
    /// The action is done.
    Done,
    /// The action is done and failed.
    Failed,
    /// All clients have ended.
    NoClient,
    /// The backend is still in use elsewhere and could not be closed.
    StillShared,
}

/// The state of a shutdown.
#[verifier::ext_equal]
pub struct ShutdownState {
    pub stop: WorkerStop,
    pub action: ShutdownAction,
    pub phases: Seq<WorkerShutdownPhase>,
    pub failures: Seq<WorkerShutdownFailure>,
}

pub open spec fn started(stop: WorkerStop) -> ShutdownState {
    ShutdownState {
        stop,
        action: ShutdownAction::StopAccept,
        phases: seq![WorkerShutdownPhase::Draining(stop)],
        failures: Seq::empty(),
    }
}

/// The failure that an event records for an action.
pub open spec fn recorded(action: ShutdownAction, event: ShutdownEvent) -> Option<
    WorkerShutdownFailure,
> {
    match (action, event) {
        (ShutdownAction::JoinClient, ShutdownEvent::Failed) => Some(
            WorkerShutdownFailure::ClientJoin,
        ),
        (ShutdownAction::CloseBackend, ShutdownEvent::Failed) => Some(
            WorkerShutdownFailure::Backend,
        ),
        (ShutdownAction::CloseBackend, ShutdownEvent::StillShared) => Some(
            WorkerShutdownFailure::BackendOwnership,
        ),
        (ShutdownAction::RemoveSocket, ShutdownEvent::Failed) => Some(
            WorkerShutdownFailure::Cleanup {
                step: WorkerShutdownStep::SocketCleanup,
                error: WorkerCleanupError,
            },
        ),
        (ShutdownAction::RemovePid, ShutdownEvent::Failed) => Some(
            WorkerShutdownFailure::Cleanup {
                step: WorkerShutdownStep::PidCleanup,
                error: WorkerCleanupError,
            },
        ),
        (ShutdownAction::ReleaseLock, ShutdownEvent::Failed) => Some(
            WorkerShutdownFailure::Cleanup {
                step: WorkerShutdownStep::LockRelease,
                error: WorkerCleanupError,
            },
        ),
        _ => None,
    }
}

/// The action behind an action, and the phases that are reached between them.
pub open spec fn following(stop: WorkerStop, action: ShutdownAction, event: ShutdownEvent) -> (
    ShutdownAction,
    Seq<WorkerShutdownPhase>,
) {
    match action {
        ShutdownAction::StopAccept => (
            ShutdownAction::CancelClients,
            seq![WorkerShutdownPhase::AcceptStopped],
        ),
        ShutdownAction::CancelClients => (
            ShutdownAction::JoinClient,
            seq![WorkerShutdownPhase::ClientsCancelled],
        ),
        ShutdownAction::JoinClient => if event == ShutdownEvent::NoClient {
            (ShutdownAction::CloseBackend, seq![WorkerShutdownPhase::ClientsJoined])
        } else {
            (ShutdownAction::JoinClient, Seq::empty())
        },
        ShutdownAction::CloseBackend => (
            ShutdownAction::RemoveSocket,
            seq![WorkerShutdownPhase::BackendClosed],
        ),
        ShutdownAction::RemoveSocket => (
            ShutdownAction::RemovePid,
            seq![WorkerShutdownPhase::SocketCleaned],
        ),
        ShutdownAction::RemovePid => (
            ShutdownAction::ReleaseLock,
            seq![WorkerShutdownPhase::PidCleaned],
        ),
        ShutdownAction::ReleaseLock => (
            ShutdownAction::Finish,
            seq![WorkerShutdownPhase::LockReleased, WorkerShutdownPhase::Closed(stop)],
        ),
        ShutdownAction::Finish => (ShutdownAction::Finish, Seq::empty()),
    }
}

pub open spec fn shutdown_step(state: ShutdownState, event: ShutdownEvent) -> ShutdownState {
    let (action, phases) = following(state.stop, state.action, event);
    ShutdownState {
        stop: state.stop,
        action,
        phases: state.phases + phases,
        failures: match recorded(state.action, event) {
            Some(failure) => state.failures.push(failure),
            None => state.failures,
        },
    }
}

/// One shutdown on its way. Every step is taken once, and no failure keeps a
/// later step from being taken.
#[derive(Debug)]
pub struct ShutdownRun {
    stop: WorkerStop,
    action: ShutdownAction,
    phases: Vec<WorkerShutdownPhase>,
    failures: Vec<WorkerShutdownFailure>,
}

impl View for ShutdownRun {
    type V = ShutdownState;

    closed spec fn view(&self) -> ShutdownState {
        ShutdownState {
            stop: self.stop,
            action: self.action,
            phases: self.phases@,
            failures: self.failures@,
        }
    }
}

impl ShutdownRun {
    pub fn begin(stop: WorkerStop) -> (r: Self)
        ensures
            r@ == started(stop),
    {
        let mut phases: Vec<WorkerShutdownPhase> = Vec::new();
        phases.push(WorkerShutdownPhase::Draining(stop));
        let run = ShutdownRun {
            stop,
            action: ShutdownAction::StopAccept,
            phases,
            failures: Vec::new(),
        };
        assert(run@ =~= started(stop));
        run
    }

    /// What has to be done now.
    pub fn action(&self) -> (r: ShutdownAction)
        ensures
            r == self@.action,
    {
        self.action
    }

    /// The phases that were reached so far.
    pub fn phases(&self) -> (r: &[WorkerShutdownPhase])
        ensures
            r@ == self@.phases,
    {
        self.phases.as_slice()
    }

    fn record(&mut self, event: ShutdownEvent)
        ensures
            final(self)@ == (ShutdownState {
                failures: match recorded(old(self)@.action, event) {
                    Some(failure) => old(self)@.failures.push(failure),
                    None => old(self)@.failures,
                },
                ..old(self)@
            }),
    {
        let failed = event == ShutdownEvent::Failed;
        match self.action {
            ShutdownAction::JoinClient => {
                if failed {
                    self.failures.push(WorkerShutdownFailure::ClientJoin);
                }
            },
            ShutdownAction::CloseBackend => {
                if failed {
                    self.failures.push(WorkerShutdownFailure::Backend);
                } else if event == ShutdownEvent::StillShared {
                    self.failures.push(WorkerShutdownFailure::BackendOwnership);
                }
            },
            ShutdownAction::RemoveSocket => {
                if failed {
                    self.failures.push(
                        WorkerShutdownFailure::Cleanup {
                            step: WorkerShutdownStep::SocketCleanup,
                            error: WorkerCleanupError,
                        },
                    );
                }
            },
            ShutdownAction::RemovePid => {
                if failed {
                    self.failures.push(
                        WorkerShutdownFailure::Cleanup {
                            step: WorkerShutdownStep::PidCleanup,
                            error: WorkerCleanupError,
                        },
                    );
                }
            },
            ShutdownAction::ReleaseLock => {
                if failed {
                    self.failures.push(
                        WorkerShutdownFailure::Cleanup {
                            step: WorkerShutdownStep::LockRelease,
                            error: WorkerCleanupError,
                        },
                    );
                }
            },
            _ => {},
        }
    }

    fn enter(&mut self, action: ShutdownAction, phase: WorkerShutdownPhase)
        ensures
            final(self)@ == (ShutdownState {
                action,
                phases: old(self)@.phases.push(phase),
                ..old(self)@
            }),
    {
        self.action = action;
        self.phases.push(phase);
    }

    /// Takes what came of the current action and goes on to the next.
    pub fn advance(&mut self, event: ShutdownEvent)
        ensures
            final(self)@ == shutdown_step(old(self)@, event),
    {
        let ghost before = self@;
        self.record(event);
        match self.action {
            ShutdownAction::StopAccept => self.enter(
                ShutdownAction::CancelClients,
                WorkerShutdownPhase::AcceptStopped,
            ),
            ShutdownAction::CancelClients => self.enter(
                ShutdownAction::JoinClient,
                WorkerShutdownPhase::ClientsCancelled,
            ),
            ShutdownAction::JoinClient => {
                if event == ShutdownEvent::NoClient {
                    self.enter(ShutdownAction::CloseBackend, WorkerShutdownPhase::ClientsJoined);
                }
            },
            ShutdownAction::CloseBackend => self.enter(
                ShutdownAction::RemoveSocket,
                WorkerShutdownPhase::BackendClosed,
            ),
            ShutdownAction::RemoveSocket => self.enter(
                ShutdownAction::RemovePid,
                WorkerShutdownPhase::SocketCleaned,
            ),
            ShutdownAction::RemovePid => self.enter(
                ShutdownAction::ReleaseLock,
                WorkerShutdownPhase::PidCleaned,
            ),
            ShutdownAction::ReleaseLock => {
                self.enter(ShutdownAction::Finish, WorkerShutdownPhase::LockReleased);
                self.enter(ShutdownAction::Finish, WorkerShutdownPhase::Closed(self.stop));
            },
            ShutdownAction::Finish => {},
        }
        assert(self@ =~= shutdown_step(before, event));
    }

    /// The outcome of a shutdown that has finished.
    pub fn finish(self) -> (r: Result<(), WorkerShutdownError>)
        ensures
            if self@.failures.len() == 0 {
                r is Ok
            } else {
                r matches Err(failure) && failure@ == (ShutdownFailures {
                    stop: self@.stop,
                    failures: self@.failures,
                })
            },
    {
        if self.failures.len() == 0 {
            Ok(())
        } else {
            Err(WorkerShutdownError { stop: self.stop, failures: self.failures })
        }
    }

    /// Shows the hooks every phase from the given one on, and gives the number of
    /// phases that they have seen then.
    pub fn announce<H: WorkerShutdownHooks>(&self, seen: usize, hooks: &mut H) -> (r: usize)
        requires
            seen <= self@.phases.len(),
        ensures
            r == self@.phases.len(),
            made(*old(hooks), *final(hooks), observations(self@.phases.skip(seen as int))),
    {
        let ghost rest = self@.phases.skip(seen as int);
        let mut index: usize = seen;
        proof {
            assert(observations(rest.take(0)) =~= Seq::empty());
            assert(made(*hooks, *hooks, Seq::empty()));
        }
        while index < self.phases.len()
            invariant
                seen <= index <= self@.phases.len(),
                rest == self@.phases.skip(seen as int),
                made(*old(hooks), *hooks, observations(rest.take(index - seen))),
            decreases self@.phases.len() - index,
        {
            let phase = self.phases[index];
            let ghost middle = *hooks;
            hooks.observe_phase(phase);
            proof {
                let call = HookCall::Phase(phase);
                lemma_one_more(
                    *old(hooks),
                    middle,
                    *hooks,
                    observations(rest.take(index - seen)),
                    call,
                );
                assert(observations(rest.take(index + 1 - seen)) =~= observations(
                    rest.take(index - seen),
                ).push(call));
            }
            index += 1;
        }
        assert(rest.take(index - seen) =~= rest);
        index
    }

    /// Runs the artifact cleanup of a shutdown whose backend has been closed:
    /// socket, PID file, and lock, each once and in this order, whatever the
    /// others came to. Every phase that is reached is shown to the hooks.
    pub fn clean_up<H: WorkerShutdownHooks>(&mut self, hooks: &mut H)
        requires
            old(self)@.action == ShutdownAction::RemoveSocket,
        ensures
            exists|socket: bool, pid: bool, lock: bool|
                final(self)@ == #[trigger] cleaned(
                    old(self)@,
                    outcome(socket),
                    outcome(pid),
                    outcome(lock),
                ) && made(
                    *old(hooks),
                    *final(hooks),
                    cleanup_calls(old(self)@.stop, socket, pid, lock),
                ),
    {
        let ghost before = self@;
        let ghost h0 = *hooks;
        let socket_result = hooks.remove_socket();
        let ghost socket = socket_result is Ok;
        let ghost h1 = *hooks;
        self.advance(outcome_event(socket_result));
        hooks.observe_phase(WorkerShutdownPhase::SocketCleaned);
        let ghost h2 = *hooks;
        let pid_result = hooks.remove_pid();
        let ghost pid = pid_result is Ok;
        let ghost h3 = *hooks;
        self.advance(outcome_event(pid_result));
        hooks.observe_phase(WorkerShutdownPhase::PidCleaned);
        let ghost h4 = *hooks;
        let lock_result = hooks.release_lock();
        let ghost lock = lock_result is Ok;
        let ghost h5 = *hooks;
        self.advance(outcome_event(lock_result));
        hooks.observe_phase(WorkerShutdownPhase::LockReleased);
        let ghost h6 = *hooks;
        hooks.observe_phase(WorkerShutdownPhase::Closed(self.stop));
        proof {
            let h7 = *hooks;
            let calls = cleanup_calls(before.stop, socket, pid, lock);
            assert(made(h0, h0, calls.take(0)));
            assert(calls.take(1) =~= calls.take(0).push(calls[0]));
            lemma_one_more(h0, h0, h1, calls.take(0), calls[0]);
            assert(calls.take(2) =~= calls.take(1).push(calls[1]));
            lemma_one_more(h0, h1, h2, calls.take(1), calls[1]);
            assert(calls.take(3) =~= calls.take(2).push(calls[2]));
            lemma_one_more(h0, h2, h3, calls.take(2), calls[2]);
            assert(calls.take(4) =~= calls.take(3).push(calls[3]));
            lemma_one_more(h0, h3, h4, calls.take(3), calls[3]);
            assert(calls.take(5) =~= calls.take(4).push(calls[4]));
            lemma_one_more(h0, h4, h5, calls.take(4), calls[4]);
            assert(calls.take(6) =~= calls.take(5).push(calls[5]));
            lemma_one_more(h0, h5, h6, calls.take(5), calls[5]);
            assert(calls =~= calls.take(6).push(calls[6]));
            lemma_one_more(h0, h6, h7, calls.take(6), calls[6]);
            assert(self@ == cleaned(before, outcome(socket), outcome(pid), outcome(lock)));
        }
    }
}

/// What the success of a cleanup step is for the shutdown.
pub open spec fn outcome(ok: bool) -> ShutdownEvent {
    if ok {
        ShutdownEvent::Done
    } else {
        ShutdownEvent::Failed
    }
}

/// A shutdown behind its three cleanup steps.
pub open spec fn cleaned(
    state: ShutdownState,
    socket: ShutdownEvent,
    pid: ShutdownEvent,
    lock: ShutdownEvent,
) -> ShutdownState {
    shutdown_step(shutdown_step(shutdown_step(state, socket), pid), lock)
}

fn outcome_event(result: Result<(), WorkerCleanupError>) -> (r: ShutdownEvent)
    ensures
        r == outcome(result is Ok),
{
    match result {
        Ok(()) => ShutdownEvent::Done,
        Err(_) => ShutdownEvent::Failed,
    }
}

/// What a worker reports, from the reason why it stopped and the outcome of its
/// shutdown.
pub fn conclude(
    stop: WorkerStop,
    accept_failed: bool,
    shutdown: Result<(), WorkerShutdownError>,
) -> (r: Result<WorkerStop, WorkerError>)
    ensures
        match (accept_failed, shutdown) {
            (false, Ok(_)) => r matches Ok(reason) && reason == stop,
            (false, Err(failures)) => r == Err::<WorkerStop, WorkerError>(
                WorkerError::Shutdown(failures),
            ),
            (true, Ok(_)) => r == Err::<WorkerStop, WorkerError>(WorkerError::Accept),
            (true, Err(failures)) => r == Err::<WorkerStop, WorkerError>(
                WorkerError::AcceptAndShutdown { shutdown: failures },
            ),
        },
{
    match shutdown {
        Ok(()) => {
            if accept_failed {
                Err(WorkerError::Accept)
            } else {
                Ok(stop)
            }
        },
        Err(failures) => {
            if accept_failed {
                Err(WorkerError::AcceptAndShutdown { shutdown: failures })
            } else {
                Err(WorkerError::Shutdown(failures))
            }
        },
    }
}

/// The state of a shutdown after a history of events.
pub open spec fn after_events(stop: WorkerStop, events: Seq<ShutdownEvent>) -> ShutdownState
    decreases events.len(),
{
    if events.len() == 0 {
        started(stop)
    } else {
        shutdown_step(after_events(stop, events.drop_last()), events.last())
    }
}

/// The phases of a shutdown, in the order in which they are reached.
pub open spec fn all_phases(stop: WorkerStop) -> Seq<WorkerShutdownPhase> {
    seq![
        WorkerShutdownPhase::Draining(stop),
        WorkerShutdownPhase::AcceptStopped,
        WorkerShutdownPhase::ClientsCancelled,
        WorkerShutdownPhase::ClientsJoined,
        WorkerShutdownPhase::BackendClosed,
        WorkerShutdownPhase::SocketCleaned,
        WorkerShutdownPhase::PidCleaned,
        WorkerShutdownPhase::LockReleased,
        WorkerShutdownPhase::Closed(stop),
    ]
}

/// How many phases have been reached when an action is due.
pub open spec fn reached(action: ShutdownAction) -> int {
    match action {
        ShutdownAction::StopAccept => 1,
        ShutdownAction::CancelClients => 2,
        ShutdownAction::JoinClient => 3,
        ShutdownAction::CloseBackend => 4,
        ShutdownAction::RemoveSocket => 5,
        ShutdownAction::RemovePid => 6,
        ShutdownAction::ReleaseLock => 7,
        ShutdownAction::Finish => 9,
    }
}

/// Whatever happens on the way, the phases are reached in their one order, each
/// once; when the shutdown is finished, all of them were reached.
pub proof fn phases_are_reached_once_and_in_order(stop: WorkerStop, events: Seq<ShutdownEvent>)
    ensures
        after_events(stop, events).stop == stop,
        after_events(stop, events).phases == all_phases(stop).take(
            reached(after_events(stop, events).action),
        ),
        after_events(stop, events).action == ShutdownAction::Finish ==> after_events(
            stop,
            events,
        ).phases == all_phases(stop),
    decreases events.len(),
{
    let all = all_phases(stop);
    if events.len() == 0 {
        assert(started(stop).phases =~= all.take(1));
    } else {
        phases_are_reached_once_and_in_order(stop, events.drop_last());
        let before = after_events(stop, events.drop_last());
        let (action, phases) = following(stop, before.action, events.last());
        assert(all.take(reached(before.action)) + phases =~= all.take(reached(action)));
    }
    assert(all.take(9) =~= all);
}

/// The phases that a series of calls shows.
pub open spec fn shown(calls: Seq<HookCall>) -> Seq<WorkerShutdownPhase>
    decreases calls.len(),
{
    if calls.len() == 0 {
        Seq::empty()
    } else {
        let before = shown(calls.drop_last());
        match calls.last() {
            HookCall::Phase(phase) => before.push(phase),
            _ => before,
        }
    }
}

proof fn lemma_shown_concat(first: Seq<HookCall>, second: Seq<HookCall>)
    ensures
        shown(first + second) == shown(first) + shown(second),
    decreases second.len(),
{
    if second.len() == 0 {
        assert(first + second =~= first);
    } else {
        lemma_shown_concat(first, second.drop_last());
        assert((first + second).drop_last() =~= first + second.drop_last());
        assert((first + second).last() == second.last());
    }
}

proof fn lemma_shown_observations(phases: Seq<WorkerShutdownPhase>)
    ensures
        shown(observations(phases)) == phases,
    decreases phases.len(),
{
    if phases.len() > 0 {
        lemma_shown_observations(phases.drop_last());
        assert(observations(phases).drop_last() =~= observations(phases.drop_last()));
        assert(phases.drop_last().push(phases.last()) =~= phases);
    }
}

/// Phases that were announced up to one point, and the further ones that were
/// announced at a later point, are all phases up to that later point: none is
/// left out and none is shown twice.
pub proof fn announcements_add_up<H: WorkerShutdownHooks>(
    before: H,
    middle: H,
    after: H,
    earlier: Seq<WorkerShutdownPhase>,
    later: Seq<WorkerShutdownPhase>,
)
    requires
        earlier.len() <= later.len(),
        later.take(earlier.len() as int) == earlier,
        made(before, middle, observations(earlier)),
        made(middle, after, observations(later.skip(earlier.len() as int))),
    ensures
        made(before, after, observations(later)),
{
    let rest = later.skip(earlier.len() as int);
    calls_follow_each_other(before, middle, after, observations(earlier), observations(rest));
    assert(earlier + rest =~= later);
    assert(observations(earlier) + observations(rest) =~= observations(later));
}

/// A whole shutdown, whatever its steps came to: once every phase before the
/// cleanup was announced and the cleanup is done, the hooks have been shown all
/// phases, each once and in order, and each artifact was released by one call.
pub proof fn every_phase_is_shown_once_and_in_order<H: WorkerShutdownHooks>(
    before: H,
    middle: H,
    after: H,
    stop: WorkerStop,
    events: Seq<ShutdownEvent>,
    socket: bool,
    pid: bool,
    lock: bool,
)
    requires
        after_events(stop, events).action == ShutdownAction::RemoveSocket,
        made(before, middle, observations(after_events(stop, events).phases)),
        made(middle, after, cleanup_calls(stop, socket, pid, lock)),
    ensures
        made(
            before,
            after,
            observations(after_events(stop, events).phases) + cleanup_calls(
                stop,
                socket,
                pid,
                lock,
            ),
        ),
        shown(
            observations(after_events(stop, events).phases) + cleanup_calls(
                stop,
                socket,
                pid,
                lock,
            ),
        ) == all_phases(stop),
{
    let first = observations(after_events(stop, events).phases);
    let second = cleanup_calls(stop, socket, pid, lock);
    calls_follow_each_other(before, middle, after, first, second);
    phases_are_reached_once_and_in_order(stop, events);
    lemma_shown_concat(first, second);
    lemma_shown_observations(after_events(stop, events).phases);
    assert(shown(second) =~= all_phases(stop).skip(5)) by {
        reveal_with_fuel(shown, 8);
        assert(second.drop_last() =~= second.take(6));
        assert(second.take(6).drop_last() =~= second.take(5));
        assert(second.take(5).drop_last() =~= second.take(4));
        assert(second.take(4).drop_last() =~= second.take(3));
        assert(second.take(3).drop_last() =~= second.take(2));
        assert(second.take(2).drop_last() =~= second.take(1));
        assert(second.take(1).drop_last() =~= second.take(0));
    }
    assert(all_phases(stop).take(5) + all_phases(stop).skip(5) =~= all_phases(stop));
}

/// The failure of one cleanup step, if it failed.
pub open spec fn cleanup_failure(step: WorkerShutdownStep, ok: bool) -> Seq<WorkerShutdownFailure> {
    if ok {
        Seq::empty()
    } else {
        seq![WorkerShutdownFailure::Cleanup { step, error: WorkerCleanupError }]
    }
}

/// A cleanup finishes the shutdown with all phases reached, and adds exactly its
/// own failed steps, in their order, to the failures from before. So a shutdown
/// in which nothing failed reports success, and any other lists every failed step
/// in order.
pub proof fn cleanups_add_exactly_their_failed_steps(
    stop: WorkerStop,
    events: Seq<ShutdownEvent>,
    socket: bool,
    pid: bool,
    lock: bool,
)
    requires
        after_events(stop, events).action == ShutdownAction::RemoveSocket,
    ensures
        ({
            let before = after_events(stop, events);
            let after = cleaned(before, outcome(socket), outcome(pid), outcome(lock));
            &&& after.stop == stop
            &&& after.action == ShutdownAction::Finish
            &&& after.phases == all_phases(stop)
            &&& after.failures == before.failures + cleanup_failure(
                WorkerShutdownStep::SocketCleanup,
                socket,
            ) + cleanup_failure(WorkerShutdownStep::PidCleanup, pid) + cleanup_failure(
                WorkerShutdownStep::LockRelease,
                lock,
            )
        }),
{
    phases_are_reached_once_and_in_order(stop, events);
    let before = after_events(stop, events);
    let after = cleaned(before, outcome(socket), outcome(pid), outcome(lock));
    assert(after.phases =~= all_phases(stop));
    assert(after.failures =~= before.failures + cleanup_failure(
        WorkerShutdownStep::SocketCleanup,
        socket,
    ) + cleanup_failure(WorkerShutdownStep::PidCleanup, pid) + cleanup_failure(
        WorkerShutdownStep::LockRelease,
        lock,
    ));
}

/// Every action but waiting for clients is due at exactly one point of a
/// history: the action that follows is another one, and never an earlier one.
pub proof fn actions_are_not_repeated(state: ShutdownState, event: ShutdownEvent)
    ensures
        reached(shutdown_step(state, event).action) >= reached(state.action),
        shutdown_step(state, event).action == state.action ==> state.action
            == ShutdownAction::JoinClient || state.action == ShutdownAction::Finish,
{
}

/// No failure ends a shutdown early or is forgotten: what comes next does not
/// depend on whether a step failed, and every failure stays recorded.
pub proof fn failures_are_aggregated(state: ShutdownState, event: ShutdownEvent)
    ensures
        event != ShutdownEvent::NoClient ==> shutdown_step(state, event).action == shutdown_step(
            state,
            ShutdownEvent::Done,
        ).action,
        shutdown_step(state, event).failures.take(state.failures.len() as int) == state.failures,
        recorded(state.action, event) matches Some(failure) ==> shutdown_step(
            state,
            event,
        ).failures == state.failures.push(failure),
{
    assert(state.failures.take(state.failures.len() as int) =~= state.failures);
    if let Some(failure) = recorded(state.action, event) {
        assert(state.failures.push(failure).take(state.failures.len() as int) =~= state.failures);
    }
}

/// Each signal stops the worker for its own reason.
pub proof fn signals_stop_for_their_own_reason(signal: WorkerSignal, r: WorkerStop)
    requires
        call_ensures(WorkerSignal::stop, (signal,), r),
    ensures
        signal is Interrupt ==> r is SignalInterrupt,
        signal is Terminate ==> r is SignalTerminate,
{
}

/// Each failure belongs to its step, and each step has its name.
pub proof fn failures_name_their_step(
    failure: &WorkerShutdownFailure,
    step: WorkerShutdownStep,
    name: &'static str,
)
    requires
        call_ensures(WorkerShutdownFailure::step, (failure,), step),
        call_ensures(WorkerShutdownStep::description, (step,), name),
    ensures
        *failure is ClientJoin ==> name@ == "client task join"@,
        *failure is BackendOwnership || *failure is Backend ==> name@ == "MCP backend close"@,
        *failure matches WorkerShutdownFailure::Cleanup { step: failed, .. } ==> step == failed,
        step is SocketCleanup ==> name@ == "socket cleanup"@,
        step is PidCleanup ==> name@ == "PID cleanup"@,
        step is LockRelease ==> name@ == "lock release"@,
{
}

/// A shutdown stops accepting, cancels and joins its clients, closes the backend
/// and cleans up the socket, the PID file and the lock, in this order, whatever
/// fails on the way; only the clients are waited for more than once.
pub proof fn shutdowns_go_through_their_actions(state: ShutdownState, event: ShutdownEvent)
    ensures
        ({
            let next = shutdown_step(state, event);
            &&& next.stop == state.stop
            &&& state.action is StopAccept ==> next.action is CancelClients && next.phases
                == state.phases.push(WorkerShutdownPhase::AcceptStopped)
            &&& state.action is CancelClients ==> next.action is JoinClient && next.phases
                == state.phases.push(WorkerShutdownPhase::ClientsCancelled)
            &&& state.action is JoinClient && event is NoClient ==> next.action is CloseBackend
                && next.phases == state.phases.push(WorkerShutdownPhase::ClientsJoined)
            &&& state.action is JoinClient && event !is NoClient ==> next.action is JoinClient
                && next.phases == state.phases
            &&& state.action is CloseBackend ==> next.action is RemoveSocket && next.phases
                == state.phases.push(WorkerShutdownPhase::BackendClosed)
            &&& state.action is RemoveSocket ==> next.action is RemovePid && next.phases
                == state.phases.push(WorkerShutdownPhase::SocketCleaned)
            &&& state.action is RemovePid ==> next.action is ReleaseLock && next.phases
                == state.phases.push(WorkerShutdownPhase::PidCleaned)
            &&& state.action is ReleaseLock ==> next.action is Finish && next.phases
                == state.phases.push(WorkerShutdownPhase::LockReleased).push(
                WorkerShutdownPhase::Closed(state.stop),
            )
            &&& state.action is Finish ==> next.action is Finish && next.phases == state.phases
        }),
{
    let next = shutdown_step(state, event);
    match state.action {
        ShutdownAction::ReleaseLock => {
            assert(next.phases =~= state.phases.push(WorkerShutdownPhase::LockReleased).push(
                WorkerShutdownPhase::Closed(state.stop),
            ));
        },
        ShutdownAction::JoinClient => {
            if event is NoClient {
                assert(next.phases =~= state.phases.push(WorkerShutdownPhase::ClientsJoined));
            } else {
                assert(next.phases =~= state.phases);
            }
        },
        _ => {
            let phases = following(state.stop, state.action, event).1;
            if phases.len() == 0 {
                assert(next.phases =~= state.phases);
            } else {
                assert(phases =~= seq![phases[0]]);
                assert(next.phases =~= state.phases.push(phases[0]));
            }
        },
    }
}

/// A shutdown records a failure exactly where an action fails, one that belongs
/// to that action.
pub proof fn failed_actions_are_recorded(state: ShutdownState, event: ShutdownEvent)
    ensures
        ({
            let failures = shutdown_step(state, event).failures;
            &&& event is Done || event is NoClient ==> failures == state.failures
            &&& event is StillShared ==> failures == if state.action is CloseBackend {
                state.failures.push(WorkerShutdownFailure::BackendOwnership)
            } else {
                state.failures
            }
            &&& event is Failed ==> {
                &&& state.action is StopAccept || state.action is CancelClients || state.action
                    is Finish ==> failures == state.failures
                &&& state.action is JoinClient ==> failures == state.failures.push(
                    WorkerShutdownFailure::ClientJoin,
                )
                &&& state.action is CloseBackend ==> failures == state.failures.push(
                    WorkerShutdownFailure::Backend,
                )
                &&& state.action is RemoveSocket || state.action is RemovePid || state.action
                    is ReleaseLock ==> {
                    &&& failures.len() == state.failures.len() + 1
                    &&& failures.drop_last() == state.failures
                    &&& failures.last() matches WorkerShutdownFailure::Cleanup { step, .. } && (
                    state.action is RemoveSocket <==> step is SocketCleanup) && (state.action
                        is RemovePid <==> step is PidCleanup) && (state.action is ReleaseLock
                        <==> step is LockRelease)
                }
            }
        }),
{
    let failures = shutdown_step(state, event).failures;
    if failures.len() > state.failures.len() {
        assert(failures.drop_last() =~= state.failures);
    }
}

/// A shutdown begins by draining, and ends well exactly where nothing failed;
/// otherwise it hands out all that failed.
pub proof fn shutdowns_report_all_failures(
    stop: WorkerStop,
    begun: ShutdownRun,
    run: ShutdownRun,
    r: Result<(), WorkerShutdownError>,
)
    requires
        call_ensures(ShutdownRun::begin, (stop,), begun),
        call_ensures(ShutdownRun::finish, (run,), r),
    ensures
        begun@.stop == stop,
        begun@.action is StopAccept,
        begun@.failures.len() == 0,
        begun@.phases == seq![WorkerShutdownPhase::Draining(stop)],
        r is Ok <==> run@.failures.len() == 0,
        r matches Err(failed) ==> failed@.stop == run@.stop && failed@.failures
            == run@.failures,
{
}

/// A worker ends for the reason it stopped, unless it could not accept or its
/// shutdown failed.
pub proof fn workers_end_as_they_stopped(
    stop: WorkerStop,
    accept_failed: bool,
    shutdown: Result<(), WorkerShutdownError>,
    r: Result<WorkerStop, WorkerError>,
)
    requires
        call_ensures(conclude, (stop, accept_failed, shutdown), r),
    ensures
        r is Ok <==> !accept_failed && shutdown is Ok,
        r matches Ok(reason) ==> reason == stop,
        r matches Err(failed) ==> {
            &&& failed is Accept <==> accept_failed && shutdown is Ok
            &&& failed is Shutdown <==> !accept_failed && shutdown is Err
            &&& failed is AcceptAndShutdown <==> accept_failed && shutdown is Err
            &&& failed matches WorkerError::Shutdown(failures) ==> shutdown == Err::<
                (),
                WorkerShutdownError,
            >(failures)
            &&& failed matches WorkerError::AcceptAndShutdown { shutdown: failures } ==> shutdown
                == Err::<(), WorkerShutdownError>(failures)
        },
{
}

/// What is said of a failed shutdown lists the steps of its failures in order.
pub proof fn failed_shutdowns_list_their_steps(error: &WorkerShutdownError, r: String, i: int)
    requires
        call_ensures(WorkerShutdownError::display_text, (error,), r),
        0 <= i < error@.failures.len(),
    ensures
        r@ == "daemon shutdown completed with failures in "@ + text::joined(
            failed_steps(error@.failures),
            ", "@,
        ),
        failed_steps(error@.failures).len() == error@.failures.len(),
        failed_steps(error@.failures)[i] == (match error@.failures[i] {
            WorkerShutdownFailure::ClientJoin => "client task join"@,
            WorkerShutdownFailure::BackendOwnership => "MCP backend close"@,
            WorkerShutdownFailure::Backend => "MCP backend close"@,
            WorkerShutdownFailure::Cleanup { step, .. } => step_text(step),
        }),
{
}

} // verus!
