//! Starting a worker: its lock, socket, metadata, and ready signal.

use vstd::prelude::*;

use crate::daemon::files;
use crate::daemon::files::{
    same_file, show, ArtifactIdentity, FileAction, FileFacts, FileReply, Flow, Place,
};
use crate::daemon::paths;
use crate::daemon::paths::{
    check_runtime_dir, validate_artifact_metadata, ArtifactKind, DaemonPaths, PRIVATE_FILE_MODE,
};
use crate::daemon::worker::bootstrap::{
    DaemonSpawnError, WorkerBootstrapError, WorkerStartupFault, WORKER_BOOTSTRAP_MAX_BYTES,
    WORKER_READY_BYTE,
};
use crate::daemon::worker::shutdown::WorkerStop;
use crate::text;
use crate::text::{bytes_equal, decimal_text};

verus! {

/// How far a piece of the startup has come.
#[derive(Clone, Debug, PartialEq, Eq)]
pub enum StartupFlow<T> {
    Asks(FileAction),
    Gives(T),
    Fails(WorkerBootstrapError),
}

/// Takes the lock of a server: a new private file that holds the worker's
/// process identifier. A lock file that cannot be filled is removed again.
pub open spec fn locked(paths: paths::PathsContent, replies: Seq<FileReply>) -> StartupFlow<
    ArtifactIdentity,
> {
    let unsafe_runtime = WorkerBootstrapError::UnsafeRuntime;
    match paths::runtime_dir_checked(paths, Some(paths.runtime_identity), replies, 0) {
        Flow::Asks(action) => StartupFlow::Asks(action),
        Flow::Fails(_) => StartupFlow::Fails(unsafe_runtime),
        Flow::Gives(_) => if replies.len() <= 2 {
            StartupFlow::Asks(FileAction::CreateLock(PRIVATE_FILE_MODE))
        } else if replies[2] is Exists {
            StartupFlow::Fails(WorkerBootstrapError::LockHeld)
        } else if replies[2] !is Done {
            StartupFlow::Fails(unsafe_runtime)
        } else if replies.len() <= 3 {
            StartupFlow::Asks(FileAction::FillLock)
        } else if replies[3] !is Done {
            if replies.len() <= 4 {
                StartupFlow::Asks(FileAction::Remove(Place::Lock))
            } else {
                StartupFlow::Fails(unsafe_runtime)
            }
        } else {
            match paths::captured(paths, Place::Lock, replies.skip(4)) {
                Flow::Asks(action) => StartupFlow::Asks(action),
                Flow::Fails(_) => StartupFlow::Fails(unsafe_runtime),
                Flow::Gives(None) => StartupFlow::Fails(unsafe_runtime),
                Flow::Gives(Some(identity)) => StartupFlow::Gives(identity),
            }
        },
    }
}

/// Takes the lock of a server.
pub fn acquire_lock(paths: &DaemonPaths, replies: &[FileReply]) -> (r: StartupFlow<
    ArtifactIdentity,
>)
    ensures
        r == locked(paths@, replies@),
{
    match check_runtime_dir(paths, Some(paths.runtime_identity), replies, 0) {
        Flow::Asks(action) => return StartupFlow::Asks(action),
        Flow::Fails(_) => return StartupFlow::Fails(WorkerBootstrapError::UnsafeRuntime),
        Flow::Gives(_) => {},
    }
    if replies.len() <= 2 {
        return StartupFlow::Asks(FileAction::CreateLock(PRIVATE_FILE_MODE));
    }
    match &replies[2] {
        FileReply::Done => {},
        FileReply::Exists => return StartupFlow::Fails(WorkerBootstrapError::LockHeld),
        _ => return StartupFlow::Fails(WorkerBootstrapError::UnsafeRuntime),
    }
    if replies.len() <= 3 {
        return StartupFlow::Asks(FileAction::FillLock);
    }
    match &replies[3] {
        FileReply::Done => {},
        _ => {
            if replies.len() <= 4 {
                return StartupFlow::Asks(FileAction::Remove(Place::Lock));
            }
            return StartupFlow::Fails(WorkerBootstrapError::UnsafeRuntime);
        },
    }
    let rest = vstd::slice::slice_subrange(replies, 4, replies.len());
    assert(rest@ =~= replies@.skip(4));
    match paths.capture_lock_identity(rest) {
        Flow::Asks(action) => StartupFlow::Asks(action),
        Flow::Fails(_) => StartupFlow::Fails(WorkerBootstrapError::UnsafeRuntime),
        Flow::Gives(None) => StartupFlow::Fails(WorkerBootstrapError::UnsafeRuntime),
        Flow::Gives(Some(identity)) => StartupFlow::Gives(identity),
    }
}

/// Binds the socket at a path that nothing occupies, and makes it private.
pub open spec fn bound(paths: paths::PathsContent, replies: Seq<FileReply>) -> StartupFlow<()> {
    let failed = WorkerBootstrapError::SocketPublication;
    match paths::runtime_dir_checked(paths, Some(paths.runtime_identity), replies, 0) {
        Flow::Asks(action) => StartupFlow::Asks(action),
        Flow::Fails(_) => StartupFlow::Fails(WorkerBootstrapError::UnsafeRuntime),
        Flow::Gives(_) => if replies.len() <= 2 {
            StartupFlow::Asks(FileAction::Inspect(Place::Socket))
        } else if replies[2] !is Missing {
            StartupFlow::Fails(failed)
        } else if replies.len() <= 3 {
            StartupFlow::Asks(FileAction::BindSocket)
        } else if replies[3] !is Done {
            StartupFlow::Fails(failed)
        } else if replies.len() <= 4 {
            StartupFlow::Asks(FileAction::SetMode(Place::Socket, PRIVATE_FILE_MODE))
        } else if replies[4] !is Done {
            StartupFlow::Fails(failed)
        } else {
            StartupFlow::Gives(())
        },
    }
}

/// Binds the socket of a worker.
pub fn bind_worker_socket(paths: &DaemonPaths, replies: &[FileReply]) -> (r: StartupFlow<()>)
    ensures
        r == bound(paths@, replies@),
{
    match check_runtime_dir(paths, Some(paths.runtime_identity), replies, 0) {
        Flow::Asks(action) => return StartupFlow::Asks(action),
        Flow::Fails(_) => return StartupFlow::Fails(WorkerBootstrapError::UnsafeRuntime),
        Flow::Gives(_) => {},
    }
    if replies.len() <= 2 {
        return StartupFlow::Asks(FileAction::Inspect(Place::Socket));
    }
    match &replies[2] {
        FileReply::Missing => {},
        _ => return StartupFlow::Fails(WorkerBootstrapError::SocketPublication),
    }
    if replies.len() <= 3 {
        return StartupFlow::Asks(FileAction::BindSocket);
    }
    match &replies[3] {
        FileReply::Done => {},
        _ => return StartupFlow::Fails(WorkerBootstrapError::SocketPublication),
    }
    if replies.len() <= 4 {
        return StartupFlow::Asks(FileAction::SetMode(Place::Socket, PRIVATE_FILE_MODE));
    }
    match &replies[4] {
        FileReply::Done => StartupFlow::Gives(()),
        _ => StartupFlow::Fails(WorkerBootstrapError::SocketPublication),
    }
}

/// The next thing to do in the startup of a worker.
#[derive(Clone, Copy, Debug, PartialEq, Eq, Structural)]
pub enum StartupAction {
    AcquireLock,
    /// Start to watch for signals.
    WatchSignals,
    /// Connect to the server.
    Connect,
    BindSocket,
    CaptureSocket,
    /// Look whether there is PID metadata already.
    InspectPid,
    /// Observe the current process.
    DescribeWorker,
    WriteMetadata,
    CapturePid,
    /// Install the shutdown hooks.
    InstallHooks,
    /// Tell the parent that the worker is ready.
    PublishReady,
    Serve,
    CloseBackend,
    RemoveSocket(ArtifactIdentity),
    RemovePid(ArtifactIdentity),
    RemoveLock(ArtifactIdentity),
    Finish,
}

/// What came of a [`StartupAction`].
#[derive(Clone, Copy, Debug, PartialEq, Eq)]
pub enum StartupEvent {
    Done,
    Failed(WorkerBootstrapError),
    Locked(ArtifactIdentity),
    Captured(Option<ArtifactIdentity>),
    /// A signal came first.
    Signalled,
    /// Something is there already.
    Present,
    /// The hooks took over these artifacts.
    Hooked {
        socket: Option<ArtifactIdentity>,
        pid: Option<ArtifactIdentity>,
        lock: Option<ArtifactIdentity>,
    },
    Served(WorkerStop),
}

/// How a startup ended.
#[derive(Clone, Copy, Debug, PartialEq, Eq, Structural)]
pub enum StartupOutcome {
    Pending,
    Stopped(WorkerStop),
    Failed(WorkerBootstrapError),
}

/// A startup on its way, with the artifacts that it owns.
#[derive(Clone, Copy, Debug, PartialEq, Eq)]
pub struct WorkerStartup {
    pub action: StartupAction,
    pub backend: bool,
    pub socket: Option<ArtifactIdentity>,
    pub pid: Option<ArtifactIdentity>,
    pub lock: Option<ArtifactIdentity>,
    pub outcome: StartupOutcome,
    /// Where this startup is made to fail.
    pub fault: Option<WorkerStartupFault>,
}

pub open spec fn startup_begun(fault: Option<WorkerStartupFault>) -> WorkerStartup {
    WorkerStartup {
        action: StartupAction::AcquireLock,
        backend: false,
        socket: None,
        pid: None,
        lock: None,
        outcome: StartupOutcome::Pending,
        fault,
    }
}

/// What is left to release: the backend first, and then the socket, the PID
/// file, and the lock.
pub open spec fn releasing(state: WorkerStartup) -> WorkerStartup {
    WorkerStartup {
        action: if state.backend {
            StartupAction::CloseBackend
        } else if state.socket is Some {
            StartupAction::RemoveSocket(state.socket->0)
        } else if state.pid is Some {
            StartupAction::RemovePid(state.pid->0)
        } else if state.lock is Some {
            StartupAction::RemoveLock(state.lock->0)
        } else {
            StartupAction::Finish
        },
        ..state
    }
}

/// A failure that releases everything.
pub open spec fn abandoned(state: WorkerStartup, failure: WorkerBootstrapError) -> WorkerStartup {
    releasing(WorkerStartup { outcome: StartupOutcome::Failed(failure), ..state })
}

pub open spec fn goes_on(state: WorkerStartup, action: StartupAction) -> WorkerStartup {
    WorkerStartup { action, ..state }
}

/// Goes on past a checkpoint, unless the startup is made to fail there.
pub open spec fn passes(
    state: WorkerStartup,
    checkpoint: WorkerStartupFault,
    failure: WorkerBootstrapError,
    action: StartupAction,
) -> WorkerStartup {
    if state.fault == Some(checkpoint) {
        abandoned(state, failure)
    } else {
        goes_on(state, action)
    }
}

/// One step of a startup.
pub open spec fn startup_step(state: WorkerStartup, event: StartupEvent) -> WorkerStartup {
    match state.action {
        StartupAction::AcquireLock => match event {
            StartupEvent::Locked(identity) => WorkerStartup {
                action: StartupAction::WatchSignals,
                lock: Some(identity),
                ..state
            },
            StartupEvent::Failed(failure) => abandoned(state, failure),
            _ => abandoned(state, WorkerBootstrapError::UnsafeRuntime),
        },
        StartupAction::WatchSignals => match event {
            StartupEvent::Done => passes(
                state,
                WorkerStartupFault::BeforeBackend,
                WorkerBootstrapError::BackendInitialization,
                StartupAction::Connect,
            ),
            _ => abandoned(state, WorkerBootstrapError::BackendInitialization),
        },
        StartupAction::Connect => match event {
            StartupEvent::Done => passes(
                WorkerStartup { backend: true, ..state },
                WorkerStartupFault::BeforeSocket,
                WorkerBootstrapError::SocketPublication,
                StartupAction::BindSocket,
            ),
            StartupEvent::Signalled => abandoned(state, WorkerBootstrapError::SignalBeforeReady),
            _ => abandoned(state, WorkerBootstrapError::BackendInitialization),
        },
        StartupAction::BindSocket => match event {
            StartupEvent::Done => goes_on(state, StartupAction::CaptureSocket),
            StartupEvent::Failed(failure) => abandoned(state, failure),
            _ => abandoned(state, WorkerBootstrapError::SocketPublication),
        },
        StartupAction::CaptureSocket => match event {
            StartupEvent::Captured(Some(identity)) => passes(
                WorkerStartup { socket: Some(identity), ..state },
                WorkerStartupFault::BeforePid,
                WorkerBootstrapError::MetadataPublication,
                StartupAction::InspectPid,
            ),
            _ => abandoned(state, WorkerBootstrapError::SocketPublication),
        },
        StartupAction::InspectPid => match event {
            StartupEvent::Done => goes_on(state, StartupAction::DescribeWorker),
            _ => abandoned(state, WorkerBootstrapError::MetadataPublication),
        },
        StartupAction::DescribeWorker => match event {
            StartupEvent::Done => goes_on(state, StartupAction::WriteMetadata),
            _ => abandoned(
                WorkerStartup { backend: false, ..state },
                WorkerBootstrapError::MetadataPublication,
            ),
        },
        StartupAction::WriteMetadata => match event {
            StartupEvent::Done => goes_on(state, StartupAction::CapturePid),
            _ => abandoned(state, WorkerBootstrapError::MetadataPublication),
        },
        StartupAction::CapturePid => match event {
            StartupEvent::Captured(Some(identity)) => passes(
                WorkerStartup { pid: Some(identity), ..state },
                WorkerStartupFault::BeforeReady,
                WorkerBootstrapError::ReadyPublication,
                StartupAction::InstallHooks,
            ),
            _ => abandoned(state, WorkerBootstrapError::MetadataPublication),
        },
        StartupAction::InstallHooks => match event {
            StartupEvent::Hooked { socket, pid, lock } => WorkerStartup {
                action: StartupAction::PublishReady,
                socket,
                pid,
                lock,
                ..state
            },
            _ => abandoned(state, WorkerBootstrapError::MetadataPublication),
        },
        StartupAction::PublishReady => match event {
            StartupEvent::Done => goes_on(state, StartupAction::Serve),
            _ => abandoned(state, WorkerBootstrapError::ReadyPublication),
        },
        StartupAction::Serve => WorkerStartup {
            action: StartupAction::Finish,
            backend: false,
            socket: None,
            pid: None,
            lock: None,
            outcome: match event {
                StartupEvent::Served(stop) => StartupOutcome::Stopped(stop),
                _ => StartupOutcome::Failed(WorkerBootstrapError::Service),
            },
            fault: state.fault,
        },
        StartupAction::CloseBackend => releasing(WorkerStartup { backend: false, ..state }),
        StartupAction::RemoveSocket(_) => releasing(WorkerStartup { socket: None, ..state }),
        StartupAction::RemovePid(_) => releasing(WorkerStartup { pid: None, ..state }),
        StartupAction::RemoveLock(_) => releasing(WorkerStartup { lock: None, ..state }),
        StartupAction::Finish => state,
    }
}

impl WorkerStartup {
    pub fn begin(fault: Option<WorkerStartupFault>) -> (r: Self)
        ensures
            r == startup_begun(fault),
    {
        WorkerStartup {
            action: StartupAction::AcquireLock,
            backend: false,
            socket: None,
            pid: None,
            lock: None,
            outcome: StartupOutcome::Pending,
            fault,
        }
    }

    fn release(self) -> (r: Self)
        ensures
            r == releasing(self),
    {
        let mut state = self;
        state.action = if self.backend {
            StartupAction::CloseBackend
        } else if let Some(identity) = self.socket {
            StartupAction::RemoveSocket(identity)
        } else if let Some(identity) = self.pid {
            StartupAction::RemovePid(identity)
        } else if let Some(identity) = self.lock {
            StartupAction::RemoveLock(identity)
        } else {
            StartupAction::Finish
        };
        state
    }

    fn abandon(self, failure: WorkerBootstrapError) -> (r: Self)
        ensures
            r == abandoned(self, failure),
    {
        let mut state = self;
        state.outcome = StartupOutcome::Failed(failure);
        state.release()
    }

    fn go_on(self, action: StartupAction) -> (r: Self)
        ensures
            r == goes_on(self, action),
    {
        let mut state = self;
        state.action = action;
        state
    }

    fn pass(
        self,
        checkpoint: WorkerStartupFault,
        failure: WorkerBootstrapError,
        action: StartupAction,
    ) -> (r: Self)
        ensures
            r == passes(self, checkpoint, failure, action),
    {
        let faulty = match self.fault {
            Some(fault) => fault == checkpoint,
            None => false,
        };
        if faulty {
            self.abandon(failure)
        } else {
            self.go_on(action)
        }
    }

    /// Takes what came of the current action.
    pub fn step(self, event: StartupEvent) -> (r: Self)
        ensures
            r == startup_step(self, event),
    {
        let mut state = self;
        match self.action {
            StartupAction::AcquireLock => match event {
                StartupEvent::Locked(identity) => {
                    state.lock = Some(identity);
                    state.go_on(StartupAction::WatchSignals)
                },
                StartupEvent::Failed(failure) => state.abandon(failure),
                _ => state.abandon(WorkerBootstrapError::UnsafeRuntime),
            },
            StartupAction::WatchSignals => match event {
                StartupEvent::Done => state.pass(
                    WorkerStartupFault::BeforeBackend,
                    WorkerBootstrapError::BackendInitialization,
                    StartupAction::Connect,
                ),
                _ => state.abandon(WorkerBootstrapError::BackendInitialization),
            },
            StartupAction::Connect => match event {
                StartupEvent::Done => {
                    state.backend = true;
                    state.pass(
                        WorkerStartupFault::BeforeSocket,
                        WorkerBootstrapError::SocketPublication,
                        StartupAction::BindSocket,
                    )
                },
                StartupEvent::Signalled => state.abandon(WorkerBootstrapError::SignalBeforeReady),
                _ => state.abandon(WorkerBootstrapError::BackendInitialization),
            },
            StartupAction::BindSocket => match event {
                StartupEvent::Done => state.go_on(StartupAction::CaptureSocket),
                StartupEvent::Failed(failure) => state.abandon(failure),
                _ => state.abandon(WorkerBootstrapError::SocketPublication),
            },
            StartupAction::CaptureSocket => match event {
                StartupEvent::Captured(Some(identity)) => {
                    state.socket = Some(identity);
                    state.pass(
                        WorkerStartupFault::BeforePid,
                        WorkerBootstrapError::MetadataPublication,
                        StartupAction::InspectPid,
                    )
                },
                _ => state.abandon(WorkerBootstrapError::SocketPublication),
            },
            StartupAction::InspectPid => match event {
                StartupEvent::Done => state.go_on(StartupAction::DescribeWorker),
                _ => state.abandon(WorkerBootstrapError::MetadataPublication),
            },
            StartupAction::DescribeWorker => match event {
                StartupEvent::Done => state.go_on(StartupAction::WriteMetadata),
                _ => {
                    state.backend = false;
                    state.abandon(WorkerBootstrapError::MetadataPublication)
                },
            },
            StartupAction::WriteMetadata => match event {
                StartupEvent::Done => state.go_on(StartupAction::CapturePid),
                _ => state.abandon(WorkerBootstrapError::MetadataPublication),
            },
            StartupAction::CapturePid => match event {
                StartupEvent::Captured(Some(identity)) => {
                    state.pid = Some(identity);
                    state.pass(
                        WorkerStartupFault::BeforeReady,
                        WorkerBootstrapError::ReadyPublication,
                        StartupAction::InstallHooks,
                    )
                },
                _ => state.abandon(WorkerBootstrapError::MetadataPublication),
            },
            StartupAction::InstallHooks => match event {
                StartupEvent::Hooked { socket, pid, lock } => {
                    state.socket = socket;
                    state.pid = pid;
                    state.lock = lock;
                    state.go_on(StartupAction::PublishReady)
                },
                _ => state.abandon(WorkerBootstrapError::MetadataPublication),
            },
            StartupAction::PublishReady => match event {
                StartupEvent::Done => state.go_on(StartupAction::Serve),
                _ => state.abandon(WorkerBootstrapError::ReadyPublication),
            },
            StartupAction::Serve => {
                WorkerStartup {
                    action: StartupAction::Finish,
                    backend: false,
                    socket: None,
                    pid: None,
                    lock: None,
                    outcome: match event {
                        StartupEvent::Served(stop) => StartupOutcome::Stopped(stop),
                        _ => StartupOutcome::Failed(WorkerBootstrapError::Service),
                    },
                    fault: self.fault,
                }
            },
            StartupAction::CloseBackend => {
                state.backend = false;
                state.release()
            },
            StartupAction::RemoveSocket(_) => {
                state.socket = None;
                state.release()
            },
            StartupAction::RemovePid(_) => {
                state.pid = None;
                state.release()
            },
            StartupAction::RemoveLock(_) => {
                state.lock = None;
                state.release()
            },
            StartupAction::Finish => state,
        }
    }
}

/// The state of a startup after a history of events.
pub open spec fn startup_after(
    fault: Option<WorkerStartupFault>,
    events: Seq<StartupEvent>,
) -> WorkerStartup
    decreases events.len(),
{
    if events.len() == 0 {
        startup_begun(fault)
    } else {
        startup_step(startup_after(fault, events.drop_last()), events.last())
    }
}

/// What holds of a startup at every point.
pub open spec fn startup_consistent(state: WorkerStartup) -> bool {
    match state.action {
        StartupAction::AcquireLock => state == startup_begun(state.fault),
        StartupAction::WatchSignals | StartupAction::Connect => state.outcome
            == StartupOutcome::Pending && !state.backend && state.lock is Some && state.socket
            is None && state.pid is None,
        StartupAction::BindSocket | StartupAction::CaptureSocket => state.outcome
            == StartupOutcome::Pending && state.backend && state.lock is Some && state.socket
            is None && state.pid is None,
        StartupAction::InspectPid
        | StartupAction::DescribeWorker
        | StartupAction::WriteMetadata
        | StartupAction::CapturePid => state.outcome == StartupOutcome::Pending && state.backend
            && state.lock is Some && state.socket is Some && state.pid is None,
        StartupAction::InstallHooks => state.outcome == StartupOutcome::Pending && state.backend
            && state.lock is Some && state.socket is Some && state.pid is Some,
        StartupAction::PublishReady | StartupAction::Serve => state.outcome
            == StartupOutcome::Pending && state.backend,
        StartupAction::CloseBackend => state.outcome is Failed && state.backend,
        StartupAction::RemoveSocket(identity) => state.outcome is Failed && !state.backend
            && state.socket == Some(identity),
        StartupAction::RemovePid(identity) => state.outcome is Failed && !state.backend
            && state.socket is None && state.pid == Some(identity),
        StartupAction::RemoveLock(identity) => state.outcome is Failed && !state.backend
            && state.socket is None && state.pid is None && state.lock == Some(identity),
        StartupAction::Finish => state.outcome !is Pending && !state.backend && state.socket
            is None && state.pid is None && state.lock is None,
    }
}

proof fn lemma_startup_consistent(
    fault: Option<WorkerStartupFault>,
    events: Seq<StartupEvent>,
)
    ensures
        startup_consistent(startup_after(fault, events)),
    decreases events.len(),
{
    if events.len() > 0 {
        lemma_startup_consistent(fault, events.drop_last());
    }
}

/// However a startup goes, it ends only when it has no backend any more and every
/// artifact that it owned is released or handed to the service.
pub proof fn startups_release_what_they_own(
    fault: Option<WorkerStartupFault>,
    events: Seq<StartupEvent>,
)
    requires
        startup_after(fault, events).action == StartupAction::Finish,
    ensures
        startup_after(fault, events).outcome !is Pending,
        !startup_after(fault, events).backend,
        startup_after(fault, events).socket is None,
        startup_after(fault, events).pid is None,
        startup_after(fault, events).lock is None,
{
    lemma_startup_consistent(fault, events);
}

/// A startup that has a backend parts with it in one of three ways: it closes it,
/// it hands it to the service, or, where the worker cannot describe its own
/// process, it drops it without closing it.
pub proof fn backends_are_closed_served_or_dropped(state: WorkerStartup, event: StartupEvent)
    requires
        state.backend,
        !startup_step(state, event).backend,
    ensures
        state.action == StartupAction::CloseBackend || state.action == StartupAction::Serve || (
        state.action == StartupAction::DescribeWorker && event != StartupEvent::Done),
{
}

/// A startup that has failed never tells its parent that it is ready, and never
/// serves.
pub proof fn failed_startups_are_never_ready(
    fault: Option<WorkerStartupFault>,
    events: Seq<StartupEvent>,
)
    requires
        startup_after(fault, events).outcome is Failed,
    ensures
        startup_after(fault, events).action != StartupAction::PublishReady,
        startup_after(fault, events).action != StartupAction::Serve,
{
    lemma_startup_consistent(fault, events);
}

/// The hooks are installed, and then readiness is published, only after the
/// lock was taken, the backend connected, and the socket and the metadata
/// published and found to be the worker's own.
pub proof fn readiness_is_published_last(
    fault: Option<WorkerStartupFault>,
    events: Seq<StartupEvent>,
)
    requires
        startup_after(fault, events).action == StartupAction::InstallHooks,
    ensures
        startup_after(fault, events).backend,
        startup_after(fault, events).lock is Some,
        startup_after(fault, events).socket is Some,
        startup_after(fault, events).pid is Some,
{
    lemma_startup_consistent(fault, events);
}

/// Readiness is only ever the step behind the hooks.
pub proof fn readiness_follows_the_hooks(state: WorkerStartup, event: StartupEvent)
    requires
        startup_step(state, event).action == StartupAction::PublishReady,
    ensures
        state.action == StartupAction::InstallHooks,
        event is Hooked,
{
}

/// How far the question whose lock it is has come.
#[derive(Clone, Copy, Debug, PartialEq, Eq)]
pub enum Ownership {
    Asks(FileAction),
    /// The lock, if it still belongs to the process in question.
    Known(Option<ArtifactIdentity>),
}

/// Finds out whether the lock still belongs to a process: a private file that
/// holds exactly the process identifier and stays the same while it is read.
pub open spec fn lock_owned(paths: paths::PathsContent, pid: u32, replies: Seq<FileReply>) -> Ownership {
    match paths::runtime_dir_checked(paths, Some(paths.runtime_identity), replies, 0) {
        Flow::Asks(action) => Ownership::Asks(action),
        Flow::Fails(_) => Ownership::Known(None),
        Flow::Gives(_) => match files::shown(
            replies,
            2,
            FileAction::Inspect(Place::Lock),
            "inspect",
            Place::Lock,
        ) {
            Flow::Asks(action) => Ownership::Asks(action),
            Flow::Fails(_) => Ownership::Known(None),
            Flow::Gives(before) => if paths::artifact_flaw(
                before,
                paths.uid,
                ArtifactKind::RegularFile,
                true,
            ) is Some {
                Ownership::Known(None)
            } else {
                lock_contents_owned(paths, pid, before, replies)
            },
        },
    }
}

/// The part behind the first inspection of the lock.
pub open spec fn lock_contents_owned(
    paths: paths::PathsContent,
    pid: u32,
    before: FileFacts,
    replies: Seq<FileReply>,
) -> Ownership {
    if replies.len() <= 3 {
        Ownership::Asks(FileAction::Open(Place::Lock))
    } else if replies[3] !is Done {
        Ownership::Known(None)
    } else if replies.len() <= 4 {
        Ownership::Asks(FileAction::InspectOpened(Place::Lock))
    } else if !(replies[4] matches FileReply::Facts(opened) && files::identity_of(before)
        == files::identity_of(opened)) {
        Ownership::Known(None)
    } else if replies.len() <= 5 {
        Ownership::Asks(FileAction::ReadOpened(32))
    } else if replies[5] !is Bytes {
        Ownership::Known(None)
    } else if replies.len() <= 6 {
        Ownership::Asks(FileAction::Inspect(Place::Lock))
    } else if !(replies[6] matches FileReply::Facts(after) && files::identity_of(before)
        == files::identity_of(after)) {
        Ownership::Known(None)
    } else if replies[5]->Bytes_0@ != paths::utf8(text::decimal(pid as nat)) {
        Ownership::Known(None)
    } else {
        match paths::captured(paths, Place::Lock, replies.skip(7)) {
            Flow::Asks(action) => Ownership::Asks(action),
            Flow::Fails(_) => Ownership::Known(None),
            Flow::Gives(identity) => Ownership::Known(identity),
        }
    }
}

fn read_owned_lock(
    paths: &DaemonPaths,
    pid: u32,
    before: FileFacts,
    replies: &[FileReply],
) -> (r: Ownership)
    requires
        replies@.len() >= 3,
    ensures
        r == lock_contents_owned(paths@, pid, before, replies@),
{
    if replies.len() <= 3 {
        return Ownership::Asks(FileAction::Open(Place::Lock));
    }
    match &replies[3] {
        FileReply::Done => {},
        _ => return Ownership::Known(None),
    }
    if replies.len() <= 4 {
        return Ownership::Asks(FileAction::InspectOpened(Place::Lock));
    }
    match &replies[4] {
        FileReply::Facts(opened) => {
            if !same_file(before, *opened) {
                return Ownership::Known(None);
            }
        },
        _ => return Ownership::Known(None),
    }
    if replies.len() <= 5 {
        return Ownership::Asks(FileAction::ReadOpened(32));
    }
    let contents = match &replies[5] {
        FileReply::Bytes(contents) => contents,
        _ => return Ownership::Known(None),
    };
    if replies.len() <= 6 {
        return Ownership::Asks(FileAction::Inspect(Place::Lock));
    }
    match &replies[6] {
        FileReply::Facts(after) => {
            if !same_file(before, *after) {
                return Ownership::Known(None);
            }
        },
        _ => return Ownership::Known(None),
    }
    let expected = decimal_text(pid as u128);
    if !bytes_equal(contents.as_slice(), expected.as_str().as_bytes()) {
        return Ownership::Known(None);
    }
    let rest = vstd::slice::slice_subrange(replies, 7, replies.len());
    assert(rest@ =~= replies@.skip(7));
    match paths.capture_lock_identity(rest) {
        Flow::Asks(action) => Ownership::Asks(action),
        Flow::Fails(_) => Ownership::Known(None),
        Flow::Gives(identity) => Ownership::Known(identity),
    }
}

/// Finds out whether the lock still belongs to a process.
pub fn owned_lock_for_pid(paths: &DaemonPaths, pid: u32, replies: &[FileReply]) -> (r: Ownership)
    ensures
        r == lock_owned(paths@, pid, replies@),
{
    match check_runtime_dir(paths, Some(paths.runtime_identity), replies, 0) {
        Flow::Asks(action) => return Ownership::Asks(action),
        Flow::Fails(_) => return Ownership::Known(None),
        Flow::Gives(_) => {},
    }
    let before = match show(
        replies,
        2,
        FileAction::Inspect(Place::Lock),
        "inspect",
        Place::Lock,
    ) {
        Flow::Asks(action) => return Ownership::Asks(action),
        Flow::Fails(_) => return Ownership::Known(None),
        Flow::Gives(before) => before,
    };
    if validate_artifact_metadata(before, paths.uid, ArtifactKind::RegularFile, true).is_some() {
        return Ownership::Known(None);
    }
    read_owned_lock(paths, pid, before, replies)
}

/// What a failed child may leave behind that belongs to it: nothing unless its
/// lock is still its own; then the socket, the PID file if it records the
/// child, and at last the lock.
pub open spec fn leftovers(
    pid: u32,
    lock: Option<ArtifactIdentity>,
    socket: Option<ArtifactIdentity>,
    recorded_pid: Option<u32>,
    pid_identity: Option<ArtifactIdentity>,
) -> Seq<(Place, ArtifactIdentity)> {
    match lock {
        None => Seq::empty(),
        Some(lock) => {
            let first = match socket {
                Some(identity) => seq![(Place::Socket, identity)],
                None => Seq::empty(),
            };
            let second = if recorded_pid == Some(pid) && pid_identity is Some {
                seq![(Place::Pid, pid_identity->0)]
            } else {
                Seq::empty()
            };
            first + second + seq![(Place::Lock, lock)]
        },
    }
}

/// Lists what has to be removed after a child failed to start.
pub fn failed_child_leftovers(
    pid: u32,
    lock: Option<ArtifactIdentity>,
    socket: Option<ArtifactIdentity>,
    recorded_pid: Option<u32>,
    pid_identity: Option<ArtifactIdentity>,
) -> (r: Vec<(Place, ArtifactIdentity)>)
    ensures
        r@ == leftovers(pid, lock, socket, recorded_pid, pid_identity),
{
    let mut list: Vec<(Place, ArtifactIdentity)> = Vec::new();
    let lock = match lock {
        Some(lock) => lock,
        None => {
            assert(list@ =~= Seq::<(Place, ArtifactIdentity)>::empty());
            return list;
        },
    };
    if let Some(identity) = socket {
        list.push((Place::Socket, identity));
    }
    let recorded = match recorded_pid {
        Some(recorded) => recorded == pid,
        None => false,
    };
    if recorded {
        if let Some(identity) = pid_identity {
            list.push((Place::Pid, identity));
        }
    }
    list.push((Place::Lock, lock));
    assert(list@ =~= leftovers(pid, Some(lock), socket, recorded_pid, pid_identity));
    list
}

/// The next thing to do in starting a worker process.
#[derive(Clone, Copy, Debug, PartialEq, Eq, Structural)]
pub enum SpawnAction {
    ValidateRuntime,
    CaptureEnvironment,
    /// Put the bootstrap into its transferred form.
    Encode,
    LocateExecutable,
    /// Start the process without an inherited environment.
    Start,
    /// Send the bootstrap and wait for the ready byte, within the budget.
    Exchange,
    /// Kill the child, reap it, and remove what it left behind.
    Terminate(u32),
}

/// What came of a [`SpawnAction`].
#[derive(Clone, Copy, Debug, PartialEq, Eq)]
pub enum SpawnReply {
    Done,
    Failed,
    /// The runtime directory has no parent.
    NoParent,
    /// The size of the encoded bootstrap.
    Encoded(usize),
    /// The process identifier, and whether both pipes are there.
    Started { pid: Option<u32>, piped: bool },
    Ready(u8),
    /// The worker closed the pipe without a byte.
    Exited,
    TimedOut,
    Cancelled,
}

/// How far starting a worker process has come.
#[derive(Clone, Copy, Debug, PartialEq, Eq)]
pub enum SpawnFlow {
    Asks(SpawnAction),
    Ready(u32),
    Fails(DaemonSpawnError),
}

/// Starts a worker, and waits until it is ready.
pub open spec fn spawned(injected: bool, budget_empty: bool, replies: Seq<SpawnReply>) -> SpawnFlow {
    if replies.len() == 0 {
        SpawnFlow::Asks(SpawnAction::ValidateRuntime)
    } else if replies[0] !is Done {
        SpawnFlow::Fails(DaemonSpawnError::InvalidPaths)
    } else if budget_empty {
        SpawnFlow::Fails(DaemonSpawnError::ReadyTimeout)
    } else if replies.len() == 1 {
        SpawnFlow::Asks(SpawnAction::CaptureEnvironment)
    } else if replies[1] !is Done {
        SpawnFlow::Fails(DaemonSpawnError::InvalidEnvironment)
    } else if replies.len() == 2 {
        SpawnFlow::Asks(SpawnAction::Encode)
    } else {
        match replies[2] {
            SpawnReply::NoParent => SpawnFlow::Fails(DaemonSpawnError::InvalidPaths),
            SpawnReply::Encoded(length) => if length > WORKER_BOOTSTRAP_MAX_BYTES {
                SpawnFlow::Fails(DaemonSpawnError::SerializeBootstrap)
            } else if injected {
                process_spawned(replies, 3)
            } else if replies.len() == 3 {
                SpawnFlow::Asks(SpawnAction::LocateExecutable)
            } else if replies[3] !is Done {
                SpawnFlow::Fails(DaemonSpawnError::SpawnWorker)
            } else {
                process_spawned(replies, 4)
            },
            _ => SpawnFlow::Fails(DaemonSpawnError::SerializeBootstrap),
        }
    }
}

/// The part behind the bootstrap and the executable.
pub open spec fn process_spawned(replies: Seq<SpawnReply>, at: int) -> SpawnFlow {
    if replies.len() <= at {
        SpawnFlow::Asks(SpawnAction::Start)
    } else {
        match replies[at] {
            SpawnReply::Started { pid: Some(pid), piped } => if !piped {
                SpawnFlow::Fails(DaemonSpawnError::SpawnWorker)
            } else if replies.len() <= at + 1 {
                SpawnFlow::Asks(SpawnAction::Exchange)
            } else {
                match exchange_failure(replies[at + 1]) {
                    None => SpawnFlow::Ready(pid),
                    Some(failure) => if replies.len() <= at + 2 {
                        SpawnFlow::Asks(SpawnAction::Terminate(pid))
                    } else {
                        SpawnFlow::Fails(failure)
                    },
                }
            },
            _ => SpawnFlow::Fails(DaemonSpawnError::SpawnWorker),
        }
    }
}

/// Why a worker did not become ready. Only the ready byte itself is success.
pub open spec fn exchange_failure(reply: SpawnReply) -> Option<DaemonSpawnError> {
    match reply {
        SpawnReply::Ready(byte) => if byte == WORKER_READY_BYTE {
            None
        } else {
            Some(DaemonSpawnError::InvalidReady)
        },
        SpawnReply::Exited => Some(DaemonSpawnError::WorkerExitedBeforeReady),
        SpawnReply::TimedOut => Some(DaemonSpawnError::ReadyTimeout),
        SpawnReply::Cancelled => Some(DaemonSpawnError::Cancelled),
        _ => Some(DaemonSpawnError::TransferBootstrap),
    }
}

fn find_exchange_failure(reply: SpawnReply) -> (r: Option<DaemonSpawnError>)
    ensures
        r == exchange_failure(reply),
{
    match reply {
        SpawnReply::Ready(byte) => {
            if byte == WORKER_READY_BYTE {
                None
            } else {
                Some(DaemonSpawnError::InvalidReady)
            }
        },
        SpawnReply::Exited => Some(DaemonSpawnError::WorkerExitedBeforeReady),
        SpawnReply::TimedOut => Some(DaemonSpawnError::ReadyTimeout),
        SpawnReply::Cancelled => Some(DaemonSpawnError::Cancelled),
        _ => Some(DaemonSpawnError::TransferBootstrap),
    }
}

fn spawn_process(replies: &[SpawnReply], at: usize) -> (r: SpawnFlow)
    requires
        at + 2 <= usize::MAX,
    ensures
        r == process_spawned(replies@, at as int),
{
    if replies.len() <= at {
        return SpawnFlow::Asks(SpawnAction::Start);
    }
    let (pid, piped) = match replies[at] {
        SpawnReply::Started { pid: Some(pid), piped } => (pid, piped),
        _ => return SpawnFlow::Fails(DaemonSpawnError::SpawnWorker),
    };
    if !piped {
        return SpawnFlow::Fails(DaemonSpawnError::SpawnWorker);
    }
    if replies.len() <= at + 1 {
        return SpawnFlow::Asks(SpawnAction::Exchange);
    }
    match find_exchange_failure(replies[at + 1]) {
        None => SpawnFlow::Ready(pid),
        Some(failure) => {
            if replies.len() <= at + 2 {
                SpawnFlow::Asks(SpawnAction::Terminate(pid))
            } else {
                SpawnFlow::Fails(failure)
            }
        },
    }
}

/// Starts a worker, and waits until it is ready. The executable is located
/// unless one was injected; `budget_empty` says that no time is left to start
/// one.
pub fn spawn_worker(injected: bool, budget_empty: bool, replies: &[SpawnReply]) -> (r: SpawnFlow)
    ensures
        r == spawned(injected, budget_empty, replies@),
{
    if replies.len() == 0 {
        return SpawnFlow::Asks(SpawnAction::ValidateRuntime);
    }
    match replies[0] {
        SpawnReply::Done => {},
        _ => return SpawnFlow::Fails(DaemonSpawnError::InvalidPaths),
    }
    if budget_empty {
        return SpawnFlow::Fails(DaemonSpawnError::ReadyTimeout);
    }
    if replies.len() == 1 {
        return SpawnFlow::Asks(SpawnAction::CaptureEnvironment);
    }
    match replies[1] {
        SpawnReply::Done => {},
        _ => return SpawnFlow::Fails(DaemonSpawnError::InvalidEnvironment),
    }
    if replies.len() == 2 {
        return SpawnFlow::Asks(SpawnAction::Encode);
    }
    match replies[2] {
        SpawnReply::NoParent => return SpawnFlow::Fails(DaemonSpawnError::InvalidPaths),
        SpawnReply::Encoded(length) => {
            if length > WORKER_BOOTSTRAP_MAX_BYTES {
                return SpawnFlow::Fails(DaemonSpawnError::SerializeBootstrap);
            }
        },
        _ => return SpawnFlow::Fails(DaemonSpawnError::SerializeBootstrap),
    }
    if injected {
        return spawn_process(replies, 3);
    }
    if replies.len() == 3 {
        return SpawnFlow::Asks(SpawnAction::LocateExecutable);
    }
    match replies[3] {
        SpawnReply::Done => spawn_process(replies, 4),
        _ => SpawnFlow::Fails(DaemonSpawnError::SpawnWorker),
    }
}

/// A worker counts as ready only once exactly the ready byte came from it.
pub proof fn readiness_is_one_byte(
    injected: bool,
    budget_empty: bool,
    replies: Seq<SpawnReply>,
    pid: u32,
)
    requires
        spawned(injected, budget_empty, replies) == SpawnFlow::Ready(pid),
    ensures
        !budget_empty,
        exists|at: int|
            #![trigger replies[at]]
            0 <= at && at + 1 < replies.len() && replies[at] == (SpawnReply::Started {
                pid: Some(pid),
                piped: true,
            }) && replies[at + 1] == SpawnReply::Ready(WORKER_READY_BYTE),
{
    let at: int = if injected {
        3
    } else {
        4
    };
    assert(process_spawned(replies, at) == SpawnFlow::Ready(pid));
    assert(replies[at] == (SpawnReply::Started { pid: Some(pid), piped: true }));
}

/// A child that was started and did not become ready is terminated before the
/// failure is reported.
pub proof fn failed_children_are_terminated(
    replies: Seq<SpawnReply>,
    at: int,
    failure: DaemonSpawnError,
)
    requires
        0 <= at < replies.len(),
        replies[at] matches SpawnReply::Started { pid: Some(pid), piped } && piped,
        process_spawned(replies, at) == SpawnFlow::Fails(failure),
    ensures
        replies.len() > at + 2,
        process_spawned(replies.take(at + 2), at) == SpawnFlow::Asks(
            SpawnAction::Terminate(replies[at]->pid->0),
        ),
{
}

/// A startup takes its steps in order as long as each succeeds: the lock, the
/// signals, the server, the socket, the PID file, the hooks and the ready byte.
pub proof fn startups_take_their_steps_in_order(
    state: WorkerStartup,
    identity: ArtifactIdentity,
    after: WorkerStartup,
    event: StartupEvent,
)
    requires
        call_ensures(WorkerStartup::step, (state, event), after),
        state.fault is None,
    ensures
        state.action is AcquireLock && event == StartupEvent::Locked(identity) ==> after == (
        WorkerStartup { action: StartupAction::WatchSignals, lock: Some(identity), ..state }),
        state.action is WatchSignals && event is Done ==> after == (WorkerStartup {
            action: StartupAction::Connect,
            ..state
        }),
        state.action is Connect && event is Done ==> after == (WorkerStartup {
            action: StartupAction::BindSocket,
            backend: true,
            ..state
        }),
        state.action is BindSocket && event is Done ==> after == (WorkerStartup {
            action: StartupAction::CaptureSocket,
            ..state
        }),
        state.action is CaptureSocket && event == StartupEvent::Captured(Some(identity)) ==> after
            == (WorkerStartup {
            action: StartupAction::InspectPid,
            socket: Some(identity),
            ..state
        }),
        state.action is InspectPid && event is Done ==> after == (WorkerStartup {
            action: StartupAction::DescribeWorker,
            ..state
        }),
        state.action is DescribeWorker && event is Done ==> after == (WorkerStartup {
            action: StartupAction::WriteMetadata,
            ..state
        }),
        state.action is WriteMetadata && event is Done ==> after == (WorkerStartup {
            action: StartupAction::CapturePid,
            ..state
        }),
        state.action is CapturePid && event == StartupEvent::Captured(Some(identity)) ==> after
            == (WorkerStartup {
            action: StartupAction::InstallHooks,
            pid: Some(identity),
            ..state
        }),
        state.action is PublishReady && event is Done ==> after == (WorkerStartup {
            action: StartupAction::Serve,
            ..state
        }),
        state.action is Serve ==> after.action is Finish && (event matches StartupEvent::Served(
            stop,
        ) ==> after.outcome == StartupOutcome::Stopped(stop)) && (event !is Served
            ==> after.outcome == StartupOutcome::Failed(WorkerBootstrapError::Service)),
{
}

/// What a startup fails of is named by the step that failed; the server's failure
/// is told from a signal that came first.
pub proof fn startups_fail_for_their_own_reason(
    state: WorkerStartup,
    event: StartupEvent,
    failure: WorkerBootstrapError,
)
    requires
        startup_step(state, event).outcome == StartupOutcome::Failed(failure),
        state.outcome is Pending,
        state.fault is None,
        state.action !is Finish,
    ensures
        state.action is AcquireLock ==> event == StartupEvent::Failed(failure) || (event !is Failed
            && event !is Locked && failure is UnsafeRuntime),
        state.action is WatchSignals ==> event !is Done && failure is BackendInitialization,
        state.action is Connect ==> event !is Done && (if event is Signalled {
            failure is SignalBeforeReady
        } else {
            failure is BackendInitialization
        }),
        state.action is BindSocket ==> event !is Done && (event == StartupEvent::Failed(failure)
            || (event !is Failed && failure is SocketPublication)),
        state.action is CaptureSocket ==> failure is SocketPublication,
        state.action is InspectPid || state.action is DescribeWorker || state.action
            is WriteMetadata || state.action is CapturePid || state.action is InstallHooks
            ==> failure is MetadataPublication,
        state.action is PublishReady ==> event !is Done && failure is ReadyPublication,
        state.action is Serve ==> event !is Served && failure is Service,
{
}

/// A startup that is made to fail fails at its checkpoint, as if the step behind
/// it had, and at no other.
pub proof fn made_failures_come_at_their_checkpoint(
    state: WorkerStartup,
    event: StartupEvent,
    fault: WorkerStartupFault,
)
    requires
        state.fault == Some(fault),
        state.outcome is Pending,
        startup_step(WorkerStartup { fault: None, ..state }, event).outcome is Pending,
    ensures
        ({
            let next = startup_step(state, event);
            let undisturbed = startup_step(WorkerStartup { fault: None, ..state }, event);
            let fails = (fault is BeforeBackend && undisturbed.action is Connect) || (fault
                is BeforeSocket && undisturbed.action is BindSocket) || (fault is BeforePid
                && undisturbed.action is InspectPid) || (fault is BeforeReady && undisturbed.action
                is InstallHooks);
            &&& state.action is AcquireLock || state.action is WatchSignals || state.action
                is Connect || state.action is BindSocket || state.action is CaptureSocket
                || state.action is InspectPid || state.action is DescribeWorker || state.action
                is WriteMetadata || state.action is CapturePid || state.action is InstallHooks
                || state.action is PublishReady ==> (next.outcome is Failed <==> fails)
            &&& next.outcome is Pending ==> next == WorkerStartup {
                fault: Some(fault),
                ..undisturbed
            }
            &&& next.outcome == StartupOutcome::Failed(WorkerBootstrapError::BackendInitialization)
                ==> fault is BeforeBackend
            &&& next.outcome == StartupOutcome::Failed(WorkerBootstrapError::SocketPublication)
                ==> fault is BeforeSocket
            &&& next.outcome == StartupOutcome::Failed(WorkerBootstrapError::MetadataPublication)
                ==> fault is BeforePid
            &&& next.outcome == StartupOutcome::Failed(WorkerBootstrapError::ReadyPublication)
                ==> fault is BeforeReady
        }),
{
}

/// A failed startup closes its backend, then removes its socket, its PID file and
/// its lock, one step each, and then is done.
pub proof fn failed_startups_release_in_order(state: WorkerStartup, event: StartupEvent)
    requires
        startup_consistent(state),
        state.outcome is Failed,
    ensures
        ({
            let next = startup_step(state, event);
            &&& next.outcome == state.outcome
            &&& state.action is CloseBackend ==> !next.backend && next.socket == state.socket
                && next.pid == state.pid && next.lock == state.lock
            &&& state.action is RemoveSocket ==> next.socket is None && next.pid == state.pid
                && next.lock == state.lock
            &&& state.action is RemovePid ==> next.pid is None && next.lock == state.lock
            &&& state.action is RemoveLock ==> next.lock is None && next.action is Finish
            &&& next.action matches StartupAction::RemoveSocket(identity) ==> state.socket == Some(
                identity,
            )
            &&& next.action matches StartupAction::RemovePid(identity) ==> state.pid == Some(
                identity,
            ) && next.socket is None
            &&& next.action matches StartupAction::RemoveLock(identity) ==> state.lock == Some(
                identity,
            ) && next.socket is None && next.pid is None
            &&& state.action !is Finish && next.action is Finish ==> next.lock is None && next.pid
                is None && next.socket is None && !next.backend
        }),
{
}

/// Whoever fails behind the lock still gives the lock back.
pub proof fn failures_keep_what_is_to_be_released(state: WorkerStartup, event: StartupEvent)
    requires
        startup_consistent(state),
        state.outcome is Pending,
        startup_step(state, event).outcome is Failed,
        state.action !is Serve,
    ensures
        state.lock is Some ==> startup_step(state, event).lock is Some,
        state.socket is Some ==> startup_step(state, event).socket is Some,
        state.pid is Some ==> startup_step(state, event).pid is Some,
{
}

/// What a failed child left behind is removed only where its lock is still its
/// own: the socket, the PID file that records the child, and last the lock.
pub proof fn leftovers_belong_to_the_child(
    pid: u32,
    lock: Option<ArtifactIdentity>,
    socket: Option<ArtifactIdentity>,
    recorded_pid: Option<u32>,
    pid_identity: Option<ArtifactIdentity>,
    r: Vec<(Place, ArtifactIdentity)>,
)
    requires
        call_ensures(
            failed_child_leftovers,
            (pid, lock, socket, recorded_pid, pid_identity),
            r,
        ),
    ensures
        lock is None ==> r@.len() == 0,
        lock matches Some(identity) ==> r@.len() > 0 && r@.last() == (Place::Lock, identity),
        lock is Some ==> (socket matches Some(identity) ==> r@[0] == (Place::Socket, identity)),
        lock is Some && recorded_pid == Some(pid) ==> (pid_identity matches Some(identity)
            ==> r@.len() >= 2 && r@[r@.len() - 2] == (Place::Pid, identity)),
        lock is Some ==> r@.len() == 1 + (if socket is Some {
            1int
        } else {
            0int
        }) + (if recorded_pid == Some(pid) && pid_identity is Some {
            1int
        } else {
            0int
        }),
{
}

/// A child is ready exactly with the byte 1; every other end of the exchange has
/// its own failure.
pub proof fn children_are_ready_with_one_byte(reply: SpawnReply)
    ensures
        exchange_failure(reply) is None <==> reply == SpawnReply::Ready(1),
        reply matches SpawnReply::Ready(byte) ==> byte != 1 ==> exchange_failure(reply) == Some(
            DaemonSpawnError::InvalidReady,
        ),
        reply is Exited <==> exchange_failure(reply) == Some(
            DaemonSpawnError::WorkerExitedBeforeReady,
        ),
        reply is TimedOut <==> exchange_failure(reply) == Some(DaemonSpawnError::ReadyTimeout),
        reply is Cancelled <==> exchange_failure(reply) == Some(DaemonSpawnError::Cancelled),
        exchange_failure(reply) == Some(DaemonSpawnError::TransferBootstrap) <==> !(reply is Ready
            || reply is Exited || reply is TimedOut || reply is Cancelled),
{
}

/// A worker is started once the runtime directory, the environment, the bootstrap
/// and the executable are in order, and each refusal names what is not.
pub proof fn workers_are_started_step_by_step(
    injected: bool,
    budget_empty: bool,
    replies: &[SpawnReply],
    r: SpawnFlow,
    length: usize,
    pid: u32,
)
    requires
        call_ensures(spawn_worker, (injected, budget_empty, replies), r),
    ensures
        replies@.len() == 0 ==> r == SpawnFlow::Asks(SpawnAction::ValidateRuntime),
        replies@.len() > 0 && replies@[0] !is Done ==> r == SpawnFlow::Fails(
            DaemonSpawnError::InvalidPaths,
        ),
        replies@.len() > 0 && replies@[0] is Done && budget_empty ==> r == SpawnFlow::Fails(
            DaemonSpawnError::ReadyTimeout,
        ),
        replies@.len() > 0 && replies@[0] is Done && !budget_empty ==> {
            &&& replies@.len() == 1 ==> r == SpawnFlow::Asks(SpawnAction::CaptureEnvironment)
            &&& replies@.len() > 1 && replies@[1] !is Done ==> r == SpawnFlow::Fails(
                DaemonSpawnError::InvalidEnvironment,
            )
            &&& replies@.len() == 2 && replies@[1] is Done ==> r == SpawnFlow::Asks(
                SpawnAction::Encode,
            )
            &&& replies@.len() > 2 && replies@[1] is Done ==> {
                &&& replies@[2] is NoParent ==> r == SpawnFlow::Fails(
                    DaemonSpawnError::InvalidPaths,
                )
                &&& replies@[2] !is NoParent && replies@[2] !is Encoded ==> r == SpawnFlow::Fails(
                    DaemonSpawnError::SerializeBootstrap,
                )
                &&& replies@[2] == SpawnReply::Encoded(length) && length > 16_777_216 ==> r
                    == SpawnFlow::Fails(DaemonSpawnError::SerializeBootstrap)
                &&& replies@[2] == SpawnReply::Encoded(length) && length <= 16_777_216 ==> {
                    &&& replies@.len() == 3 ==> r == SpawnFlow::Asks(
                        if injected {
                            SpawnAction::Start
                        } else {
                            SpawnAction::LocateExecutable
                        },
                    )
                    &&& !injected && replies@.len() > 3 && replies@[3] !is Done ==> r
                        == SpawnFlow::Fails(DaemonSpawnError::SpawnWorker)
                    &&& !injected && replies@.len() == 4 && replies@[3] is Done ==> r
                        == SpawnFlow::Asks(SpawnAction::Start)
                    &&& injected || (replies@.len() > 3 && replies@[3] is Done) ==> {
                        let at = if injected {
                            3int
                        } else {
                            4int
                        };
                        &&& replies@.len() > at && !(replies@[at] matches SpawnReply::Started {
                            pid: child,
                            piped,
                        } && child is Some && piped) ==> r == SpawnFlow::Fails(
                            DaemonSpawnError::SpawnWorker,
                        )
                        &&& replies@.len() > at && replies@[at] == (SpawnReply::Started {
                            pid: Some(pid),
                            piped: true,
                        }) ==> {
                            &&& replies@.len() == at + 1 ==> r == SpawnFlow::Asks(
                                SpawnAction::Exchange,
                            )
                            &&& replies@.len() > at + 1 && replies@[at + 1] == SpawnReply::Ready(1)
                                ==> r == SpawnFlow::Ready(pid)
                            &&& replies@.len() == at + 2 && replies@[at + 1]
                                != SpawnReply::Ready(1) ==> r == SpawnFlow::Asks(
                                SpawnAction::Terminate(pid),
                            )
                            &&& replies@.len() > at + 2 && replies@[at + 1]
                                != SpawnReply::Ready(1) ==> r is Fails
                        }
                    }
                }
            }
        },
{
}

/// A lock is taken with a file that was not there before, made with mode 0600 and
/// filled; a lock that is there is held by another.
pub proof fn locks_are_new_private_files(
    paths: &DaemonPaths,
    replies: &[FileReply],
    r: StartupFlow<ArtifactIdentity>,
)
    requires
        call_ensures(acquire_lock, (paths, replies), r),
        paths::runtime_dir_checked(paths@, Some(paths@.runtime_identity), replies@, 0) is Gives,
    ensures
        replies@.len() == 2 ==> r == StartupFlow::<ArtifactIdentity>::Asks(
            FileAction::CreateLock(384),
        ),
        replies@.len() > 2 ==> (r == StartupFlow::<ArtifactIdentity>::Fails(
            WorkerBootstrapError::LockHeld,
        ) <==> replies@[2] is Exists),
        replies@.len() > 2 && replies@[2] !is Exists && replies@[2] !is Done ==> r
            == StartupFlow::<ArtifactIdentity>::Fails(WorkerBootstrapError::UnsafeRuntime),
        replies@.len() == 3 && replies@[2] is Done ==> r == StartupFlow::<ArtifactIdentity>::Asks(
            FileAction::FillLock,
        ),
        replies@.len() == 4 && replies@[2] is Done && replies@[3] !is Done ==> r == StartupFlow::<
            ArtifactIdentity,
        >::Asks(FileAction::Remove(Place::Lock)),
        replies@.len() > 4 && replies@[2] is Done && replies@[3] !is Done ==> r == StartupFlow::<
            ArtifactIdentity,
        >::Fails(WorkerBootstrapError::UnsafeRuntime),
        r matches StartupFlow::Gives(identity) ==> replies@.len() > 4 && replies@[2] is Done
            && replies@[3] is Done && paths::captured(paths@, Place::Lock, replies@.skip(4))
            == Flow::Gives(Some(identity)),
{
}

/// A socket is bound only where nothing was, and given mode 0600.
pub proof fn sockets_are_bound_where_nothing_was(
    paths: &DaemonPaths,
    replies: &[FileReply],
    r: StartupFlow<()>,
)
    requires
        call_ensures(bind_worker_socket, (paths, replies), r),
        paths::runtime_dir_checked(paths@, Some(paths@.runtime_identity), replies@, 0) is Gives,
    ensures
        replies@.len() == 2 ==> r == StartupFlow::<()>::Asks(FileAction::Inspect(Place::Socket)),
        replies@.len() == 3 && replies@[2] is Missing ==> r == StartupFlow::<()>::Asks(
            FileAction::BindSocket,
        ),
        replies@.len() == 4 && replies@[2] is Missing && replies@[3] is Done ==> r == StartupFlow::<
            (),
        >::Asks(FileAction::SetMode(Place::Socket, 384)),
        r is Gives <==> replies@.len() > 4 && replies@[2] is Missing && replies@[3] is Done
            && replies@[4] is Done,
        replies@.len() > 2 ==> (r == StartupFlow::<()>::Fails(
            WorkerBootstrapError::SocketPublication,
        ) <==> replies@[2] !is Missing || (replies@.len() > 3 && replies@[3] !is Done) || (
        replies@.len() > 4 && replies@[4] !is Done)),
{
}

/// A lock belongs to a process only where the file stayed the same while it was
/// read and holds exactly the process identifier.
pub proof fn owned_locks_name_their_process(
    paths: &DaemonPaths,
    pid: u32,
    replies: &[FileReply],
    identity: ArtifactIdentity,
)
    requires
        call_ensures(
            owned_lock_for_pid,
            (paths, pid, replies),
            Ownership::Known(Some(identity)),
        ),
    ensures
        replies@.len() > 6,
        replies@[2] matches FileReply::Facts(before) && {
            &&& before.kind is Regular
            &&& before.uid == paths.uid
            &&& replies@[4] matches FileReply::Facts(opened) && files::identity_of(opened)
                == files::identity_of(before)
            &&& replies@[6] matches FileReply::Facts(after) && files::identity_of(after)
                == files::identity_of(before)
        },
        replies@[3] is Done,
        replies@[5] matches FileReply::Bytes(held) && held@ == paths::utf8(
            text::decimal(pid as nat),
        ),
        paths::captured(paths@, Place::Lock, replies@.skip(7)) == Flow::Gives(Some(identity)),
{
}

} // verus!
