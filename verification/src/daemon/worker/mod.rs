//! Per-server Unix daemon worker IPC service and shutdown coordination.
//!
//! Request serving, idle expiry, explicit close, and Unix signals all converge
//! on one shutdown path. That path stops acceptance, cancels and joins clients,
//! closes the backend, and runs identity-bound artifact cleanup exactly once.

pub mod bootstrap;
pub mod service;
pub mod session;
pub mod shutdown;
pub mod startup;
pub mod transfer;

pub use bootstrap::{
    CurrentExecutableDaemonSpawner, DaemonSpawnError, WorkerBootstrapEnvelope,
    WorkerBootstrapError, WorkerStartupFault, TEST_DAEMON_CALL_DELAY_ENV,
    TEST_DAEMON_PING_DELAY_ENV, WORKER_READY_BYTE,
};
pub use service::{IdleActivity, ServiceAction, ServiceEvent, WorkerIpcService};
pub use session::{
    parse_request_frame, BackendReply, ClientSession, ClientStop, RequestError, SessionAction,
    SessionEvent,
};
pub use shutdown::{
    NoopWorkerShutdownHooks, WorkerCleanupError, WorkerError, WorkerShutdownError,
    WorkerShutdownFailure, WorkerShutdownHooks, WorkerShutdownPhase, WorkerShutdownStep,
    WorkerSignal, WorkerStop,
};
