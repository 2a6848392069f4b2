use mcp_cli::config::{ConfigHash, ServerDefinition, ServerId, ToolFilterConfig, TransportConfig};
use mcp_cli::daemon::files::ArtifactIdentity;
use mcp_cli::daemon::worker::bootstrap::{
    accepts_bootstrap_length, configured_worker_secrets, duration_millis, worker_fixture_delays,
    worker_parent_environment, worker_startup_cap, WorkerServer, WorkerTransport,
    WORKER_BOOTSTRAP_MAX_BYTES,
};
use mcp_cli::daemon::worker::startup::{
    spawn_worker, SpawnAction, SpawnFlow, SpawnReply, StartupAction, StartupEvent, StartupOutcome,
    WorkerStartup,
};
use mcp_cli::daemon::worker::{
    CurrentExecutableDaemonSpawner, DaemonSpawnError, WorkerBootstrapEnvelope,
    WorkerBootstrapError, WorkerStartupFault, WorkerStop, TEST_DAEMON_CALL_DELAY_ENV,
    TEST_DAEMON_PING_DELAY_ENV, WORKER_READY_BYTE,
};
use mcp_cli::daemon::{DaemonPaths, IpcOperation};
use mcp_cli::domain::{JsonObject, Url};
use mcp_cli::time::Duration;

fn identity(inode: u64) -> ArtifactIdentity {
    ArtifactIdentity { device: 1, inode }
}

fn hooked() -> StartupEvent {
    StartupEvent::Hooked {
        socket: Some(identity(2)),
        pid: Some(identity(3)),
        lock: Some(identity(1)),
    }
}

fn successes() -> Vec<(StartupAction, StartupEvent)> {
    vec![
        (StartupAction::AcquireLock, StartupEvent::Locked(identity(1))),
        (StartupAction::WatchSignals, StartupEvent::Done),
        (StartupAction::Connect, StartupEvent::Done),
        (StartupAction::BindSocket, StartupEvent::Done),
        (
            StartupAction::CaptureSocket,
            StartupEvent::Captured(Some(identity(2))),
        ),
        (StartupAction::InspectPid, StartupEvent::Done),
        (StartupAction::DescribeWorker, StartupEvent::Done),
        (StartupAction::WriteMetadata, StartupEvent::Done),
        (
            StartupAction::CapturePid,
            StartupEvent::Captured(Some(identity(3))),
        ),
        (StartupAction::InstallHooks, hooked()),
        (StartupAction::PublishReady, StartupEvent::Done),
        (
            StartupAction::Serve,
            StartupEvent::Served(WorkerStop::IdleTimeout),
        ),
    ]
}

fn run_to(fault: Option<WorkerStartupFault>, action: StartupAction) -> WorkerStartup {
    let mut startup = WorkerStartup::begin(fault);
    for (due, event) in successes() {
        if startup.action == action {
            break;
        }
        assert_eq!(startup.action, due);
        startup = startup.step(event);
    }
    startup
}

fn release(startup: WorkerStartup) -> (Vec<StartupAction>, StartupOutcome) {
    let mut startup = startup;
    let mut actions = Vec::new();
    while startup.action != StartupAction::Finish {
        actions.push(startup.action);
        startup = startup.step(StartupEvent::Done);
    }
    (actions, startup.outcome)
}

#[test]
fn a_startup_publishes_everything_before_it_is_ready() {
    let startup = run_to(None, StartupAction::Finish);
    assert_eq!(startup.action, StartupAction::Finish);
    assert_eq!(
        startup.outcome,
        StartupOutcome::Stopped(WorkerStop::IdleTimeout)
    );
    let served = run_to(None, StartupAction::Serve).step(StartupEvent::Failed(
        WorkerBootstrapError::Service,
    ));
    assert_eq!(
        served.outcome,
        StartupOutcome::Failed(WorkerBootstrapError::Service)
    );
}

#[test]
fn initialization_failures_send_no_ready_and_remove_owned_artifacts() {
    let lock = StartupAction::RemoveLock(identity(1));
    let socket = StartupAction::RemoveSocket(identity(2));
    let pid = StartupAction::RemovePid(identity(3));
    let close = StartupAction::CloseBackend;
    let failed = StartupEvent::Failed(WorkerBootstrapError::InvalidInput);
    for (action, event, released, error) in [
        (
            StartupAction::WatchSignals,
            failed,
            vec![lock],
            WorkerBootstrapError::BackendInitialization,
        ),
        (
            StartupAction::Connect,
            failed,
            vec![lock],
            WorkerBootstrapError::BackendInitialization,
        ),
        (
            StartupAction::Connect,
            StartupEvent::Signalled,
            vec![lock],
            WorkerBootstrapError::SignalBeforeReady,
        ),
        (
            StartupAction::BindSocket,
            StartupEvent::Failed(WorkerBootstrapError::SocketPublication),
            vec![close, lock],
            WorkerBootstrapError::SocketPublication,
        ),
        (
            StartupAction::CaptureSocket,
            StartupEvent::Captured(None),
            vec![close, lock],
            WorkerBootstrapError::SocketPublication,
        ),
        (
            StartupAction::InspectPid,
            StartupEvent::Present,
            vec![close, socket, lock],
            WorkerBootstrapError::MetadataPublication,
        ),
        (
            StartupAction::DescribeWorker,
            failed,
            vec![socket, lock],
            WorkerBootstrapError::MetadataPublication,
        ),
        (
            StartupAction::WriteMetadata,
            failed,
            vec![close, socket, lock],
            WorkerBootstrapError::MetadataPublication,
        ),
        (
            StartupAction::CapturePid,
            StartupEvent::Captured(None),
            vec![close, socket, lock],
            WorkerBootstrapError::MetadataPublication,
        ),
        (
            StartupAction::InstallHooks,
            failed,
            vec![close, socket, pid, lock],
            WorkerBootstrapError::MetadataPublication,
        ),
        (
            StartupAction::PublishReady,
            failed,
            vec![close, socket, pid, lock],
            WorkerBootstrapError::ReadyPublication,
        ),
    ] {
        let startup = run_to(None, action).step(event);
        assert_eq!(release(startup), (released, StartupOutcome::Failed(error)));
    }
}

#[test]
fn a_held_lock_leaves_nothing_to_release() {
    let startup = WorkerStartup::begin(None)
        .step(StartupEvent::Failed(WorkerBootstrapError::LockHeld));
    assert_eq!(
        release(startup),
        (
            Vec::new(),
            StartupOutcome::Failed(WorkerBootstrapError::LockHeld)
        )
    );
}

#[test]
fn injected_faults_fail_at_their_checkpoint() {
    for (fault, last, error, released) in [
        (
            WorkerStartupFault::BeforeBackend,
            StartupAction::WatchSignals,
            WorkerBootstrapError::BackendInitialization,
            1,
        ),
        (
            WorkerStartupFault::BeforeSocket,
            StartupAction::Connect,
            WorkerBootstrapError::SocketPublication,
            2,
        ),
        (
            WorkerStartupFault::BeforePid,
            StartupAction::CaptureSocket,
            WorkerBootstrapError::MetadataPublication,
            3,
        ),
        (
            WorkerStartupFault::BeforeReady,
            StartupAction::CapturePid,
            WorkerBootstrapError::ReadyPublication,
            4,
        ),
    ] {
        let startup = run_to(Some(fault), last);
        let (_, event) = successes()
            .into_iter()
            .find(|(action, _)| *action == last)
            .unwrap();
        let (actions, outcome) = release(startup.step(event));
        assert_eq!(outcome, StartupOutcome::Failed(error));
        assert_eq!(actions.len(), released);
    }
}

fn spawn(injected: bool, replies: &[SpawnReply]) -> SpawnFlow {
    spawn_worker(injected, false, replies)
}

const STARTED: SpawnReply = SpawnReply::Started {
    pid: Some(77),
    piped: true,
};

#[test]
fn workers_are_ready_after_exactly_the_ready_byte() {
    let replies = [
        SpawnReply::Done,
        SpawnReply::Done,
        SpawnReply::Encoded(512),
        SpawnReply::Done,
        STARTED,
        SpawnReply::Ready(WORKER_READY_BYTE),
    ];
    for (count, action) in [
        (0, SpawnAction::ValidateRuntime),
        (1, SpawnAction::CaptureEnvironment),
        (2, SpawnAction::Encode),
        (3, SpawnAction::LocateExecutable),
        (4, SpawnAction::Start),
        (5, SpawnAction::Exchange),
    ] {
        assert_eq!(spawn(false, &replies[..count]), SpawnFlow::Asks(action));
    }
    assert_eq!(spawn(false, &replies), SpawnFlow::Ready(77));

    let mut injected = replies.to_vec();
    injected.remove(3);
    assert_eq!(
        spawn(true, &injected[..3]),
        SpawnFlow::Asks(SpawnAction::Start)
    );
    assert_eq!(spawn(true, &injected), SpawnFlow::Ready(77));
}

#[test]
fn children_that_do_not_become_ready_are_terminated() {
    for (reply, error) in [
        (SpawnReply::Ready(2), DaemonSpawnError::InvalidReady),
        (SpawnReply::Exited, DaemonSpawnError::WorkerExitedBeforeReady),
        (SpawnReply::TimedOut, DaemonSpawnError::ReadyTimeout),
        (SpawnReply::Cancelled, DaemonSpawnError::Cancelled),
        (SpawnReply::Failed, DaemonSpawnError::TransferBootstrap),
    ] {
        let mut replies = vec![
            SpawnReply::Done,
            SpawnReply::Done,
            SpawnReply::Encoded(512),
            STARTED,
            reply,
        ];
        assert_eq!(
            spawn(true, &replies),
            SpawnFlow::Asks(SpawnAction::Terminate(77))
        );
        replies.push(SpawnReply::Done);
        assert_eq!(spawn(true, &replies), SpawnFlow::Fails(error));
    }
}

#[test]
fn spawning_fails_at_each_step() {
    let done = SpawnReply::Done;
    let failed = SpawnReply::Failed;
    for (replies, error) in [
        (vec![failed], DaemonSpawnError::InvalidPaths),
        (vec![done, failed], DaemonSpawnError::InvalidEnvironment),
        (
            vec![done, done, SpawnReply::NoParent],
            DaemonSpawnError::InvalidPaths,
        ),
        (vec![done, done, failed], DaemonSpawnError::SerializeBootstrap),
        (
            vec![done, done, SpawnReply::Encoded(WORKER_BOOTSTRAP_MAX_BYTES + 1)],
            DaemonSpawnError::SerializeBootstrap,
        ),
        (
            vec![done, done, SpawnReply::Encoded(WORKER_BOOTSTRAP_MAX_BYTES), failed],
            DaemonSpawnError::SpawnWorker,
        ),
        (
            vec![done, done, SpawnReply::Encoded(1), done, failed],
            DaemonSpawnError::SpawnWorker,
        ),
        (
            vec![
                done,
                done,
                SpawnReply::Encoded(1),
                done,
                SpawnReply::Started {
                    pid: Some(77),
                    piped: false,
                },
            ],
            DaemonSpawnError::SpawnWorker,
        ),
    ] {
        assert_eq!(spawn(false, &replies), SpawnFlow::Fails(error));
    }
    assert_eq!(
        spawn_worker(false, true, &[SpawnReply::Done]),
        SpawnFlow::Fails(DaemonSpawnError::ReadyTimeout)
    );
}

fn server(transport: TransportConfig) -> ServerDefinition {
    ServerDefinition {
        name: "fixture".to_owned(),
        id: ServerId("b".repeat(64)),
        config_hash: ConfigHash([0xa5; 32]),
        transport,
        filter: ToolFilterConfig {
            allowed_tools: vec!["read_*".to_owned()],
            disabled_tools: vec!["write".to_owned()],
        },
    }
}

fn stdio(env: &[(&str, &str)]) -> TransportConfig {
    TransportConfig::Stdio {
        command: "/definitely/not/executed".to_owned(),
        args: vec!["--flag".to_owned()],
        env: env
            .iter()
            .map(|(name, value)| (name.to_string(), value.to_string()))
            .collect(),
        cwd: Some(b"/work".to_vec()),
    }
}

fn daemon_paths(runtime_dir: &[u8]) -> DaemonPaths {
    DaemonPaths {
        runtime_dir: runtime_dir.to_vec(),
        socket: Vec::new(),
        pid: Vec::new(),
        lock: Vec::new(),
        uid: 1,
        runtime_identity: identity(1),
    }
}

fn envelope(transport: TransportConfig) -> WorkerBootstrapEnvelope {
    WorkerBootstrapEnvelope::new(
        &server(transport),
        &daemon_paths(b"/tmp/mcp-cli-1"),
        &vec![("PARENT_SECRET".to_owned(), "parent-secret-value".to_owned())],
        Duration::from_secs(60),
        Duration::from_secs(4),
    )
    .expect("envelope")
}

#[test]
fn a_bootstrap_is_taken_over_unchanged() {
    let transport = stdio(&[("TOKEN", "bootstrap-secret")]);
    let envelope = envelope(transport.clone());
    assert_eq!(envelope.runtime_parent, b"/tmp");
    assert_eq!(envelope.idle_timeout_millis, 60_000);
    assert_eq!(envelope.startup_timeout_millis, 4_000);
    let bootstrap = envelope.validate(&"b".repeat(64)).expect("validate");
    assert_eq!(bootstrap.server, server(transport));
    assert_eq!(bootstrap.runtime_parent, b"/tmp");
    assert_eq!(
        bootstrap.parent_environment,
        vec![("PARENT_SECRET".to_owned(), "parent-secret-value".to_owned())]
    );
    assert_eq!(bootstrap.idle_timeout, Duration::from_secs(60));
    assert_eq!(bootstrap.startup_timeout, Duration::from_secs(4));
    assert_eq!(bootstrap.startup_fault, None);

    let http = TransportConfig::Http {
        url: Url::parse("https://example.com/mcp").expect("url"),
        headers: vec![("Authorization".to_owned(), "Bearer x".to_owned())],
    };
    let bootstrap = self::envelope(http.clone())
        .validate(&"b".repeat(64))
        .expect("validate");
    assert_eq!(bootstrap.server, server(http));
}

#[test]
fn bootstraps_are_checked_field_by_field() {
    let id = "b".repeat(64);
    let refuses = |change: &dyn Fn(&mut WorkerBootstrapEnvelope)| {
        let mut envelope = envelope(stdio(&[]));
        change(&mut envelope);
        assert_eq!(
            envelope.validate(&id),
            Err(WorkerBootstrapError::InvalidInput)
        );
    };
    refuses(&|envelope| envelope.version = 2);
    refuses(&|envelope| envelope.idle_timeout_millis = 0);
    refuses(&|envelope| envelope.startup_timeout_millis = 0);
    refuses(&|envelope| envelope.startup_timeout_millis = 5_001);
    refuses(&|envelope| envelope.server.id = "c".repeat(64));
    refuses(&|envelope| envelope.server.config_hash = "A5".repeat(32));
    refuses(&|envelope| envelope.server.config_hash.push('0'));
    refuses(&|envelope| {
        envelope.server.transport = WorkerTransport::Stdio {
            command: String::new(),
            args: Vec::new(),
            env: Vec::new(),
            cwd: None,
        }
    });
    for url in ["not a url", "ftp://example.com/", "http:"] {
        refuses(&|envelope| {
            envelope.server.transport = WorkerTransport::Http {
                url: url.to_owned(),
                headers: Vec::new(),
            }
        });
    }
    assert_eq!(
        WorkerBootstrapEnvelope::new(
            &server(stdio(&[])),
            &daemon_paths(b"/"),
            &Vec::new(),
            Duration::from_secs(1),
            Duration::from_secs(1),
        ),
        Err(DaemonSpawnError::InvalidPaths)
    );
}

#[test]
fn servers_are_written_as_text() {
    let written = WorkerServer::from_definition(&server(stdio(&[("A", "1")])));
    assert_eq!(written.config_hash, "a5".repeat(32));
    assert_eq!(
        written.transport,
        WorkerTransport::Stdio {
            command: "/definitely/not/executed".to_owned(),
            args: vec!["--flag".to_owned()],
            env: vec![("A".to_owned(), "1".to_owned())],
            cwd: Some(b"/work".to_vec()),
        }
    );
    let url = Url::parse("HTTP://Example.com").expect("url");
    let written = WorkerServer::from_definition(&server(TransportConfig::Http {
        url,
        headers: Vec::new(),
    }));
    assert_eq!(
        written.transport,
        WorkerTransport::Http {
            url: "http://example.com/".to_owned(),
            headers: Vec::new(),
        }
    );
}

#[test]
fn spans_are_clamped_to_milliseconds() {
    assert_eq!(duration_millis(Duration::zero()), 1);
    assert_eq!(duration_millis(Duration::from_nanos(999_999)), 1);
    assert_eq!(duration_millis(Duration::from_nanos(2_999_999)), 2);
    assert_eq!(duration_millis(Duration::from_secs(5)), 5_000);
    assert_eq!(duration_millis(Duration::max()), u64::MAX);
    assert_eq!(worker_startup_cap(), Duration::from_secs(5));
    assert!(!accepts_bootstrap_length(0));
    assert!(accepts_bootstrap_length(1));
    assert!(accepts_bootstrap_length(WORKER_BOOTSTRAP_MAX_BYTES));
    assert!(!accepts_bootstrap_length(WORKER_BOOTSTRAP_MAX_BYTES + 1));
}

#[test]
fn environments_are_textual_and_ordered() {
    let entry = |name: &str, value: &str| (Some(name.to_owned()), Some(value.to_owned()));
    assert_eq!(
        worker_parent_environment(vec![
            entry("PATH", "/bin"),
            entry("HOME", "/root"),
            entry("PATH", "/usr/bin"),
            entry("LANG", "C"),
        ]),
        Ok(vec![
            ("HOME".to_owned(), "/root".to_owned()),
            ("LANG".to_owned(), "C".to_owned()),
            ("PATH".to_owned(), "/usr/bin".to_owned()),
        ])
    );
    assert_eq!(
        worker_parent_environment(vec![entry("A", "1"), (Some("B".to_owned()), None)]),
        Err(DaemonSpawnError::InvalidEnvironment)
    );
    assert_eq!(
        worker_parent_environment(vec![(None, Some("1".to_owned()))]),
        Err(DaemonSpawnError::InvalidEnvironment)
    );
}

#[test]
fn workers_redact_what_their_server_is_configured_with() {
    let secrets = configured_worker_secrets(&server(stdio(&[("TOKEN", "secret-value")])));
    assert_eq!(secrets.redact("token=secret-value"), "token=[REDACTED]");
}

#[test]
fn fixture_delays_come_from_the_configured_environment() {
    let delays = worker_fixture_delays(&server(stdio(&[
        (TEST_DAEMON_CALL_DELAY_ENV, "250"),
        (TEST_DAEMON_PING_DELAY_ENV, "soon"),
    ])));
    assert_eq!(delays.call, Duration::from_millis(250));
    assert_eq!(delays.ping, Duration::zero());
    assert_eq!(
        delays.before_request(&IpcOperation::CallTool {
            tool_name: "x".to_owned(),
            args: JsonObject::new(),
        }),
        Duration::from_millis(250)
    );
    assert_eq!(
        delays.before_request(&IpcOperation::ListTools),
        Duration::zero()
    );
}

#[test]
fn spawners_remember_what_they_were_given() {
    let spawner = CurrentExecutableDaemonSpawner::new(Duration::from_secs(9));
    assert_eq!(spawner.executable, None);
    assert_eq!(spawner.idle_timeout, Duration::from_secs(9));
    let spawner = CurrentExecutableDaemonSpawner::with_executable(
        b"/bin/mcp-cli".to_vec(),
        Duration::from_secs(9),
    )
    .with_startup_fault(WorkerStartupFault::BeforePid);
    assert_eq!(spawner.executable, Some(b"/bin/mcp-cli".to_vec()));
    assert_eq!(spawner.startup_fault, Some(WorkerStartupFault::BeforePid));
}

#[test]
fn startup_errors_hold_no_payload() {
    for (error, text) in [
        (
            WorkerBootstrapError::InvalidInput,
            "invalid daemon worker bootstrap",
        ),
        (
            WorkerBootstrapError::LockHeld,
            "daemon worker already starting or running",
        ),
        (
            WorkerBootstrapError::Service,
            "daemon worker service failed",
        ),
    ] {
        assert_eq!(error.display_text(), text);
    }
    for (error, text) in [
        (
            DaemonSpawnError::InvalidEnvironment,
            "daemon environment snapshot is invalid",
        ),
        (
            DaemonSpawnError::InvalidReady,
            "daemon worker returned an invalid ready token",
        ),
        (
            DaemonSpawnError::Cancelled,
            "daemon startup was cancelled",
        ),
    ] {
        assert_eq!(error.display_text(), text);
    }
}

#[test]
fn bootstraps_survive_their_text() {
    let http = TransportConfig::Http {
        url: Url::parse("https://example.com/mcp").expect("url"),
        headers: vec![
            ("Authorization".to_owned(), "Bearer x".to_owned()),
            ("X-Trace".to_owned(), "\"quoted\" \u{e9}".to_owned()),
        ],
    };
    for transport in [stdio(&[]), stdio(&[("A", "1"), ("B", "")]), http] {
        let written = envelope(transport);
        let encoded = written.to_json().expect("text");
        assert!(encoded.starts_with(b"{\"version\":1,\"runtime_parent\":\"/tmp\",\"server\":{"));
        assert_eq!(
            WorkerBootstrapEnvelope::from_json(&encoded, true),
            Ok(written)
        );
        assert_eq!(
            WorkerBootstrapEnvelope::from_json(&encoded, false),
            Err(WorkerBootstrapError::InvalidInput)
        );
    }
    let mut foreign = envelope(stdio(&[]));
    foreign.runtime_parent = b"/tmp/\xff".to_vec();
    assert_eq!(
        foreign.to_json(),
        Err(DaemonSpawnError::SerializeBootstrap)
    );
    let mut foreign = envelope(stdio(&[]));
    if let WorkerTransport::Stdio { cwd, .. } = &mut foreign.server.transport {
        *cwd = Some(b"/work/\xff".to_vec());
    }
    assert_eq!(
        foreign.to_json(),
        Err(DaemonSpawnError::SerializeBootstrap)
    );
}

#[test]
fn bootstrap_text_is_read_field_by_field() {
    let read = |transport: &str, filter: &str, rest: &str| {
        let text = format!(
            r#"{{"version":1,"runtime_parent":"/tmp","server":{{"name":"n","id":"i",
            "config_hash":"h","transport":{transport},"filter":{filter}}},
            "parent_environment":{{"B":"2","A":"1","B":"3"}},"idle_timeout_millis":1,
            "startup_timeout_millis":2{rest}}}"#
        );
        WorkerBootstrapEnvelope::from_json(text.as_bytes(), true)
    };
    let filter = r#"{"allowed_tools":[],"disabled_tools":["x"]}"#;
    let program = WorkerTransport::Stdio {
        command: "c".to_owned(),
        args: vec!["a".to_owned()],
        env: Vec::new(),
        cwd: None,
    };
    let service = WorkerTransport::Http {
        url: "u".to_owned(),
        headers: vec![("H".to_owned(), "v".to_owned())],
    };
    for (transport, expected) in [
        (
            r#"{"kind":"Stdio","command":"c","args":["a"],"env":{},"cwd":null}"#,
            &program,
        ),
        (
            r#"{"other":1,"env":{},"args":["a"],"command":"c","kind":"Stdio"}"#,
            &program,
        ),
        (r#"["Stdio","c",["a"],{},null]"#, &program),
        (r#"{"kind":"Http","url":"u","headers":{"H":"v"}}"#, &service),
        (r#"["Http","u",{"H":"v"}]"#, &service),
    ] {
        let envelope = read(transport, filter, "").expect("bootstrap");
        assert_eq!(envelope.server.transport, *expected);
        assert_eq!(envelope.server.filter.disabled_tools, ["x"]);
        assert_eq!(
            envelope.parent_environment,
            vec![
                ("A".to_owned(), "1".to_owned()),
                ("B".to_owned(), "3".to_owned())
            ]
        );
    }
    assert!(read(r#"["Http","u",{}]"#, r#"[[],["x"]]"#, "").is_ok());

    let invalid = Err(WorkerBootstrapError::InvalidInput);
    for transport in [
        r#"{"command":"c","args":[],"env":{}}"#,
        r#"{"kind":"stdio","command":"c","args":[],"env":{}}"#,
        r#"{"kind":"Stdio","command":"c","args":[1],"env":{}}"#,
        r#"{"kind":"Stdio","command":"c","args":[],"env":{"A":1}}"#,
        r#"{"kind":"Stdio","command":"c","args":[],"env":{},"cwd":7}"#,
        r#"{"kind":"Http","url":"u"}"#,
        r#"["Stdio","c",[],{}]"#,
        r#"["Http","u",{},null]"#,
        "7",
    ] {
        assert_eq!(read(transport, filter, ""), invalid);
    }
    let http = r#"["Http","u",{}]"#;
    assert_eq!(read(http, r#"{"allowed_tools":[]}"#, ""), invalid);
    assert_eq!(read(http, r#"[[],[],[]]"#, ""), invalid);
    assert_eq!(read(http, filter, r#","secret":1"#), invalid);
    assert_eq!(WorkerBootstrapEnvelope::from_json(b"", true), invalid);
    assert_eq!(WorkerBootstrapEnvelope::from_json(b"[]", true), invalid);
    assert_eq!(
        WorkerBootstrapEnvelope::from_json(b"not json", true),
        invalid
    );
}
