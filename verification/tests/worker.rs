use mcp_cli::daemon::worker::shutdown::{conclude, ShutdownAction, ShutdownEvent, ShutdownRun};
use mcp_cli::daemon::worker::{
    parse_request_frame, BackendReply, ClientSession, ClientStop, IdleActivity,
    NoopWorkerShutdownHooks, ServiceAction, ServiceEvent, SessionAction, SessionEvent,
    WorkerCleanupError, WorkerError, WorkerIpcService, WorkerShutdownFailure, WorkerShutdownHooks,
    WorkerShutdownPhase, WorkerShutdownStep, WorkerSignal, WorkerStop,
};
use mcp_cli::daemon::{
    decode_message, IpcErrorCode, IpcOperation, IpcOutcome, IpcResponse, IPC_MAX_FRAME_SIZE,
};
use mcp_cli::domain::ToolInfo;
use mcp_cli::json::{parse_json, JsonValue};
use mcp_cli::time::{Duration, Instant};

fn json(text: &str) -> JsonValue {
    parse_json(text.as_bytes()).expect("valid JSON")
}

fn at(seconds: u64) -> Instant {
    Instant::at(Duration::from_secs(seconds))
}

fn written(action: &SessionAction) -> IpcResponse {
    match action {
        SessionAction::Write(frame) => {
            decode_message::<IpcResponse>(&frame[..frame.len() - 1]).expect("a response")
        }
        other => panic!("{other:?}"),
    }
}

fn received(session: &mut ClientSession, text: &str) -> SessionAction {
    session.step(SessionEvent::Received(text.as_bytes().to_vec()))
}

fn success(id: &str, data: JsonValue) -> IpcResponse {
    IpcResponse::success(id, data).expect("response")
}

fn failure(id: &str, code: IpcErrorCode) -> IpcResponse {
    IpcResponse::failure(id, code).expect("response")
}

#[test]
fn all_operations_are_served_in_client_order_and_identifiers_are_preserved() {
    let mut session = ClientSession::new();
    let tool = ToolInfo {
        name: "echo".to_owned(),
        description: Some("Echo input".to_owned()),
        input_schema: json(r#"{"type":"object"}"#),
    };
    let mut action = received(
        &mut session,
        concat_requests(&[
            r#"{"id":"p","type":"ping"}"#,
            r#"{"id":"l","type":"listTools"}"#,
            r#"{"id":"c","type":"callTool","toolName":"echo","args":{"x":1}}"#,
            r#"{"id":"i","type":"getInstructions"}"#,
            r#"{"id":"z","type":"close"}"#,
        ])
        .as_str(),
    );
    let content = json(r#"{"content":[{"type":"text"}]}"#);
    let replies = [
        (BackendReply::Nothing, success("p", JsonValue::text("pong"))),
        (
            BackendReply::Tools(vec![tool]),
            success(
                "l",
                json(
                    r#"[{"name":"echo","description":"Echo input","input_schema":{"type":"object"}}]"#,
                ),
            ),
        ),
        (BackendReply::Value(content.clone()), success("c", content)),
        (
            BackendReply::Instructions(Some("use safely".to_owned())),
            success("i", JsonValue::text("use safely")),
        ),
        (BackendReply::Nothing, success("z", JsonValue::text("closing"))),
    ];
    for (reply, response) in replies {
        assert_eq!(action, SessionAction::Execute);
        assert_eq!(session.request().expect("request").id(), response.id());
        action = session.step(SessionEvent::Executed(reply));
        assert_eq!(written(&action), response);
        action = session.step(SessionEvent::Written);
    }
    assert_eq!(action, SessionAction::Stop(ClientStop::CloseRequested));
}

fn concat_requests(requests: &[&str]) -> String {
    let mut text = String::new();
    for request in requests {
        text.push_str(request);
        text.push('\n');
    }
    text
}

#[test]
fn request_errors_are_stable_and_the_same_client_recovers() {
    let mut session = ClientSession::new();
    let mut action = received(
        &mut session,
        concat_requests(&[
            "{bad}",
            r#"{"type":"ping"}"#,
            r#"{"id":"unknown","type":"wat"}"#,
            r#"{"id":"args","type":"callTool","toolName":"x","args":["Bearer-do-not-reflect"]}"#,
            r#"{"id":"ok","type":"ping"}"#,
        ])
        .as_str(),
    );
    for (id, code) in [
        ("", IpcErrorCode::InvalidJson),
        ("", IpcErrorCode::MissingId),
        ("unknown", IpcErrorCode::UnknownType),
        ("args", IpcErrorCode::InvalidArguments),
    ] {
        assert_eq!(written(&action), failure(id, code));
        action = session.step(SessionEvent::Written);
    }
    assert_eq!(action, SessionAction::Execute);
    action = session.step(SessionEvent::Executed(BackendReply::Nothing));
    assert_eq!(written(&action), success("ok", JsonValue::text("pong")));
    assert_eq!(session.step(SessionEvent::Written), SessionAction::Read);
}

#[test]
fn request_frames_are_parsed_in_a_fixed_order() {
    let request = parse_request_frame(br#"{"id":"a","type":"ping"}"#).ok().unwrap();
    assert_eq!(request.id(), "a");
    assert_eq!(request.operation(), &IpcOperation::Ping);
    for (frame, id, code) in [
        ("nonsense", "", IpcErrorCode::InvalidJson),
        ("[]", "", IpcErrorCode::MissingId),
        (r#"{"type":"ping"}"#, "", IpcErrorCode::MissingId),
        (r#"{"id":7,"type":"ping"}"#, "", IpcErrorCode::InvalidArguments),
        (r#"{"id":"","type":"ping"}"#, "", IpcErrorCode::InvalidArguments),
        (r#"{"id":"a"}"#, "a", IpcErrorCode::UnknownType),
        (r#"{"id":"a","type":7}"#, "a", IpcErrorCode::UnknownType),
        (
            r#"{"id":"a","type":"ping","extra":1}"#,
            "a",
            IpcErrorCode::InvalidArguments,
        ),
    ] {
        let error = parse_request_frame(frame.as_bytes()).err().unwrap();
        assert_eq!((error.id.as_str(), error.code), (id, code));
    }
}

#[test]
fn backend_failures_return_the_canonical_error() {
    let mut session = ClientSession::new();
    received(
        &mut session,
        "{\"id\":\"call\",\"type\":\"callTool\",\"toolName\":\"echo\",\"args\":{}}\n",
    );
    let action = session.step(SessionEvent::Executed(BackendReply::Failed));
    assert_eq!(
        written(&action),
        failure("call", IpcErrorCode::ExecutionError)
    );
}

#[test]
fn an_oversized_response_is_replaced_and_ends_only_that_client() {
    let mut session = ClientSession::new();
    received(
        &mut session,
        "{\"id\":\"large\",\"type\":\"callTool\",\"toolName\":\"big\",\"args\":{}}\n",
    );
    let padding = JsonValue::text(&"x".repeat(IPC_MAX_FRAME_SIZE));
    let action = session.step(SessionEvent::Executed(BackendReply::Value(padding)));
    assert_eq!(written(&action), failure("large", IpcErrorCode::FrameTooLarge));
    assert_eq!(
        session.step(SessionEvent::Written),
        SessionAction::Stop(ClientStop::Disconnected)
    );
}

#[test]
fn an_oversized_request_ends_only_that_client() {
    let mut session = ClientSession::new();
    let oversized = vec![b'x'; IPC_MAX_FRAME_SIZE + 1];
    assert_eq!(
        session.step(SessionEvent::Received(oversized)),
        SessionAction::Stop(ClientStop::Disconnected)
    );
    let mut good = ClientSession::new();
    assert_eq!(
        received(&mut good, "{\"id\":\"good\",\"type\":\"ping\"}\n"),
        SessionAction::Execute
    );
}

#[test]
fn a_disconnect_ends_the_execution_in_flight() {
    for event in [
        SessionEvent::Received(Vec::new()),
        SessionEvent::Failed,
        SessionEvent::Cancelled,
    ] {
        let mut session = ClientSession::new();
        assert_eq!(
            received(&mut session, "{\"id\":\"blocked\",\"type\":\"listTools\"}\n"),
            SessionAction::Execute
        );
        assert_eq!(
            session.step(event),
            SessionAction::Stop(ClientStop::Disconnected)
        );
        assert!(session.request().is_none());
    }
}

#[test]
fn requests_that_arrive_meanwhile_wait_their_turn() {
    let mut session = ClientSession::new();
    assert_eq!(
        received(&mut session, "{\"id\":\"slow\",\"type\":\"listTools\"}\n"),
        SessionAction::Execute
    );
    assert_eq!(
        received(&mut session, "{\"id\":\"after\",\"type\":\"ping\"}\n"),
        SessionAction::Execute
    );
    assert_eq!(session.request().unwrap().id(), "slow");
    let mut activity = IdleActivity::new();
    let action = session.executed(BackendReply::Tools(Vec::new()), at(3), &mut activity);
    assert_eq!(written(&action), success("slow", json("[]")));
    assert_eq!(activity.drain_completions(), vec![at(3)]);
    assert_eq!(session.step(SessionEvent::Written), SessionAction::Execute);
    assert_eq!(session.request().unwrap().id(), "after");
    assert!(matches!(
        written(&session.step(SessionEvent::Executed(BackendReply::Nothing))).outcome(),
        IpcOutcome::Success(_)
    ));
}

#[test]
fn completions_are_drained_once_and_in_order() {
    let mut activity = IdleActivity::new();
    for seconds in [5, 3, 9, 3] {
        activity.record_completion(at(seconds));
    }
    assert_eq!(
        activity.drain_completions(),
        vec![at(3), at(3), at(5), at(9)]
    );
    assert!(activity.drain_completions().is_empty());
}

#[test]
fn only_completed_requests_extend_the_idle_deadline() {
    let mut service = WorkerIpcService::starting_at(at(0), Duration::from_secs(10));
    let mut activity = IdleActivity::new();
    assert_eq!(service.idle_deadline(), at(10));

    // Connections, invalid requests, and partial frames complete nothing.
    assert_eq!(service.poll(&mut activity, at(9)), ServiceAction::Wait);
    assert_eq!(service.idle_deadline(), at(10));

    activity.record_completion(at(6));
    assert_eq!(service.poll(&mut activity, at(7)), ServiceAction::Wait);
    assert_eq!(service.idle_deadline(), at(16));

    // A chain of completions extends from each completion's own time.
    activity.record_completion(at(24));
    activity.record_completion(at(15));
    assert_eq!(service.poll(&mut activity, at(30)), ServiceAction::Wait);
    assert_eq!(service.idle_deadline(), at(34));

    assert_eq!(
        service.poll(&mut activity, at(34)),
        ServiceAction::Stop(WorkerStop::IdleTimeout)
    );
}

#[test]
fn a_completion_at_or_after_the_deadline_cannot_revive_the_worker() {
    for late in [10, 11] {
        let mut service = WorkerIpcService::starting_at(at(0), Duration::from_secs(10));
        let mut activity = IdleActivity::new();
        activity.record_completion(at(late));
        assert_eq!(
            service.poll(&mut activity, at(late)),
            ServiceAction::Stop(WorkerStop::IdleTimeout)
        );
        assert_eq!(service.idle_deadline(), at(10));
    }
}

#[test]
fn events_end_the_service_or_are_isolated() {
    let service = WorkerIpcService::starting_at(at(0), Duration::from_secs(10));
    for (event, action) in [
        (
            ServiceEvent::CloseAcknowledged,
            ServiceAction::Stop(WorkerStop::CloseRequested),
        ),
        (ServiceEvent::ClientEnded, ServiceAction::Wait),
        (
            ServiceEvent::Signal(WorkerSignal::Interrupt),
            ServiceAction::Stop(WorkerStop::SignalInterrupt),
        ),
        (
            ServiceEvent::Signal(WorkerSignal::Terminate),
            ServiceAction::Stop(WorkerStop::SignalTerminate),
        ),
        (ServiceEvent::Activity, ServiceAction::Wait),
        (ServiceEvent::Elapsed, ServiceAction::Wait),
        (ServiceEvent::Accepted, ServiceAction::Serve),
        (
            ServiceEvent::AcceptFailed,
            ServiceAction::Stop(WorkerStop::AcceptFailure),
        ),
    ] {
        assert_eq!(service.handle(event), action);
    }
}

#[derive(Default)]
struct CountingHooks {
    calls: Vec<&'static str>,
    phases: Vec<WorkerShutdownPhase>,
    failing: bool,
}

impl CountingHooks {
    fn call(&mut self, name: &'static str) -> Result<(), WorkerCleanupError> {
        self.calls.push(name);
        if self.failing {
            Err(WorkerCleanupError::new())
        } else {
            Ok(())
        }
    }
}

impl WorkerShutdownHooks for CountingHooks {
    fn remove_socket(&mut self) -> Result<(), WorkerCleanupError> {
        self.call("socket")
    }

    fn remove_pid(&mut self) -> Result<(), WorkerCleanupError> {
        self.call("pid")
    }

    fn release_lock(&mut self) -> Result<(), WorkerCleanupError> {
        self.call("lock")
    }

    fn observe_phase(&mut self, phase: WorkerShutdownPhase) {
        self.phases.push(phase);
    }
}

fn drained(run: &mut ShutdownRun, events: &[ShutdownEvent]) {
    for event in events {
        run.advance(*event);
    }
}

#[test]
fn every_trigger_reaches_one_ordered_closed_state() {
    for stop in [
        WorkerStop::CloseRequested,
        WorkerStop::IdleTimeout,
        WorkerStop::SignalInterrupt,
        WorkerStop::SignalTerminate,
        WorkerStop::AcceptFailure,
    ] {
        let mut hooks = CountingHooks::default();
        let mut run = ShutdownRun::begin(stop);
        let mut actions = vec![run.action()];
        let mut observed = 0;
        for event in [
            ShutdownEvent::Done,
            ShutdownEvent::Done,
            ShutdownEvent::NoClient,
            ShutdownEvent::Done,
        ] {
            observed = run.announce(observed, &mut hooks);
            run.advance(event);
            actions.push(run.action());
        }
        assert_eq!(run.announce(observed, &mut hooks), 5);
        assert_eq!(
            actions,
            vec![
                ShutdownAction::StopAccept,
                ShutdownAction::CancelClients,
                ShutdownAction::JoinClient,
                ShutdownAction::CloseBackend,
                ShutdownAction::RemoveSocket,
            ]
        );
        run.clean_up(&mut hooks);
        assert_eq!(run.action(), ShutdownAction::Finish);
        assert_eq!(hooks.calls, vec!["socket", "pid", "lock"]);
        assert_eq!(
            run.phases(),
            [
                WorkerShutdownPhase::Draining(stop),
                WorkerShutdownPhase::AcceptStopped,
                WorkerShutdownPhase::ClientsCancelled,
                WorkerShutdownPhase::ClientsJoined,
                WorkerShutdownPhase::BackendClosed,
                WorkerShutdownPhase::SocketCleaned,
                WorkerShutdownPhase::PidCleaned,
                WorkerShutdownPhase::LockReleased,
                WorkerShutdownPhase::Closed(stop),
            ]
        );
        assert_eq!(hooks.phases, run.phases());
        assert!(run.finish().is_ok());
    }
}

#[test]
fn cleanup_failures_are_aggregated_without_skipping_or_repeating_steps() {
    let mut hooks = CountingHooks {
        failing: true,
        ..CountingHooks::default()
    };
    let mut run = ShutdownRun::begin(WorkerStop::SignalTerminate);
    drained(
        &mut run,
        &[
            ShutdownEvent::Done,
            ShutdownEvent::Done,
            ShutdownEvent::NoClient,
            ShutdownEvent::Failed,
        ],
    );
    run.clean_up(&mut hooks);
    assert_eq!(hooks.calls, vec!["socket", "pid", "lock"]);
    let error = run.finish().expect_err("shutdown failures must be reported");
    assert_eq!(error.stop(), WorkerStop::SignalTerminate);
    let steps: Vec<_> = error.failures().iter().map(|failure| failure.step()).collect();
    assert_eq!(
        steps,
        vec![
            WorkerShutdownStep::BackendClose,
            WorkerShutdownStep::SocketCleanup,
            WorkerShutdownStep::PidCleanup,
            WorkerShutdownStep::LockRelease,
        ]
    );
    assert_eq!(
        error.display_text(),
        "daemon shutdown completed with failures in MCP backend close, socket cleanup, PID cleanup, lock release"
    );
    assert!(matches!(
        conclude(WorkerStop::SignalTerminate, false, Err(error)),
        Err(WorkerError::Shutdown(_))
    ));
}

#[test]
fn client_failures_are_recorded_one_by_one() {
    let mut run = ShutdownRun::begin(WorkerStop::IdleTimeout);
    drained(
        &mut run,
        &[
            ShutdownEvent::Done,
            ShutdownEvent::Done,
            ShutdownEvent::Done,
            ShutdownEvent::Failed,
            ShutdownEvent::Failed,
            ShutdownEvent::NoClient,
            ShutdownEvent::StillShared,
        ],
    );
    run.clean_up(&mut NoopWorkerShutdownHooks);
    let error = run.finish().unwrap_err();
    assert!(matches!(
        error.failures(),
        [
            WorkerShutdownFailure::ClientJoin,
            WorkerShutdownFailure::ClientJoin,
            WorkerShutdownFailure::BackendOwnership,
        ]
    ));
    assert_eq!(
        error.display_text(),
        "daemon shutdown completed with failures in client task join, client task join, MCP backend close"
    );
}

#[test]
fn accept_failures_are_reported_beside_the_shutdown() {
    assert!(matches!(
        conclude(WorkerStop::AcceptFailure, true, Ok(())),
        Err(WorkerError::Accept)
    ));
    assert!(matches!(
        conclude(WorkerStop::CloseRequested, false, Ok(())),
        Ok(WorkerStop::CloseRequested)
    ));
    assert_eq!(WorkerError::Accept.display_text(), "daemon IPC accept failed");
    assert_eq!(
        WorkerCleanupError::new().display_text(),
        "worker artifact cleanup failed"
    );
    assert_eq!(WorkerSignal::Interrupt.stop(), WorkerStop::SignalInterrupt);
}
