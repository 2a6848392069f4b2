use mcp_cli::connection::{ConnectionError, ConnectionErrorKind};
use mcp_cli::daemon::client::{
    connect_failure, daemon_ipc_cap, following_client_id, ipc_close_ack_cap, local_deadline,
    response_error, socket_parent, validate_socket, validate_socket_as, ClientEvent, ClientStep,
    DaemonClient, ExchangeFailure, StageFailure,
};
use mcp_cli::daemon::files::{FileFacts, FileKind};
use mcp_cli::daemon::{
    decode_message, encode_message, FrameError, IpcErrorCode, IpcOperation, IpcRequest,
    IpcResponse, IPC_MAX_FRAME_SIZE,
};
use mcp_cli::domain::JsonObject;
use mcp_cli::json::{parse_json, JsonValue};
use mcp_cli::policy::retry::ErrorClass;
use mcp_cli::runtime::Deadline;
use mcp_cli::time::{Duration, Instant};

fn json(text: &str) -> JsonValue {
    parse_json(text.as_bytes()).expect("valid JSON")
}

fn sent(step: ClientStep) -> IpcRequest {
    match step {
        ClientStep::Send(frame) => {
            assert_eq!(frame.last(), Some(&b'\n'));
            decode_message::<IpcRequest>(&frame[..frame.len() - 1]).expect("a request")
        }
        other => panic!("{other:?}"),
    }
}

fn success(id: &str, data: JsonValue) -> Vec<u8> {
    encode_message(&IpcResponse::success(id, data).expect("response")).expect("frame")
}

fn failure(id: &str, code: IpcErrorCode) -> Vec<u8> {
    encode_message(&IpcResponse::failure(id, code).expect("response")).expect("frame")
}

fn request(client: &mut DaemonClient, operation: IpcOperation) -> String {
    let id = sent(client.begin(operation)).id().to_owned();
    assert_eq!(client.advance(ClientEvent::Written), ClientStep::Receive);
    id
}

fn finished(step: ClientStep) -> (Result<JsonValue, ConnectionError>, bool) {
    match step {
        ClientStep::Finished { result, close } => (result, close),
        other => panic!("{other:?}"),
    }
}

fn operational(message: &str) -> ConnectionError {
    ConnectionError::new(
        ConnectionErrorKind::Classified(ErrorClass::Transient),
        message,
    )
}

fn call(tool_name: &str) -> IpcOperation {
    IpcOperation::CallTool {
        tool_name: tool_name.to_owned(),
        args: JsonObject::new(),
    }
}

#[test]
fn domain_values_are_mapped_and_identifiers_are_unique() {
    let mut client = DaemonClient::connected(7);

    let first = sent(client.begin(IpcOperation::ListTools));
    assert_eq!(first.id(), "dc-0000000000000007-0000000000000001");
    assert_eq!(client.advance(ClientEvent::Written), ClientStep::Receive);
    let tools =
        json(r#"[{"name":"echo","description":null,"input_schema":{"type":"object"}}]"#);
    let answer = ClientEvent::Received(success(first.id(), tools));
    let (result, close) = finished(client.advance(answer));
    assert!(!close);
    let tools = client.tools_answer(&result.unwrap()).unwrap();
    assert_eq!(tools.len(), 1);
    assert_eq!(tools[0].name, "echo");
    assert_eq!(tools[0].description, None);

    let second = sent(client.begin(call("echo")));
    assert_eq!(second.id(), "dc-0000000000000007-0000000000000002");
    assert_eq!(client.advance(ClientEvent::Written), ClientStep::Receive);
    let payload = json(r#"{"content":[{"type":"text"}]}"#);
    let answer = ClientEvent::Received(success(second.id(), payload.clone()));
    assert_eq!(finished(client.advance(answer)), (Ok(payload), false));
    assert!(client.is_open());
}

#[test]
fn responses_may_arrive_in_pieces() {
    let mut client = DaemonClient::connected(1);
    let id = request(&mut client, IpcOperation::Ping);
    let frame = success(&id, JsonValue::text("pong"));
    for byte in &frame[..frame.len() - 1] {
        assert_eq!(
            client.advance(ClientEvent::Received(vec![*byte])),
            ClientStep::Receive
        );
    }
    let (result, close) = finished(client.advance(ClientEvent::Received(vec![b'\n'])));
    assert!(!close);
    assert!(client.ping_answer(&result.unwrap()).is_ok());
}

#[test]
fn a_canonical_daemon_failure_is_mapped_without_its_payload() {
    let mut client = DaemonClient::connected(1);
    let id = request(&mut client, call("fails"));
    let answer = ClientEvent::Received(failure(&id, IpcErrorCode::ExecutionError));
    let (result, close) = finished(client.advance(answer));
    assert!(!close);
    assert_eq!(result, Err(response_error(IpcErrorCode::ExecutionError)));
    assert!(client.is_open());

    for (code, class) in [
        (IpcErrorCode::NotConnected, ErrorClass::Transient),
        (IpcErrorCode::ExecutionError, ErrorClass::Business),
        (IpcErrorCode::Internal, ErrorClass::NonTransient),
    ] {
        assert_eq!(
            response_error(code),
            ConnectionError::new(ConnectionErrorKind::Classified(class), code.message())
        );
    }
}

#[test]
fn wrong_id_half_frame_and_oversized_response_close_the_stream() {
    let mut client = DaemonClient::connected(1);
    request(&mut client, IpcOperation::Ping);
    let wrong = success("different-id", JsonValue::null());
    assert_eq!(
        finished(client.advance(ClientEvent::Received(wrong))),
        (Err(operational("daemon IPC response correlation failed")), true)
    );
    assert!(!client.is_open());

    let mut client = DaemonClient::connected(1);
    let id = request(&mut client, IpcOperation::Ping);
    let partial = format!("{{\"id\":\"{id}\",\"success\":true");
    assert_eq!(
        client.advance(ClientEvent::Received(partial.into_bytes())),
        ClientStep::Receive
    );
    assert_eq!(
        finished(client.advance(ClientEvent::Received(Vec::new()))),
        (Err(operational("daemon IPC response framing failed")), true)
    );
    assert!(!client.is_open());

    let mut client = DaemonClient::connected(1);
    request(&mut client, IpcOperation::Ping);
    let oversized = vec![b'x'; IPC_MAX_FRAME_SIZE + 1];
    assert_eq!(
        finished(client.advance(ClientEvent::Received(oversized))),
        (Err(operational("daemon IPC response framing failed")), true)
    );

    let mut client = DaemonClient::connected(1);
    let id = request(&mut client, IpcOperation::Ping);
    let mut two = success(&id, JsonValue::null());
    two.extend(success(&id, JsonValue::null()));
    assert_eq!(
        finished(client.advance(ClientEvent::Received(two))),
        (Err(operational("daemon IPC response sequence was invalid")), true)
    );

    let mut client = DaemonClient::connected(1);
    request(&mut client, IpcOperation::Ping);
    assert_eq!(
        finished(client.advance(ClientEvent::Received(Vec::new()))),
        (Err(operational("daemon IPC stream ended before a response")), true)
    );
}

#[test]
fn timeouts_and_cancellation_after_the_request_close_the_stream() {
    for (failed, expected) in [
        (
            ExchangeFailure::Timeout,
            ConnectionError::timed_out("daemon IPC request timed out"),
        ),
        (
            ExchangeFailure::Cancelled,
            ConnectionError::cancelled("daemon IPC request was cancelled"),
        ),
        (ExchangeFailure::Io, operational("daemon IPC transport failed")),
        (
            ExchangeFailure::Frame(FrameError::TruncatedFrame),
            operational("daemon IPC response framing failed"),
        ),
    ] {
        let mut client = DaemonClient::connected(1);
        request(&mut client, IpcOperation::ListTools);
        assert_eq!(
            finished(client.advance(ClientEvent::Failed(failed))),
            (Err(expected.clone()), true)
        );
        assert!(!client.is_open());
        assert_eq!(failed.into_connection_error(), expected);
    }
}

#[test]
fn a_closed_client_sends_nothing() {
    let mut client = DaemonClient::connected(1);
    client.abort();
    assert!(!client.is_open());
    assert_eq!(
        finished(client.begin(IpcOperation::Ping)),
        (Err(operational("daemon IPC stream is closed")), false)
    );
}

#[test]
fn unusable_requests_are_not_sent() {
    let mut client = DaemonClient::connected(1);
    assert_eq!(
        finished(client.begin(call(""))),
        (Err(operational("daemon IPC request was invalid")), false)
    );
    assert!(client.is_open());

    let mut args = JsonObject::new();
    args.insert("padding", JsonValue::text(&"x".repeat(IPC_MAX_FRAME_SIZE)));
    let operation = IpcOperation::CallTool {
        tool_name: "big".to_owned(),
        args,
    };
    assert_eq!(
        finished(client.begin(operation)),
        (Err(operational("daemon IPC request framing failed")), true)
    );
    assert!(!client.is_open());
}

#[test]
fn unexpected_answers_close_the_stream() {
    let mut client = DaemonClient::connected(1);
    assert!(client.ping_answer(&JsonValue::text("pong")).is_ok());
    assert!(client.is_open());
    assert!(client.ping_answer(&JsonValue::text("other")).is_err());
    assert!(!client.is_open());

    let mut client = DaemonClient::connected(1);
    assert_eq!(client.instructions_answer(&JsonValue::null()), Ok(None));
    assert_eq!(
        client.instructions_answer(&JsonValue::text("use safely")),
        Ok(Some("use safely".to_owned()))
    );
    assert!(client.is_open());
    assert!(client.instructions_answer(&json("7")).is_err());
    assert!(!client.is_open());

    let mut client = DaemonClient::connected(1);
    assert!(client.tools_answer(&json("{}")).is_err());
    assert!(!client.is_open());

    let mut client = DaemonClient::connected(1);
    assert!(client.shutdown_answer(&JsonValue::text("closing")).is_ok());
    let mut client = DaemonClient::connected(1);
    assert!(client.shutdown_answer(&JsonValue::text("pong")).is_err());
}

#[test]
fn stage_deadlines_are_capped_and_never_start_late() {
    let now = Instant::at(Duration::from_secs(100));
    let after = |seconds: u64| Instant::at(Duration::from_secs(100 + seconds));
    assert_eq!(daemon_ipc_cap(), Duration::from_secs(5));
    assert_eq!(ipc_close_ack_cap(), Duration::from_secs(1));
    assert_eq!(
        local_deadline(false, Deadline::new(after(30)), now, "daemon IPC connection"),
        Ok(after(5))
    );
    assert_eq!(
        local_deadline(false, Deadline::new(after(2)), now, "daemon IPC connection"),
        Ok(after(2))
    );
    assert_eq!(
        local_deadline(false, Deadline::new(now), now, "daemon IPC connection"),
        Err(ConnectionError::timed_out("daemon IPC connection timed out"))
    );
    assert_eq!(
        local_deadline(true, Deadline::new(after(2)), now, "daemon IPC connection"),
        Err(ConnectionError::cancelled("daemon IPC connection was cancelled"))
    );
}

#[test]
fn sockets_are_checked_before_they_are_opened() {
    let facts = |kind, uid| FileFacts {
        kind,
        uid,
        mode: 0o600,
        device: 1,
        inode: 1,
        length: 0,
    };
    let security = |message| {
        Err(ConnectionError::new(
            ConnectionErrorKind::Classified(ErrorClass::NonTransient),
            message,
        ))
    };
    let path = b"/run/mcp-cli-7/x.sock";
    let directory = Some(facts(FileKind::Directory, 7));
    let socket = Some(facts(FileKind::Socket, 7));
    assert_eq!(socket_parent(path), Some(b"/run/mcp-cli-7".to_vec()));
    assert_eq!(validate_socket_as(7, path, directory, socket), Ok(()));
    assert_eq!(
        validate_socket_as(7, b"/", directory, socket),
        security("daemon socket has no parent directory")
    );
    assert_eq!(
        validate_socket_as(7, path, None, socket),
        Err(operational("daemon socket parent is unavailable"))
    );
    assert_eq!(
        validate_socket_as(8, path, directory, socket),
        security("daemon socket parent is unsafe")
    );
    assert_eq!(
        validate_socket_as(7, path, directory, None),
        Err(operational("daemon socket is unavailable"))
    );
    assert_eq!(
        validate_socket_as(7, path, directory, Some(facts(FileKind::Symlink, 7))),
        security("daemon socket is unsafe")
    );
    let uid = rustix::process::getuid().as_raw();
    assert_eq!(
        validate_socket(
            path,
            Some(facts(FileKind::Directory, uid)),
            Some(facts(FileKind::Socket, uid))
        ),
        Ok(())
    );
    assert_eq!(
        validate_socket(
            path,
            Some(facts(FileKind::Directory, uid.wrapping_add(1))),
            socket
        ),
        security("daemon socket parent is unsafe")
    );
}

#[test]
fn connection_stages_have_stable_errors() {
    assert_eq!(
        connect_failure(StageFailure::Io),
        operational("daemon IPC connection failed")
    );
    assert_eq!(
        connect_failure(StageFailure::TimedOut),
        ConnectionError::timed_out("daemon IPC connection timed out")
    );
    assert_eq!(
        connect_failure(StageFailure::Cancelled),
        ConnectionError::cancelled("daemon IPC connection was cancelled")
    );
    assert_eq!(following_client_id(1), Ok(2));
    assert!(following_client_id(u64::MAX).is_err());
}
