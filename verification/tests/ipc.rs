use mcp_cli::daemon::{
    decode_message, encode_message, parse_operation, parse_outcome, parse_request, parse_response,
    validate_request_id, FrameError, IpcErrorBody, IpcErrorCode, IpcModelError, IpcOperation,
    IpcOutcome, IpcRequest, IpcResponse, WireMessage, IPC_MAX_FRAME_SIZE, IPC_REQUEST_ID_MAX_BYTES,
    IPC_TOOL_NAME_MAX_BYTES,
};
use mcp_cli::domain::JsonObject;
use mcp_cli::json::{parse_json, JsonValue};

fn json(text: &str) -> JsonValue {
    parse_json(text.as_bytes()).expect("valid JSON")
}

fn object(text: &str) -> JsonObject {
    match json(text) {
        JsonValue::Object(object) => object,
        other => panic!("not an object: {other:?}"),
    }
}

fn wire<T: WireMessage>(message: &T) -> JsonValue {
    let bytes = match message.to_wire() {
        Ok(bytes) => bytes,
        Err(failure) => panic!("no wire form: {failure:?}"),
    };
    parse_json(&bytes).expect("the wire form is JSON")
}

fn request_json(operation: IpcOperation) -> JsonValue {
    wire(&IpcRequest::new("request-1", operation).expect("valid request"))
}

#[test]
fn every_operation_uses_the_stable_camel_case_wire_shape_and_round_trips() {
    let operations = [
        (IpcOperation::Ping, json(r#"{"id":"request-1","type":"ping"}"#)),
        (
            IpcOperation::ListTools,
            json(r#"{"id":"request-1","type":"listTools"}"#),
        ),
        (
            IpcOperation::CallTool {
                tool_name: "search".into(),
                args: object(r#"{"query":"rust"}"#),
            },
            json(
                r#"{
                "id":"request-1",
                "type":"callTool",
                "toolName":"search",
                "args":{"query":"rust"}
            }"#,
            ),
        ),
        (
            IpcOperation::GetInstructions,
            json(r#"{"id":"request-1","type":"getInstructions"}"#),
        ),
        (
            IpcOperation::Close,
            json(r#"{"id":"request-1","type":"close"}"#),
        ),
    ];

    for (operation, expected) in operations {
        let request = IpcRequest::new("request-1", operation).expect("valid request");
        let encoded = wire(&request);
        assert_eq!(encoded, expected);
        assert_eq!(parse_request(encoded).expect("deserialize"), request);
    }
}

#[test]
fn request_ids_enforce_utf8_byte_length_and_control_character_grammar() {
    let ascii_max = "a".repeat(IPC_REQUEST_ID_MAX_BYTES);
    assert!(IpcRequest::new(&ascii_max, IpcOperation::Ping).is_ok());
    assert_eq!(
        IpcRequest::new(
            &"a".repeat(IPC_REQUEST_ID_MAX_BYTES + 1),
            IpcOperation::Ping
        ),
        Err(IpcModelError::InvalidId)
    );
    let unicode_max = "界".repeat(42); // 126 UTF-8 bytes
    assert!(IpcRequest::new(&unicode_max, IpcOperation::Ping).is_ok());
    for invalid in ["", "line\nbreak", "nul\0byte"] {
        assert_eq!(
            IpcRequest::new(invalid, IpcOperation::Ping),
            Err(IpcModelError::InvalidId)
        );
    }
}

#[test]
fn requests_deny_unknown_fields_unknown_types_and_invalid_parameters() {
    let invalid = [
        json(r#"{"id":"x","type":"ping","extra":true}"#),
        json(r#"{"id":"x","type":"unknown"}"#),
        json(r#"{"id":"x","type":"callTool","toolName":"tool"}"#),
        json(r#"{"id":"x","type":"callTool","toolName":"","args":{}}"#),
        json(r#"{"id":"x","type":"callTool","toolName":"tool","args":[]}"#),
        json(r#"{"id":"x","type":"callTool","tool_name":"tool","args":{}}"#),
        json(r#"{"type":"ping"}"#),
    ];

    for value in invalid {
        assert!(parse_request(value).is_err());
    }
}

#[test]
fn response_success_and_failure_round_trip_with_same_id() {
    let success = IpcResponse::success("same-id", json(r#"{"tools":[]}"#)).expect("success");
    let failure = IpcResponse::failure("same-id", IpcErrorCode::NotConnected).expect("failure");

    assert_eq!(success.id(), "same-id");
    assert_eq!(failure.id(), "same-id");
    assert_eq!(
        wire(&success),
        json(r#"{"id":"same-id","success":true,"data":{"tools":[]}}"#)
    );
    assert_eq!(
        wire(&failure),
        json(
            r#"{
            "id":"same-id",
            "success":false,
            "error":{"code":"NOT_CONNECTED","message":"Daemon backend is not connected"}
        }"#
        )
    );
    for response in [success, failure] {
        let bytes = response.to_wire().expect("serialize");
        let value = parse_json(&bytes).expect("JSON");
        assert_eq!(parse_response(value).expect("deserialize"), response);
    }
}

#[test]
fn response_outcomes_are_strictly_mutually_exclusive_and_deny_unknown_fields() {
    let invalid = [
        json(r#"{"id":"x","success":true}"#),
        json(
            r#"{"id":"x","success":true,"data":null,"error":{"code":"INTERNAL","message":"Internal daemon error"}}"#,
        ),
        json(r#"{"id":"x","success":false}"#),
        json(
            r#"{"id":"x","success":false,"data":null,"error":{"code":"INTERNAL","message":"Internal daemon error"}}"#,
        ),
        json(r#"{"id":"x","success":false,"error":{"code":"INTERNAL","message":"arbitrary secret"}}"#),
        json(r#"{"id":"x","success":true,"data":null,"extra":1}"#),
        json(r#"{"id":"x","success":"true","data":null}"#),
    ];

    for value in invalid {
        assert!(parse_response(value).is_err());
    }
}

#[test]
fn error_codes_have_stable_spellings_and_canonical_safe_messages() {
    let cases = [
        (IpcErrorCode::InvalidJson, "INVALID_JSON"),
        (IpcErrorCode::MissingId, "MISSING_ID"),
        (IpcErrorCode::UnknownType, "UNKNOWN_TYPE"),
        (IpcErrorCode::InvalidArguments, "INVALID_ARGUMENTS"),
        (IpcErrorCode::NotConnected, "NOT_CONNECTED"),
        (IpcErrorCode::ExecutionError, "EXECUTION_ERROR"),
        (IpcErrorCode::FrameTooLarge, "FRAME_TOO_LARGE"),
        (IpcErrorCode::InvalidUtf8, "INVALID_UTF8"),
        (IpcErrorCode::TruncatedFrame, "TRUNCATED_FRAME"),
        (IpcErrorCode::Internal, "INTERNAL"),
    ];

    for (code, spelling) in cases {
        assert_eq!(code.as_str(), spelling);
        assert_eq!(
            wire(&IpcErrorBody::new(code)).get("code"),
            Some(&json(&format!("\"{spelling}\"")))
        );
        assert!(!code.message().is_empty());
        assert_eq!(IpcErrorCode::from_spelling(spelling), Some(code));
    }
}

fn padded_request(target: usize) -> IpcRequest {
    let base = IpcRequest::new(
        "boundary",
        IpcOperation::CallTool {
            tool_name: "tool".into(),
            args: object(r#"{"padding":""}"#),
        },
    )
    .expect("base request");
    let base_len = base.to_wire().expect("serialize base").len();
    let padding = "a".repeat(target - base_len);
    IpcRequest::new(
        "boundary",
        IpcOperation::CallTool {
            tool_name: "tool".into(),
            args: object(&format!(r#"{{"padding":"{padding}"}}"#)),
        },
    )
    .expect("padded request")
}

fn padded_response(target: usize) -> IpcResponse {
    let base = IpcResponse::success("boundary", json(r#"{"padding":""}"#)).expect("base");
    let base_len = base.to_wire().expect("serialize base").len();
    let padding = "a".repeat(target - base_len);
    IpcResponse::success("boundary", json(&format!(r#"{{"padding":"{padding}"}}"#)))
        .expect("padded response")
}

#[test]
fn request_encoding_and_decoding_enforce_exact_one_mib_boundary() {
    let exact = padded_request(IPC_MAX_FRAME_SIZE);
    let encoded = encode_message(&exact).expect("exact request");
    assert_eq!(encoded.len(), IPC_MAX_FRAME_SIZE + 1);
    assert_eq!(
        decode_message::<IpcRequest>(&encoded[..IPC_MAX_FRAME_SIZE]).expect("decode exact"),
        exact
    );

    let oversized = padded_request(IPC_MAX_FRAME_SIZE + 1);
    assert_eq!(encode_message(&oversized), Err(FrameError::FrameTooLarge));
    let bytes = oversized.to_wire().expect("serialize oversized");
    assert_eq!(
        decode_message::<IpcRequest>(&bytes),
        Err(FrameError::FrameTooLarge)
    );
}

#[test]
fn response_encoding_and_decoding_enforce_exact_one_mib_boundary() {
    let exact = padded_response(IPC_MAX_FRAME_SIZE);
    let encoded = encode_message(&exact).expect("exact response");
    assert_eq!(encoded.len(), IPC_MAX_FRAME_SIZE + 1);
    assert_eq!(
        decode_message::<IpcResponse>(&encoded[..IPC_MAX_FRAME_SIZE]).expect("decode exact"),
        exact
    );

    let oversized = padded_response(IPC_MAX_FRAME_SIZE + 1);
    assert_eq!(encode_message(&oversized), Err(FrameError::FrameTooLarge));
    let bytes = oversized.to_wire().expect("serialize oversized");
    assert_eq!(
        decode_message::<IpcResponse>(&bytes),
        Err(FrameError::FrameTooLarge)
    );
}

#[test]
fn standalone_operation_and_outcome_serde_remain_strict() {
    let operation = IpcOperation::CallTool {
        tool_name: "tool".into(),
        args: JsonObject::new(),
    };
    let value = wire(&operation);
    assert_eq!(
        parse_operation(value).expect("deserialize operation"),
        operation
    );
    assert!(parse_operation(json(r#"{"type":"ping","x":1}"#)).is_err());

    let outcome = IpcOutcome::Success(json("null"));
    let value = wire(&outcome);
    assert_eq!(parse_outcome(value).expect("deserialize outcome"), outcome);
}

#[test]
fn helper_keeps_request_serialization_covered() {
    assert_eq!(
        request_json(IpcOperation::Ping),
        json(r#"{"id":"request-1","type":"ping"}"#)
    );
}

#[test]
fn request_failures_name_the_first_broken_rule() {
    let cases = [
        ("[]", IpcModelError::ExpectedObject),
        (r#"{"type":"ping"}"#, IpcModelError::MissingId),
        (r#"{"id":1,"type":"ping"}"#, IpcModelError::InvalidId),
        (r#"{"id":"","type":"ping"}"#, IpcModelError::InvalidId),
        (r#"{"id":"x"}"#, IpcModelError::MissingType),
        (r#"{"id":"x","type":"wat"}"#, IpcModelError::UnknownType),
        (
            r#"{"id":"x","type":"ping","extra":1}"#,
            IpcModelError::UnknownField,
        ),
        (
            r#"{"id":"x","type":"callTool","toolName":"t","args":[]}"#,
            IpcModelError::InvalidArguments,
        ),
    ];
    for (source, expected) in cases {
        assert_eq!(parse_request(json(source)), Err(expected), "{source}");
    }
    assert_eq!(
        parse_response(json(r#"{"id":"x","success":true}"#)),
        Err(IpcModelError::InvalidOutcome)
    );
    assert_eq!(
        parse_response(json(
            r#"{"id":"x","success":false,"error":{"code":"INTERNAL","message":"else"}}"#
        )),
        Err(IpcModelError::InvalidError)
    );
}

#[test]
fn tool_names_are_bounded_labels() {
    let call = |tool_name: &str| {
        IpcRequest::new(
            "x",
            IpcOperation::CallTool {
                tool_name: tool_name.to_owned(),
                args: JsonObject::new(),
            },
        )
    };
    assert!(call(&"t".repeat(IPC_TOOL_NAME_MAX_BYTES)).is_ok());
    assert_eq!(
        call(&"t".repeat(IPC_TOOL_NAME_MAX_BYTES + 1)),
        Err(IpcModelError::InvalidArguments)
    );
    assert_eq!(call("a\tb"), Err(IpcModelError::InvalidArguments));
    assert_eq!(validate_request_id("ok"), Ok(()));
    assert_eq!(validate_request_id("\u{7f}"), Err(IpcModelError::InvalidId));
}

#[test]
fn parts_are_handed_back_unchanged() {
    let request = IpcRequest::new("r", IpcOperation::Close).expect("request");
    assert_eq!(request.id(), "r");
    assert_eq!(request.operation(), &IpcOperation::Close);
    assert_eq!(request.into_parts(), ("r".to_owned(), IpcOperation::Close));
    let response = IpcResponse::new("r", IpcOutcome::Success(json("1"))).expect("response");
    assert_eq!(response.outcome(), &IpcOutcome::Success(json("1")));
    assert_eq!(
        response.into_parts(),
        ("r".to_owned(), IpcOutcome::Success(json("1")))
    );
}
