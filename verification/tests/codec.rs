use mcp_cli::daemon::codec::{CARRIAGE_RETURN, LINE_FEED};
use mcp_cli::daemon::{
    decode_message, encode_message, FrameError, IpcErrorCode, IpcOperation, IpcRequest, IpcResponse,
    NdjsonCodec, IPC_MAX_FRAME_SIZE,
};
use mcp_cli::domain::JsonObject;
use mcp_cli::json::{parse_json, JsonValue};

fn json(text: &str) -> JsonValue {
    parse_json(text.as_bytes()).expect("valid JSON")
}

fn object(text: &str) -> JsonObject {
    match json(text) {
        JsonValue::Object(object) => object,
        other => panic!("not an object: {other:?}"),
    }
}

fn json_payload_of_size(size: usize) -> Vec<u8> {
    assert!(size >= 8);
    let mut payload = b"{\"x\":\"".to_vec();
    payload.extend(std::iter::repeat_n(b'a', size - 8));
    payload.extend_from_slice(b"\"}");
    assert_eq!(payload.len(), size);
    payload
}

#[test]
fn accepts_lf_and_crlf_but_does_not_count_terminators() {
    let payload = json_payload_of_size(IPC_MAX_FRAME_SIZE);
    let mut input = payload.clone();
    input.extend_from_slice(b"\r\n");

    let mut codec = NdjsonCodec::new();
    assert_eq!(codec.push(&input).expect("maximum CRLF frame"), [payload]);
    assert_eq!(codec.finish(), Ok(None));
}

#[test]
fn parses_byte_by_byte_and_preserves_a_partial_frame() {
    let request = IpcRequest::new("byte-1", IpcOperation::Ping).expect("valid request");
    let encoded = encode_message(&request).expect("encode request");
    let mut codec = NdjsonCodec::new();
    let mut decoded = Vec::new();

    for byte in encoded {
        decoded.extend(
            codec
                .push_messages::<IpcRequest>(&[byte])
                .expect("byte chunk"),
        );
    }

    assert_eq!(decoded, [request]);
    assert_eq!(codec.buffered_len(), 0);
}

#[test]
fn handles_split_and_coalesced_multiple_frames() {
    let one = IpcRequest::new("one", IpcOperation::Ping).expect("request");
    let two = IpcRequest::new("two", IpcOperation::GetInstructions).expect("request");
    let mut wire = encode_message(&one).expect("encode");
    wire.extend(encode_message(&two).expect("encode"));
    let split = wire.len() / 3;
    let mut codec = NdjsonCodec::new();

    assert!(codec
        .push_messages::<IpcRequest>(&wire[..split])
        .expect("first chunk")
        .is_empty());
    assert_eq!(
        codec
            .push_messages::<IpcRequest>(&wire[split..])
            .expect("coalesced remainder"),
        [one, two]
    );
}

#[test]
fn eof_requires_an_empty_buffer() {
    let mut empty = NdjsonCodec::new();
    assert_eq!(empty.finish(), Ok(None));

    let mut truncated = NdjsonCodec::new();
    assert!(truncated
        .push(br#"{\"id\":\"x\"}"#)
        .expect("partial")
        .is_empty());
    assert_eq!(truncated.finish(), Err(FrameError::TruncatedFrame));
}

#[test]
fn rejects_invalid_utf8_json_empty_lines_and_bare_cr() {
    let cases: &[(&[u8], FrameError)] = &[
        (&[0xff, b'\n'], FrameError::InvalidUtf8),
        (b"{]\n", FrameError::InvalidJson),
        (b"\n", FrameError::EmptyFrame),
        (b"{}\rX", FrameError::BareCarriageReturn),
    ];

    for &(input, expected) in cases {
        let mut codec = NdjsonCodec::new();
        assert_eq!(codec.push(input), Err(expected));
        assert!(codec.is_failed());
    }

    let mut trailing_cr = NdjsonCodec::new();
    assert!(trailing_cr
        .push(b"{}\r")
        .expect("provisional CR")
        .is_empty());
    assert_eq!(trailing_cr.finish(), Err(FrameError::BareCarriageReturn));
}

#[test]
fn accepts_exact_limit_and_rejects_limit_plus_one_without_unbounded_growth() {
    let exact = json_payload_of_size(IPC_MAX_FRAME_SIZE);
    let mut exact_wire = exact.clone();
    exact_wire.push(b'\n');
    let mut codec = NdjsonCodec::new();
    assert_eq!(codec.push(&exact_wire).expect("exact limit"), [exact]);

    let oversized = json_payload_of_size(IPC_MAX_FRAME_SIZE + 1);
    let mut codec = NdjsonCodec::new();
    assert_eq!(codec.push(&oversized), Err(FrameError::FrameTooLarge));
    assert_eq!(codec.buffered_len(), 0);
    assert!(codec.is_failed());
}

#[test]
fn any_error_permanently_poisoned_the_codec_and_erases_state() {
    let mut codec = NdjsonCodec::new();
    assert_eq!(codec.push(b"not-json\n"), Err(FrameError::InvalidJson));
    assert_eq!(codec.buffered_len(), 0);
    assert_eq!(codec.push(b"{}\n"), Err(FrameError::CodecFailed));
    assert_eq!(codec.finish(), Err(FrameError::CodecFailed));
}

#[test]
fn request_and_response_round_trip_through_codec() {
    let request = IpcRequest::new(
        "call-1",
        IpcOperation::CallTool {
            tool_name: "lookup".into(),
            args: object(r#"{"query": "rust"}"#),
        },
    )
    .expect("request");
    let response = IpcResponse::success("call-1", json(r#"{"content": []}"#)).expect("response");

    let mut request_codec = NdjsonCodec::new();
    assert_eq!(
        request_codec
            .push_messages::<IpcRequest>(&encode_message(&request).expect("encode request"))
            .expect("decode request"),
        [request]
    );
    let mut response_codec = NdjsonCodec::new();
    assert_eq!(
        response_codec
            .push_messages::<IpcResponse>(&encode_message(&response).expect("encode response"))
            .expect("decode response"),
        [response]
    );
}

#[test]
fn decode_message_enforces_utf8_json_shape_and_size() {
    assert_eq!(
        decode_message::<IpcRequest>(&[0xff]),
        Err(FrameError::InvalidUtf8)
    );
    assert_eq!(
        decode_message::<IpcRequest>(b"{"),
        Err(FrameError::InvalidJson)
    );
    assert_eq!(
        decode_message::<IpcRequest>(br#"{"id":"x","type":"bogus"}"#),
        Err(FrameError::InvalidMessage)
    );
    assert_eq!(
        decode_message::<JsonValue>(&vec![b' '; IPC_MAX_FRAME_SIZE + 1]),
        Err(FrameError::FrameTooLarge)
    );
}

#[test]
fn decode_message_reports_the_shape_before_trailing_text() {
    assert_eq!(
        decode_message::<IpcRequest>(br#"{"id":"x","type":"ping"} tail"#),
        Err(FrameError::InvalidJson)
    );
    assert_eq!(
        decode_message::<IpcRequest>(br#"{"id":"x","type":"bogus"} tail"#),
        Err(FrameError::InvalidMessage)
    );
    assert_eq!(
        decode_message::<IpcRequest>(b"{}\n"),
        Err(FrameError::EmbeddedNewline)
    );
    assert_eq!(
        decode_message::<IpcRequest>(b"{}\r"),
        Err(FrameError::EmbeddedNewline)
    );
    assert_eq!(
        decode_message::<IpcRequest>(b""),
        Err(FrameError::EmptyFrame)
    );
}

#[test]
fn request_frames_are_returned_without_a_json_check() {
    let mut codec = NdjsonCodec::default();
    assert_eq!(
        codec.push_request_frames(b"{bad}\n\r\n{\"a\":1}\r\nrest"),
        Ok(vec![b"{bad}".to_vec(), Vec::new(), b"{\"a\":1}".to_vec()])
    );
    assert_eq!(codec.buffered_len(), 4);
    assert!(!codec.is_failed());
    assert_eq!(
        codec.push_request_frames(b"\xff\n"),
        Err(FrameError::InvalidUtf8)
    );
    assert_eq!(
        codec.push_request_frames(b"{}\n"),
        Err(FrameError::CodecFailed)
    );
}

#[test]
fn an_error_drops_the_frames_of_the_same_chunk() {
    let mut codec = NdjsonCodec::new();
    assert_eq!(
        codec.push(b"{}\nnot-json\n{}\n"),
        Err(FrameError::InvalidJson)
    );
    assert_eq!(codec.buffered_len(), 0);
    let mut codec = NdjsonCodec::new();
    assert_eq!(
        codec.push_messages::<IpcRequest>(b"{\"id\":\"x\",\"type\":\"ping\"}\n{\"id\":\"y\"}\n"),
        Err(FrameError::InvalidMessage)
    );
    assert!(codec.is_failed());
}

#[test]
fn a_return_beyond_the_limit_is_kept_provisionally() {
    let mut codec = NdjsonCodec::new();
    let mut input = json_payload_of_size(IPC_MAX_FRAME_SIZE);
    input.push(CARRIAGE_RETURN);
    assert_eq!(codec.push(&input), Ok(Vec::new()));
    assert_eq!(codec.buffered_len(), IPC_MAX_FRAME_SIZE + 1);
    assert_eq!(codec.push(&[LINE_FEED]).expect("one frame").len(), 1);
}

#[test]
fn encoding_names_the_failure_and_appends_one_line_feed() {
    let failure = IpcResponse::failure("x", IpcErrorCode::Internal).expect("response");
    assert_eq!(
        encode_message(&failure).expect("frame"),
        b"{\"id\":\"x\",\"success\":false,\"error\":{\"code\":\"INTERNAL\",\"message\":\"Internal daemon error\"}}\n"
            .to_vec()
    );
    let invalid = IpcOperation::CallTool {
        tool_name: String::new(),
        args: JsonObject::new(),
    };
    assert_eq!(encode_message(&invalid), Err(FrameError::InvalidMessage));
}

#[test]
fn frame_errors_have_stable_texts() {
    assert_eq!(
        FrameError::FrameTooLarge.display_text(),
        "IPC frame exceeds the maximum payload size"
    );
    assert_eq!(
        FrameError::CodecFailed.display_text(),
        "IPC codec is unavailable after a framing failure"
    );
}
