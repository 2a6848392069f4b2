use mcp_cli::daemon::{parse_error_body, IpcErrorBody, IpcErrorCode};
use mcp_cli::domain::{tools_from_json, tools_to_json, ToolInfo};
use mcp_cli::error::{CliError, ErrorKind};
use mcp_cli::json::{object_text, parse_json, parse_json_prefix, JsonObject, JsonValue};
use mcp_cli::order::insert_ascending;
use mcp_cli::output::{format_json_value, style_fragment, JsonPresenter, StylePolicy, ANSI_YELLOW};
use mcp_cli::policy::redact::{append_bytes, SecretSet, StreamingRedactor};
use mcp_cli::policy::retry::{ErrorClass, RetryPolicy};
use mcp_cli::runtime::{Deadline, Platform, RuntimeConfig};
use mcp_cli::text::{
    byte_order, chars_of, contains_text, decimal_text, has_control, hexadecimal_text, is_utf8,
    padded_hex_text, scalar_eq_ignore_case, str_equal, string_of, text_order,
};
use mcp_cli::time::{Duration, Instant, SystemTime};

#[test]
fn numerals_are_written_without_padding_unless_asked() {
    assert_eq!(decimal_text(0), "0");
    assert_eq!(
        decimal_text(u128::MAX),
        "340282366920938463463374607431768211455"
    );
    assert_eq!(hexadecimal_text(0), "0");
    assert_eq!(hexadecimal_text(0x1b), "1b");
    assert_eq!(padded_hex_text(0xab, 4), "00ab");
    assert_eq!(padded_hex_text(u64::MAX, 16), "ffffffffffffffff");
}

#[test]
fn texts_are_ordered_by_their_bytes() {
    assert!(text_order("a", "b"));
    assert!(text_order("a", "aa"));
    assert!(text_order("z", "\u{e9}"));
    assert!(!text_order("a", "a"));
    assert!(byte_order(b"", b"\0"));
    assert!(str_equal("\u{e9}", "\u{e9}"));
    assert!(!str_equal("\u{e9}", "e\u{301}"));
    let mut list = vec!["a".to_owned(), "c".to_owned()];
    insert_ascending(&mut list, "b".to_owned());
    insert_ascending(&mut list, "c".to_owned());
    assert_eq!(list, vec!["a", "b", "c"]);
}

#[test]
fn letters_match_without_case() {
    assert!(scalar_eq_ignore_case('\u{df}', '\u{df}'));
    assert!(scalar_eq_ignore_case('\u{c9}', '\u{e9}'));
    assert!(scalar_eq_ignore_case('k', '\u{212a}'));
    assert!(!scalar_eq_ignore_case('a', 'b'));
    assert_eq!(string_of(&chars_of("a\u{1f600}b")), "a\u{1f600}b");
    assert!(has_control("a\u{85}"));
    assert!(!has_control("a b"));
    assert!(is_utf8("\u{e9}".as_bytes()));
    assert!(!is_utf8(b"\xc3"));
    assert!(contains_text(&["a", "b"], "b"));
    assert!(!contains_text(&["a", "b"], "c"));
}

#[test]
fn spans_and_points_saturate() {
    let far = Instant::at(Duration::max());
    assert_eq!(far.saturating_add(Duration::from_secs(1)), far);
    let start = Instant::at(Duration::from_secs(5));
    assert_eq!(
        start.saturating_duration_since(Instant::at(Duration::from_secs(7))),
        Duration::zero()
    );
    assert!(start.is_before(&far));
    assert!(Duration::from_millis(1).is_shorter(&Duration::from_secs(1)));
    assert_eq!(Duration::from_millis(3).as_nanos(), 3_000_000);
    assert!(Duration::from_nanos_saturating(0).is_zero());
    assert_eq!(Duration::from_nanos_saturating(u128::MAX), Duration::max());
    assert_eq!(start.since_origin(), Duration::from_secs(5));
    assert_eq!(
        SystemTime::after_epoch_micros(1, 2),
        Some(SystemTime {
            seconds: 1,
            nanoseconds: 2_000,
        })
    );
    assert_eq!(SystemTime::after_epoch(u64::MAX, 0), None);
    let deadline = Deadline::new(Instant::at(Duration::from_secs(8)));
    assert_eq!(deadline.remaining_at(start), Duration::from_secs(3));
    assert!(!deadline.is_expired_at(start));
    assert!(deadline.is_expired_at(far));
    assert_eq!(
        deadline.local_deadline_at(start, Duration::from_secs(1)),
        Instant::at(Duration::from_secs(6))
    );
}

#[test]
fn tools_survive_json() {
    let tools = vec![
        ToolInfo {
            name: "echo".to_owned(),
            description: Some("Echo".to_owned()),
            input_schema: parse_json(br#"{"type":"object"}"#).unwrap(),
        },
        ToolInfo {
            name: "ping".to_owned(),
            description: None,
            input_schema: JsonValue::null(),
        },
    ];
    let value = tools_to_json(&tools);
    assert_eq!(tools_from_json(&value), Some(tools.clone()));
    assert_eq!(ToolInfo::from_json(&tools[0].to_json()), Some(tools[0].clone()));
    assert_eq!(tools_from_json(&parse_json(b"{}").unwrap()), None);
    assert_eq!(
        ToolInfo::from_json(&parse_json(br#"{"description":"x"}"#).unwrap()),
        None
    );
}

#[test]
fn objects_are_read_by_name() {
    let mut object = JsonObject::new();
    object.insert("b", JsonValue::null());
    assert!(object.single_member().is_some());
    object.insert("a", JsonValue::text("x"));
    assert_eq!(object.sorted_names(), vec!["a", "b"]);
    assert!(object.has_only(&["a", "b", "c"]));
    assert!(!object.has_only(&["a"]));
    assert!(object.single_member().is_none());
    assert_eq!(object.len(), 2);
    assert_eq!(
        object_text(&vec![
            ("z".to_owned(), JsonValue::null()),
            ("a".to_owned(), JsonValue::text("\n")),
        ]),
        br#"{"z":null,"a":"\n"}"#
    );
    assert_eq!(
        parse_json_prefix(b"{\"a\":1} rest"),
        parse_json(b"{\"a\":1}")
    );
    assert_eq!(parse_json(b"{\"a\":1} rest"), None);
}

#[test]
fn error_bodies_are_canonical() {
    let body = IpcErrorBody::new(IpcErrorCode::NotConnected);
    let text = format!(
        "{{\"code\":\"{}\",\"message\":\"{}\"}}",
        body.code().as_str(),
        body.message()
    );
    let value = parse_json(text.as_bytes()).unwrap();
    assert_eq!(parse_error_body(value).ok().unwrap().code(), body.code());
    let changed = parse_json(br#"{"code":"INTERNAL","message":"something else"}"#).unwrap();
    assert!(parse_error_body(changed).is_err());
}

#[test]
fn errors_show_their_parts() {
    let error = CliError::from_kind(ErrorKind::InvalidArguments, "message")
        .with_details("details")
        .with_suggestion("suggestion");
    assert_eq!(error.details_text(), Some("details"));
    assert_eq!(error.suggestion_text(), Some("suggestion"));
    assert!(!error.details_are_redacted());
    let mut marked = error;
    marked.set_details_redacted();
    assert!(marked.details_are_redacted());
    assert!(!marked.with_details("other").details_are_redacted());
}

#[test]
fn values_are_presented_as_lines() {
    let value = parse_json(br#"{"b":1,"a":[true]}"#).unwrap();
    let line = format_json_value(&value).unwrap();
    assert_eq!(line.last(), Some(&b'\n'));
    assert_eq!(parse_json(&line), Some(value.clone()));
    assert_eq!(JsonPresenter.render_value(&value).unwrap(), line);
    assert_eq!(
        style_fragment("x", ANSI_YELLOW, StylePolicy::new(true, false)),
        "\u{1b}[33mx\u{1b}[0m"
    );
    assert_eq!(style_fragment("x", ANSI_YELLOW, StylePolicy::plain()), "x");
}

#[test]
fn retry_policies_follow_the_runtime_policy() {
    let config = RuntimeConfig::default_for(Platform::Windows);
    assert!(!Platform::Windows.is_unix());
    assert!(Platform::Linux.is_unix());
    let policy = RetryPolicy::from_runtime_config(&config);
    assert_eq!(policy.backoff_delay(0), Duration::from_secs(1));
    assert_eq!(policy.backoff_delay(3), Duration::from_secs(8));
    assert_eq!(policy.backoff_delay(4), RetryPolicy::default_max_delay());
    assert_eq!(RetryPolicy::default_max_delay(), Duration::from_secs(10));
    assert!(ErrorClass::Transient.is_retryable());
    assert!(!ErrorClass::Auth.is_retryable());
    assert!(!ErrorClass::Business.is_retryable());
    assert!(!ErrorClass::NonTransient.is_retryable());
}

#[test]
fn chunks_are_redacted_across_their_borders() {
    let mut secrets = SecretSet::new();
    secrets.insert(b"secret");
    let mut redactor = StreamingRedactor::from_secret_set(&secrets.duplicate());
    let mut output = redactor.redact_chunk(b"a sec");
    append_bytes(&mut output, &redactor.redact_chunk(b"ret b"));
    append_bytes(&mut output, &redactor.flush());
    assert_eq!(output, b"a [REDACTED] b");
    assert_eq!(secrets.redact_bytes(b"a secret b"), output);
}

#[test]
fn integral_numbers_read_back_as_integers() {
    let five = JsonValue::Float(serde_json::Number::from(5));
    assert_eq!(five.to_text(), b"5");
    assert!(matches!(
        parse_json(&five.to_text()),
        Some(JsonValue::Unsigned(5))
    ));
    let below = JsonValue::Float(serde_json::Number::from(-7));
    assert_eq!(below.to_text(), b"-7");
    assert!(matches!(
        parse_json(&below.to_text()),
        Some(JsonValue::Negative(-7))
    ));
    let half = JsonValue::Float(serde_json::Number::from_f64(0.5).unwrap());
    assert_eq!(half.to_text(), b"0.5");
    assert!(matches!(
        parse_json(&half.to_text()),
        Some(JsonValue::Float(_))
    ));
}
