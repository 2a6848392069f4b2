use mcp_cli::domain::{
    CommandOutcome, PerServer, SearchHit, ServerSnapshot, ToolInfo, TransportSummary, Url,
};
use mcp_cli::error::{CliError, ErrorKind};
use mcp_cli::json::{parse_json, JsonValue};
use mcp_cli::output::{
    format_grep_hits, format_json_schema, format_server_info, format_server_list,
    format_server_snapshot, format_tool_result, json_serialization_error, output_write_error,
    render_structured_error, render_structured_error_with_style, DiagnosticSink, DualStreamWriter,
    JsonPresenter, PlainTextPresenter, Presenter, StylePolicy,
};
use mcp_cli::policy::redact::SecretSet;

fn json(text: &str) -> JsonValue {
    parse_json(text.as_bytes()).expect("valid JSON")
}

fn tool(name: &str, description: Option<&str>, input_schema: JsonValue) -> ToolInfo {
    ToolInfo {
        name: name.to_owned(),
        description: description.map(str::to_owned),
        input_schema,
    }
}

fn snapshot(server: &str, tools: Vec<ToolInfo>) -> ServerSnapshot {
    ServerSnapshot {
        server: server.to_owned(),
        transport_summary: TransportSummary::Stdio {
            command: format!("run-{server}"),
        },
        instructions: None,
        tools,
    }
}

#[test]
fn structured_error_has_stable_lines_indentation_and_one_trailing_newline() {
    let error = CliError::from_kind(ErrorKind::NetworkError, "connection failed")
        .with_details("HTTP status: 503")
        .with_suggestion("Try again later");

    assert_eq!(
        render_structured_error(&error),
        "Error [NETWORK_ERROR]: connection failed\n  Details: HTTP status: 503\n  Suggestion: Try again later\n"
    );
}

#[test]
fn structured_error_omits_absent_optional_fields() {
    let error = CliError::from_kind(ErrorKind::InvalidArguments, "bad input");

    assert_eq!(
        render_structured_error(&error),
        "Error [INVALID_ARGUMENTS]: bad input\n"
    );
}

#[test]
fn list_sorts_servers_and_tools_and_keeps_partial_failures() {
    let results = vec![
        PerServer::Success {
            server: "beta".to_owned(),
            value: snapshot(
                "beta",
                vec![
                    tool("zeta", Some("last"), json(r#"{}"#)),
                    tool("alpha", Some("first"), json(r#"{}"#)),
                ],
            ),
        },
        PerServer::Failure {
            server: "charlie".to_owned(),
            error: CliError::network_error("charlie", "connection refused"),
        },
        PerServer::Success {
            server: "alpha".to_owned(),
            value: snapshot("alpha", vec![tool("middle", None, json(r#"{}"#))]),
        },
    ];

    assert_eq!(
        format_server_list(&results, false),
        "alpha\n  • middle\n\nbeta\n  • alpha\n  • zeta\n\ncharlie\n  <error: Failed to communicate with server \"charlie\">\n"
    );
}

#[test]
fn description_switch_controls_list_info_and_grep_description_text() {
    let described = tool(
        "search",
        Some("Search repositories"),
        json(r#"{ "type": "object", "properties": { "query": {"type": "string", "description": "Search query"} }, "required": ["query"] }"#),
    );
    let snapshot = snapshot("github", vec![described.clone()]);
    let list = vec![PerServer::Success {
        server: "github".to_owned(),
        value: snapshot.clone(),
    }];
    let hits = vec![SearchHit {
        server: "github".to_owned(),
        tool: described,
    }];

    for without in [
        format_server_list(&list, false),
        format_server_info(&snapshot, false),
        format_grep_hits(&hits, false),
    ] {
        assert!(!without.contains("Search repositories"));
        assert!(!without.contains("Search query"));
        assert!(without.ends_with('\n'));
        assert!(!without.ends_with("\n\n"));
    }
    for with in [
        format_server_list(&list, true),
        format_server_info(&snapshot, true),
        format_grep_hits(&hits, true),
    ] {
        assert!(with.contains("Search repositories"));
        assert!(with.ends_with('\n'));
        assert!(!with.ends_with("\n\n"));
    }
    assert!(format_server_info(&snapshot, true).contains("Search query"));
}

#[test]
fn info_sorts_tools_and_parameters_and_preserves_instructions() {
    let snapshot = ServerSnapshot {
        server: "remote".to_owned(),
        transport_summary: TransportSummary::Http {
            url: Url::parse("https://example.test/mcp").unwrap(),
        },
        instructions: Some("first line\nsecond line".to_owned()),
        tools: vec![
            tool("zeta", None, json(r#"{}"#)),
            tool(
                "alpha",
                Some("Alpha tool"),
                json(r#"{ "properties": { "z": {"type": "number"}, "a": {"type": "string"} }, "required": ["z"] }"#),
            ),
        ],
    };

    assert_eq!(
        format_server_info(&snapshot, false),
        "Server: remote\nTransport: HTTP\nURL: https://example.test/mcp\n\nInstructions:\n  first line\n  second line\n\nTools (2):\n  alpha\n    Parameters:\n      • a (string, optional)\n      • z (number, required)\n  zeta\n"
    );
}

#[test]
fn grep_sorts_hits_and_has_a_successful_zero_result_message() {
    let hits = vec![
        SearchHit {
            server: "beta".to_owned(),
            tool: tool("zeta", Some("Z"), json(r#"{}"#)),
        },
        SearchHit {
            server: "alpha".to_owned(),
            tool: tool("zeta", None, json(r#"{}"#)),
        },
        SearchHit {
            server: "beta".to_owned(),
            tool: tool("alpha", Some("A"), json(r#"{}"#)),
        },
    ];

    assert_eq!(
        format_grep_hits(&hits, true),
        "alpha zeta\nbeta alpha - A\nbeta zeta - Z\n"
    );
    assert_eq!(format_grep_hits(&[], false), "No matching tools found.\n");
    assert_eq!(format_server_list(&[], false), "No servers configured.\n");
}

#[test]
fn plain_text_presenter_preserves_text_and_routes_json_outcomes() {
    let presenter = PlainTextPresenter;
    let style = StylePolicy {
        is_tty: true,
        no_color: false,
    };

    assert_eq!(
        presenter
            .render(CommandOutcome::HumanText("ready\n\n".to_owned()), style)
            .unwrap(),
        b"\x1b[1;36mready\x1b[0m\n"
    );
    assert_eq!(
        presenter
            .render(CommandOutcome::Json(json(r#"{"ok": true}"#)), style)
            .unwrap(),
        b"{\"ok\":true}\n"
    );
}

#[test]
fn json_schema_formatter_preserves_object_array_scalar_and_null_values() {
    let schemas = [
        json(r#"{ "$schema": "https://json-schema.org/draft/2020-12/schema", "type": "object", "properties": {"query": {"type": ["string", "null"]}}, "x-vendor-keyword": {"enabled": true} }"#),
        json(r#"[{"type": "string"}, false]"#),
        json(r#""https://example.test/schema""#),
        json(r#"42"#),
        json(r#"true"#),
        JsonValue::Null,
    ];

    for schema in schemas {
        let output = format_json_schema(&schema).expect("schema should serialize");
        assert_eq!(
            parse_json(&output).expect("valid single JSON value"),
            schema
        );
        assert_eq!(output.last(), Some(&b'\n'));
        assert!(!output[..output.len() - 1].ends_with(b"\n"));
    }
}

#[test]
fn tool_result_formatter_preserves_complete_result_and_unknown_extensions() {
    let result = json(r#"{ "content": [ {"type": "text", "text": "complete text"}, {"type": "image", "data": "aGVsbG8=", "mimeType": "image/png"} ], "isError": false, "structuredContent": { "items": [1, null, {"nested": true}] }, "vendorExtension": { "traceId": "trace-123", "futureField": ["kept", 7] } }"#);

    let output = format_tool_result(&result).expect("tool result should serialize");

    assert_eq!(parse_json(&output).unwrap(), result);
    assert_eq!(output.iter().filter(|byte| **byte == b'\n').count(), 1);
    assert_eq!(output.last(), Some(&b'\n'));
    assert!(!String::from_utf8(output).unwrap().contains("Tool result:"));
}

#[test]
fn json_presenter_emits_one_value_one_newline_without_style_or_prefixes() {
    let outcome = CommandOutcome::Json(json(r#"[null, 1, "value"]"#));
    let styled = JsonPresenter
        .render(
            outcome,
            StylePolicy {
                is_tty: true,
                no_color: false,
            },
        )
        .expect("JSON outcome should render");

    assert_eq!(styled, b"[null,1,\"value\"]\n");
    assert_eq!(
        parse_json(&styled).expect("stdout must contain only one JSON value"),
        json(r#"[null, 1, "value"]"#)
    );
    assert!(!styled.contains(&0x1b));
}

#[test]
fn dual_stream_writer_computes_stdout_and_stderr_style_independently() {
    let mut streams = DualStreamWriter::new(
        Vec::new(),
        Vec::new(),
        true,
        false,
        false,
        true,
        SecretSet::new(),
    );

    assert!(streams.styles().stdout.allows_ansi());
    assert!(!streams.styles().stderr.allows_ansi());
    streams
        .write_outcome(
            &PlainTextPresenter,
            CommandOutcome::HumanText("ready".to_owned()),
        )
        .unwrap();
    streams.warning("careful");
    streams.debug("trace");
    let (stdout, stderr) = streams.into_writers();

    assert_eq!(strip_ansi(&stdout), b"ready\n");
    assert!(stdout.contains(&0x1b));
    assert_eq!(
        String::from_utf8(stderr).unwrap(),
        "[mcp-cli] warning: careful\n[mcp-cli] debug: trace\n"
    );
}

#[test]
fn no_color_presence_disables_both_streams_even_when_value_was_empty() {
    // `true` represents presence, not truthiness; callers pass true for
    // `NO_COLOR=` as well as for any non-empty value.
    let mut streams = DualStreamWriter::new(
        Vec::new(),
        Vec::new(),
        true,
        true,
        true,
        true,
        SecretSet::new(),
    );
    streams
        .write_outcome(
            &PlainTextPresenter,
            CommandOutcome::HumanText("plain".to_owned()),
        )
        .unwrap();
    streams.warning("plain warning");
    let (stdout, stderr) = streams.into_writers();

    assert_eq!(stdout, b"plain\n");
    assert_eq!(stderr, b"[mcp-cli] warning: plain warning\n");
    assert!(!stdout.contains(&0x1b));
    assert!(!stderr.contains(&0x1b));
}

#[test]
fn diagnostics_are_stderr_only_debug_is_suppressed_and_json_stays_pure() {
    let mut secrets = SecretSet::new();
    secrets.insert(b"credential");
    let mut streams =
        DualStreamWriter::new(Vec::new(), Vec::new(), false, true, false, false, secrets);

    streams
        .write_outcome(&JsonPresenter, CommandOutcome::Json(json(r#"{"ok": true}"#)))
        .unwrap();
    streams.warning("credential warning");
    streams.debug("must not appear");
    streams.server_stderr("alpha", b"credential from child");
    streams.server_stderr_flush("alpha");
    let (stdout, stderr) = streams.into_writers();

    assert_eq!(stdout, b"{\"ok\":true}\n");
    assert!(!stdout.contains(&0x1b));
    let stderr = String::from_utf8(stderr).unwrap();
    assert!(stderr.contains("[mcp-cli] warning:"));
    assert!(stderr.contains("[server]"));
    assert!(stderr.contains("alpha: [REDACTED]"));
    assert!(!stderr.contains("credential"));
    assert!(!stderr.contains("must not appear"));
    assert!(stderr.contains("\x1b["), "stderr TTY should style prefixes");
}

fn strip_ansi(bytes: &[u8]) -> Vec<u8> {
    let mut plain = Vec::with_capacity(bytes.len());
    let mut index = 0;
    while index < bytes.len() {
        if bytes[index] == 0x1b && bytes.get(index + 1) == Some(&b'[') {
            index += 2;
            while index < bytes.len() && !bytes[index].is_ascii_alphabetic() {
                index += 1;
            }
            index += usize::from(index < bytes.len());
        } else {
            plain.push(bytes[index]);
            index += 1;
        }
    }
    plain
}

#[test]
fn serialization_failures_map_to_a_stable_cli_error() {
    let error = json_serialization_error(&"unstable internal cause");

    assert_eq!(error.kind, ErrorKind::InvalidJson);
    assert_eq!(error.message, "Failed to serialize JSON output");
    assert_eq!(
        error.details.as_deref(),
        Some("The JSON output value could not be serialized")
    );
    assert!(!format!("{error:?}").contains("unstable internal cause"));
}

#[test]
fn failed_writes_have_a_stable_cli_error() {
    let error = output_write_error(&"unstable internal cause");
    assert!(!format!("{error:?}").contains("unstable internal cause"));
    assert_eq!(error.kind, ErrorKind::NetworkError);
    assert_eq!(error.message, "Failed to write command output");
    assert!(error.has_source());
}

#[test]
fn styled_errors_wrap_only_the_heading() {
    let error = CliError::from_kind(ErrorKind::Timeout, "late").with_suggestion("wait");
    assert_eq!(
        render_structured_error_with_style(&error, StylePolicy::new(true, false)),
        "\x1b[1;31mError [TIMEOUT]:\x1b[0m late\n  Suggestion: wait\n"
    );
}

#[test]
fn snapshots_without_tools_say_so_and_descriptions_stay_on_one_line() {
    assert_eq!(
        format_server_snapshot(&snapshot("empty", vec![]), true),
        "empty\n  (no tools)\n"
    );
    let described = tool("t", Some("one\r\ntwo\rthree\nfour"), json("null"));
    assert_eq!(
        format_server_snapshot(&snapshot("s", vec![described]), true),
        "s\n  • t - one two three four\n"
    );
}

#[test]
fn info_blocks_keep_inner_lines_and_drop_final_breaks() {
    let mut info = snapshot("s", vec![tool("t", Some("a\r\n\rb\n\n"), json("{}"))]);
    info.instructions = Some("\n".to_owned());
    assert_eq!(
        format_server_info(&info, true),
        "Server: s\nTransport: stdio\nCommand: run-s\n\nInstructions:\n  \n\nTools (1):\n  t\n    a\n    \n    b\n"
    );
    assert_eq!(
        format_server_info(&snapshot("s", vec![]), false),
        "Server: s\nTransport: stdio\nCommand: run-s\n\nTools (0):\n  (none)\n"
    );
}

#[test]
fn equal_names_are_ordered_by_description_and_schema() {
    let tools = vec![
        tool("t", Some("b"), json("{}")),
        tool("t", Some("a"), json(r#"{"z":1}"#)),
        tool("t", Some("a"), json(r#"{"a":1}"#)),
        tool("t", None, json("{}")),
    ];
    assert_eq!(
        format_server_snapshot(&snapshot("s", tools), true),
        "s\n  • t\n  • t - a\n  • t - a\n  • t - b\n"
    );
}

#[test]
fn structured_error_propagates_writer_failures() {
    #[derive(Default)]
    struct FailingWriter {
        offered: Vec<u8>,
    }

    impl std::io::Write for FailingWriter {
        fn write(&mut self, buffer: &[u8]) -> std::io::Result<usize> {
            self.offered.extend_from_slice(buffer);
            Err(std::io::Error::new(std::io::ErrorKind::BrokenPipe, "closed"))
        }

        fn flush(&mut self) -> std::io::Result<()> {
            Ok(())
        }
    }

    let error = CliError::from_kind(ErrorKind::InvalidArguments, "bad input");
    let rendered = render_structured_error(&error);
    let mut writer = FailingWriter::default();
    let failure = std::io::Write::write_all(&mut writer, rendered.as_bytes()).unwrap_err();

    assert_eq!(failure.kind(), std::io::ErrorKind::BrokenPipe);
    assert_eq!(writer.offered, b"Error [INVALID_ARGUMENTS]: bad input\n");
    let reported = output_write_error(&failure);
    assert_eq!(reported.message, "Failed to write command output");
    assert!(!format!("{reported:?}").contains("closed"));
}

#[test]
fn hits_are_shown_alike_in_every_order_and_one_per_line() {
    let hits: Vec<SearchHit> = [
        ("beta", "zeta", Some("two\r\nlines"), r#"{"b":1}"#),
        ("alpha", "zeta", None, r#"{}"#),
        ("beta", "zeta", Some("two\r\nlines"), r#"{"a":1}"#),
        ("beta", "zeta", None, r#"{}"#),
    ]
    .into_iter()
    .map(|(server, name, description, schema)| SearchHit {
        server: server.to_owned(),
        tool: tool(name, description, json(schema)),
    })
    .collect();
    let expected = "alpha zeta\nbeta zeta\nbeta zeta - two lines\nbeta zeta - two lines\n";
    for order in [[0, 1, 2, 3], [3, 2, 1, 0], [2, 0, 3, 1], [1, 3, 0, 2]] {
        let shuffled: Vec<SearchHit> = order.iter().map(|index| hits[*index].clone()).collect();
        assert_eq!(format_grep_hits(&shuffled, true), expected);
    }
}

#[test]
fn the_default_style_is_plain() {
    assert_eq!(StylePolicy::default(), StylePolicy::plain());
}
