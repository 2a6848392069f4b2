use mcp_cli::error::{CliError, ErrorKind, ExitCode};
use mcp_cli::json::{parse_json, JsonValue};
use mcp_cli::policy::retry::ErrorClass;

#[test]
fn every_kind_has_a_stable_machine_string_and_round_trips_through_serde() {
    let expected = [
        "UNKNOWN_COMMAND",
        "INVALID_ARGUMENTS",
        "CONFIG_NOT_FOUND",
        "CONFIG_READ_ERROR",
        "INVALID_CONFIG",
        "MISSING_ENV_VAR",
        "INVALID_RUNTIME_CONFIG",
        "INVALID_SERVER_CONFIG",
        "SERVER_NOT_FOUND",
        "TOOL_NOT_FOUND",
        "TOOL_DISABLED",
        "INVALID_JSON",
        "INPUT_TOO_LARGE",
        "SECURITY_ERROR",
        "TOOL_EXECUTION_FAILED",
        "NETWORK_ERROR",
        "TIMEOUT",
        "AUTH_ERROR",
    ];

    for (kind, expected) in ErrorKind::all().into_iter().zip(expected) {
        assert_eq!(kind.as_str(), expected);
        let json = JsonValue::String(kind.as_str().to_owned()).to_text();
        assert_eq!(
            String::from_utf8(json.clone()).unwrap(),
            format!("\"{expected}\"")
        );
        let read = parse_json(&json).expect("deserialize error kind");
        assert_eq!(
            ErrorKind::from_machine_string(read.as_str().expect("a string")),
            Some(kind)
        );
    }
    assert_eq!(ErrorKind::from_machine_string("unknown_command"), None);
}

#[test]
fn exit_code_mapping_is_total_and_stable() {
    for kind in ErrorKind::all() {
        let expected = match kind {
            ErrorKind::ToolExecutionFailed => ExitCode::Tool,
            ErrorKind::NetworkError | ErrorKind::Timeout => ExitCode::Network,
            ErrorKind::AuthError => ExitCode::Auth,
            _ => ExitCode::Client,
        };
        assert_eq!(kind.exit_code(), expected, "{}", kind.as_str());
        assert_eq!(
            CliError::new(kind, "message", ExitCode::Success).exit_code,
            expected,
            "compatibility constructor must enforce canonical mapping for {}",
            kind.as_str()
        );
    }
    assert_eq!(ExitCode::Client.as_u8(), 1);
    assert_eq!(ExitCode::Tool.as_u8(), 2);
    assert_eq!(ExitCode::Network.as_u8(), 3);
    assert_eq!(ExitCode::Auth.as_u8(), 4);
    assert_eq!(ExitCode::Success.as_u8(), 0);
}

#[test]
fn constructors_assign_expected_retry_classes_and_http_exit_codes() {
    assert_eq!(
        CliError::network_error("remote", "connection refused").error_class(),
        ErrorClass::Transient
    );
    assert_eq!(
        CliError::tool_execution_failed("server", "tool", "failed").error_class(),
        ErrorClass::Business
    );
    assert_eq!(
        CliError::timeout("calling tool").error_class(),
        ErrorClass::NonTransient
    );

    for status in [401, 403] {
        let error = CliError::http_status("remote", status);
        assert_eq!(error.kind, ErrorKind::AuthError);
        assert_eq!(error.exit_code, ExitCode::Auth);
        assert_eq!(error.error_class(), ErrorClass::Auth);
    }
    for status in [429, 502, 503, 504] {
        let error = CliError::http_status("remote", status);
        assert_eq!(error.kind, ErrorKind::NetworkError);
        assert_eq!(error.exit_code, ExitCode::Network);
        assert_eq!(error.error_class(), ErrorClass::Transient);
    }
    let bad_request = CliError::http_status("remote", 400);
    assert_eq!(bad_request.exit_code, ExitCode::Network);
    assert_eq!(bad_request.error_class(), ErrorClass::NonTransient);
}

#[test]
fn required_recovery_suggestions_match_the_error_type() {
    let cases = [
        (CliError::unknown_command("run"), "--help"),
        (CliError::config_not_found("missing.json"), "--config"),
        (
            CliError::server_not_found("missing", &["alpha", "beta"]),
            "info alpha",
        ),
        (
            CliError::tool_not_found("alpha", "missing", &["read", "write"]),
            "info alpha",
        ),
        (CliError::auth_error("remote", 401), "Authorization"),
        (
            CliError::network_error("remote", "connection refused"),
            "network",
        ),
    ];

    for (error, expected_fragment) in cases {
        let suggestion = error.suggestion.expect("required suggestion");
        assert!(
            suggestion.contains(expected_fragment),
            "{} suggestion was {suggestion:?}",
            error.kind.as_str()
        );
    }
}

#[test]
fn candidates_are_sorted_limited_and_control_characters_are_neutralized() {
    let error = CliError::server_not_found(
        "missing\nname",
        &["zeta", "beta\nforged", "alpha", "delta", "gamma", "epsilon"],
    );
    assert!(!error.message.contains('\n'));
    let details = error.details.expect("candidate details");
    assert_eq!(
        details,
        "Available servers: alpha, beta forged, delta, epsilon, gamma (+1 more)"
    );
}

#[derive(Debug)]
struct SecretSource(&'static str);

#[test]
fn retained_source_never_enters_user_visible_or_debug_text() {
    const SECRET: &str = "Authorization: Bearer super-secret";
    let source = SecretSource(SECRET);
    assert!(format!("{source:?}").contains(SECRET));
    let error = CliError::network_error("remote", "connection failed").with_source(&source);

    assert!(error.has_source());
    for visible in [
        error.display_text().to_owned(),
        error.message.clone(),
        error.details.clone().unwrap_or_default(),
        error.suggestion.clone().unwrap_or_default(),
        format!("{error:?}"),
    ] {
        assert!(
            !visible.contains(SECRET),
            "source leaked through {visible:?}"
        );
        assert!(!visible.contains("super-secret"));
    }
}

#[test]
fn labels_are_cut_off_after_their_limit_and_candidates_are_listed_once() {
    let long = "x".repeat(161);
    assert_eq!(
        CliError::unknown_command(&long).message,
        format!("Unknown command: \"{}...\"", "x".repeat(160))
    );
    let exact = "x".repeat(160);
    assert_eq!(
        CliError::unknown_command(&exact).message,
        format!("Unknown command: \"{exact}\"")
    );
    assert_eq!(
        CliError::missing_env_vars(&["B", "", "A", "B"])
            .details
            .as_deref(),
        Some("Missing variables: A, B")
    );
    assert_eq!(
        CliError::missing_env_vars(&[]).details.as_deref(),
        Some("Missing variables: (none)")
    );
    let empty = CliError::server_not_found("alpha", &[]);
    assert_eq!(empty.details.as_deref(), Some("Available servers: (none)"));
    assert_eq!(
        empty.suggestion.as_deref(),
        Some("Add server \"alpha\" to mcp_servers.json")
    );
}

#[test]
fn every_constructor_has_its_texts() {
    let cases = [
        (
            CliError::invalid_arguments("bad", "why"),
            ErrorKind::InvalidArguments,
            "bad",
            Some("why"),
        ),
        (
            CliError::config_not_found_in(&["a".to_owned(), "b".to_owned()]),
            ErrorKind::ConfigNotFound,
            "No mcp_servers.json found in search paths",
            Some("Searched: a, b"),
        ),
        (
            CliError::config_read_error("p", &SecretSource("cause")),
            ErrorKind::ConfigReadError,
            "Could not read config file: p",
            Some("File: p"),
        ),
        (
            CliError::invalid_config("p", "d"),
            ErrorKind::InvalidConfig,
            "Invalid configuration: p",
            Some("d"),
        ),
        (
            CliError::invalid_runtime_config("N", "a number"),
            ErrorKind::InvalidRuntimeConfig,
            "Invalid runtime configuration",
            Some("N must be a number"),
        ),
        (
            CliError::invalid_server_config("s", "f", "r"),
            ErrorKind::InvalidServerConfig,
            "Invalid configuration for server \"s\"",
            Some("Field f: r"),
        ),
        (
            CliError::tool_disabled("s", "t"),
            ErrorKind::ToolDisabled,
            "Tool \"t\" is disabled for server \"s\"",
            None,
        ),
        (
            CliError::invalid_json("d"),
            ErrorKind::InvalidJson,
            "Invalid JSON in tool arguments",
            Some("d"),
        ),
        (
            CliError::input_too_large(12, 10),
            ErrorKind::InputTooLarge,
            "Tool input exceeds the maximum size",
            Some("Input is 12 bytes; maximum is 10 bytes"),
        ),
        (
            CliError::security_error("m", "d"),
            ErrorKind::SecurityError,
            "m",
            Some("d"),
        ),
        (
            CliError::cancelled("s", "op"),
            ErrorKind::NetworkError,
            "Failed to communicate with server \"s\"",
            Some("Cancelled while op"),
        ),
        (
            CliError::http_status("s", 503),
            ErrorKind::NetworkError,
            "Failed to communicate with server \"s\"",
            Some("HTTP status: 503"),
        ),
    ];
    for (error, kind, message, details) in cases {
        assert_eq!(error.kind, kind);
        assert_eq!(error.message, message);
        assert_eq!(error.details.as_deref(), details);
        assert_eq!(error.exit_code, error.canonical_exit_code());
    }
    assert_eq!(
        CliError::cancelled("s", "op").error_class(),
        ErrorClass::Cancelled
    );
    assert_eq!(
        CliError::network_error_classified("s", "d", ErrorClass::Auth).error_class(),
        ErrorClass::Auth
    );
}

#[test]
fn equality_leaves_the_cause_and_the_redaction_mark_out() {
    let plain = CliError::network_error("s", "d");
    assert_eq!(plain, CliError::network_error("s", "d").with_source(&SecretSource("cause")));
    assert_eq!(
        plain,
        CliError::network_error("s", "d").mark_details_redacted()
    );
    assert_ne!(plain, CliError::network_error("s", "e"));
    assert_ne!(
        plain,
        CliError::network_error_classified("s", "d", ErrorClass::Cancelled)
    );
}
