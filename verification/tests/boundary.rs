use mcp_cli::boundary::{
    advance, current_directory_error, debug_enabled, finish_at_top_level_with_style, finish_process,
    finish_worker, help_output, is_hidden_daemon_invocation, leftover_resources, process_entry,
    process_home, record_signal, signal_exit, version_output, BoundaryOutcome, Entry, Invocation,
    Progress, Stage, StageEvent, SIGINT_EXIT, SIGTERM_EXIT,
};
use mcp_cli::bytes::{
    filled_pieces, has_prefix, lines_of, parse_unsigned, split_bytes, words_of, Separator,
};
use mcp_cli::config::{
    configured_secrets, hex_text, ConfigHash, ServerDefinition, ServerId, ToolFilterConfig,
    TransportConfig,
};
use mcp_cli::daemon::unsupported_error;
use mcp_cli::daemon::worker::{WorkerBootstrapError, WorkerStop};
use mcp_cli::domain::{CommandOutcome, Url};
use mcp_cli::error::{CliError, ErrorKind};
use mcp_cli::json::parse_json;
use mcp_cli::output::{PlainTextPresenter, Presenter, StylePolicy};
use mcp_cli::policy::redact::{SecretSet, WriterDiagnosticSink};
use mcp_cli::unix_path::{
    file_name_of, is_absolute_and_normalized, join_path, parent_of, same_path, stands_in,
};

#[test]
fn top_level_renders_once_and_preserves_canonical_exit_codes() {
    for (kind, expected) in [
        (ErrorKind::InvalidArguments, 1),
        (ErrorKind::ToolExecutionFailed, 2),
        (ErrorKind::NetworkError, 3),
        (ErrorKind::AuthError, 4),
    ] {
        let outcome = finish_at_top_level_with_style(
            Err(CliError::from_kind(kind, "failed")),
            StylePolicy::plain(),
        );
        assert_eq!(outcome.exit_code, expected);
        assert_eq!(
            outcome.diagnostic.unwrap().matches("Error [").count(),
            1
        );
    }
    assert_eq!(
        finish_at_top_level_with_style(Ok(()), StylePolicy::plain()),
        BoundaryOutcome {
            exit_code: 0,
            diagnostic: None,
        }
    );
}

fn loaded_servers() -> Vec<ServerDefinition> {
    let definition = |name: &str, transport| ServerDefinition {
        name: name.to_owned(),
        id: ServerId("a".repeat(64)),
        config_hash: ConfigHash([0; 32]),
        transport,
        filter: ToolFilterConfig::default(),
    };
    vec![
        definition(
            "fixture",
            TransportConfig::Stdio {
                command: "fixture".to_owned(),
                args: Vec::new(),
                env: vec![("TOKEN".to_owned(), "secret-value".to_owned())],
                cwd: None,
            },
        ),
        definition(
            "remote",
            TransportConfig::Http {
                url: Url::parse("https://example.com/").unwrap(),
                headers: vec![("Authorization".to_owned(), "header-value".to_owned())],
            },
        ),
    ]
}

#[test]
fn configured_env_and_headers_are_registered_for_boundary_redaction() {
    let secrets = configured_secrets(&SecretSet::new(), &loaded_servers());
    assert_eq!(secrets.redact("token=secret-value"), "token=[REDACTED]");
    assert_eq!(secrets.redact("header-value"), "[REDACTED]");

    let mut sink = WriterDiagnosticSink::new(Vec::<u8>::new(), true, SecretSet::new());
    sink.register_secrets(&secrets);
    let error = sink.redact_error(CliError::network_error(
        "fixture",
        "secret-value must not leak",
    ));
    assert!(!format!("{error:?}").contains("secret-value"));
}

#[test]
fn json_presenter_path_keeps_call_stdout_machine_readable() {
    let value = parse_json(br#"{"ok": true}"#).unwrap();
    let bytes = PlainTextPresenter
        .render(CommandOutcome::Json(value.clone()), StylePolicy::plain())
        .unwrap();
    assert_eq!(parse_json(&bytes), Some(value));
    assert_eq!(bytes, b"{\"ok\":true}\n");
}

#[test]
fn hidden_daemon_dispatch_is_exact() {
    let arguments = |list: &[&str]| -> Vec<Vec<u8>> {
        list.iter().map(|word| word.as_bytes().to_vec()).collect()
    };
    assert!(is_hidden_daemon_invocation(&arguments(&["__daemon"])));
    assert!(is_hidden_daemon_invocation(&arguments(&[
        "__daemon",
        "unexpected"
    ])));
    assert!(!is_hidden_daemon_invocation(&arguments(&["info"])));
    assert!(!is_hidden_daemon_invocation(&[]));
    assert_eq!(process_entry(&arguments(&["__daemon"])), Entry::Worker);
    assert_eq!(
        process_entry(&arguments(&["__daemon", "unexpected"])),
        Entry::InvalidWorker
    );
    assert_eq!(process_entry(&arguments(&["info"])), Entry::Command);
}

#[test]
fn worker_failures_are_reported_without_payload() {
    assert_eq!(
        finish_worker(Ok(WorkerStop::IdleTimeout)),
        BoundaryOutcome {
            exit_code: 0,
            diagnostic: None,
        }
    );
    assert_eq!(
        finish_worker(Err(WorkerBootstrapError::InvalidInput)),
        BoundaryOutcome {
            exit_code: 1,
            diagnostic: Some(
                "mcp-cli daemon worker failed: invalid daemon worker bootstrap\n".to_owned()
            ),
        }
    );
}

#[test]
fn the_first_signal_decides_the_exit_code() {
    assert_eq!(signal_exit(true), SIGINT_EXIT);
    assert_eq!(signal_exit(false), SIGTERM_EXIT);
    assert_eq!(record_signal(0, 130), (130, true));
    assert_eq!(record_signal(130, 143), (130, false));
    let failed = || Err(CliError::from_kind(ErrorKind::NetworkError, "failed"));
    assert_eq!(
        finish_process(143, failed(), StylePolicy::plain()),
        BoundaryOutcome {
            exit_code: 143,
            diagnostic: None,
        }
    );
    let unsignalled = finish_process(0, failed(), StylePolicy::plain());
    assert_eq!(unsignalled.exit_code, 3);
    assert!(unsignalled.diagnostic.unwrap().starts_with("Error ["));
}

#[test]
fn process_settings_fall_back() {
    let home = || Some(b"/home/x".to_vec());
    let profile = || Some(b"C:/Users/x".to_vec());
    assert_eq!(process_home(home(), profile(), b"/".to_vec()), b"/home/x");
    assert_eq!(process_home(None, profile(), b"/".to_vec()), b"C:/Users/x");
    assert_eq!(process_home(None, None, b"/work".to_vec()), b"/work");
    assert!(debug_enabled(&Some(b"1".to_vec())));
    assert!(!debug_enabled(&Some(Vec::new())));
    assert!(!debug_enabled(&None));
    let error = current_directory_error(&"unstable internal cause");
    assert!(!format!("{error:?}").contains("unstable internal cause"));
    assert_eq!(error.machine_kind(), "CONFIG_READ_ERROR");
    assert_eq!(error.display_text(), "Could not determine current directory");
    assert_eq!(
        unsupported_error(),
        "Unix daemon paths and PID metadata are unsupported on this platform"
    );
}

fn plain_sink(secret: &[u8]) -> WriterDiagnosticSink {
    let mut secrets = SecretSet::new();
    secrets.insert(secret);
    WriterDiagnosticSink::new(Vec::new(), false, secrets)
}

#[test]
fn stages_follow_each_other_and_help_comes_first() {
    let sink = plain_sink(b"secret-value");
    let next = |stage, event| match advance(stage, event, &sink) {
        Progress::Next(next) => Some(next),
        Progress::Succeeded => None,
        Progress::Failed(failure) => panic!("{failure:?}"),
    };
    for (invocation, stage) in [
        (Invocation::Help, Stage::WriteHelp),
        (Invocation::Version, Stage::WriteVersion),
        (Invocation::Command, Stage::ReadRuntime),
    ] {
        let parsed = StageEvent::Parsed(invocation);
        assert_eq!(next(Stage::ParseArguments, parsed), Some(stage));
    }
    assert_eq!(next(Stage::WriteHelp, StageEvent::Done), None);
    let mut stage = Stage::ReadRuntime;
    let mut stages = vec![stage];
    while let Some(following) = next(stage, StageEvent::Done) {
        stages.push(following);
        stage = following;
    }
    assert_eq!(
        stages,
        vec![
            Stage::ReadRuntime,
            Stage::FindDirectory,
            Stage::Execute,
            Stage::Render,
            Stage::WriteOutput,
        ]
    );
}

#[test]
fn failed_stages_report_their_own_error() {
    let sink = plain_sink(b"secret-value");
    let failure = || CliError::from_kind(ErrorKind::InvalidArguments, "secret-value");
    let reported = |stage| match advance(stage, StageEvent::Failed(failure()), &sink) {
        Progress::Failed(failure) => failure.display_text().to_owned(),
        other => panic!("{other:?}"),
    };
    assert_eq!(reported(Stage::ParseArguments), "secret-value");
    assert_eq!(reported(Stage::Execute), "[REDACTED]");
    assert_eq!(
        reported(Stage::FindDirectory),
        "Could not determine current directory"
    );
    assert_eq!(reported(Stage::WriteOutput), "Failed to write command output");
    assert_eq!(leftover_resources(0), None);
    assert_eq!(
        leftover_resources(2),
        Some("command returned while direct resource cleanup was still in progress")
    );
}

#[test]
fn help_and_version_end_with_one_line_break() {
    assert_eq!(help_output("usage".to_owned()), "usage\n");
    assert_eq!(help_output("usage\n".to_owned()), "usage\n");
    assert_eq!(help_output(String::new()), "\n");
    assert_eq!(version_output("mcp-cli", "0.1.0"), "mcp-cli 0.1.0\n");
}

#[test]
fn digests_survive_their_text() {
    let hash = ConfigHash([
        0, 1, 2, 3, 4, 5, 6, 7, 8, 9, 10, 11, 12, 13, 14, 15, 16, 17, 18, 19, 20, 21, 22, 23, 24,
        25, 26, 27, 28, 29, 254, 255,
    ]);
    assert_eq!(
        hash.to_hex(),
        "000102030405060708090a0b0c0d0e0f101112131415161718191a1b1c1dfeff"
    );
    assert_eq!(ConfigHash::from_hex(&hash.to_hex()), Some(hash));
    assert_eq!(ConfigHash::from_hex(&"F".repeat(64)), None);
    assert_eq!(ConfigHash::from_hex(&"f".repeat(63)), None);
    assert_eq!(hex_text(&[0, 171]), "00ab");
}

#[test]
fn byte_strings_are_split_and_read() {
    let text = |list: &[&str]| -> Vec<Vec<u8>> {
        list.iter().map(|piece| piece.as_bytes().to_vec()).collect()
    };
    assert_eq!(
        split_bytes(b"a//b", Separator::Byte(b'/')),
        text(&["a", "", "b"])
    );
    assert_eq!(filled_pieces(text(&["", "a", ""])), text(&["a"]));
    assert_eq!(words_of(b" a\t b\n"), text(&["a", "b"]));
    assert_eq!(lines_of(b"a\nb\r\n"), text(&["a", "b"]));
    assert!(has_prefix(b"Uid:\t1", b"Uid:"));
    assert!(!has_prefix(b"Ui", b"Uid:"));
    assert_eq!(parse_unsigned(b"42", 100), Some(42));
    assert_eq!(parse_unsigned(b"+42", 100), Some(42));
    assert_eq!(parse_unsigned(b"101", 100), None);
    assert_eq!(parse_unsigned(b"", 100), None);
    assert_eq!(parse_unsigned(b"+", 100), None);
    assert_eq!(parse_unsigned(b"-1", 100), None);
    assert_eq!(parse_unsigned(b"18446744073709551616", u64::MAX), None);
    assert_eq!(parse_unsigned(b"0018446744073709551615", u64::MAX), Some(u64::MAX));
}

#[test]
fn unix_paths_follow_their_components() {
    assert!(same_path(b"/tmp//x/./y/", b"/tmp/x/y"));
    assert!(!same_path(b"/tmp/x", b"tmp/x"));
    assert!(!same_path(b"/tmp/../x", b"/x"));
    assert_eq!(parent_of(b"/tmp/x"), Some(b"/tmp".to_vec()));
    assert_eq!(parent_of(b"/tmp/x/"), Some(b"/tmp".to_vec()));
    assert_eq!(parent_of(b"x"), Some(Vec::new()));
    assert_eq!(parent_of(b"/"), None);
    assert_eq!(parent_of(b""), None);
    assert_eq!(file_name_of(b"/tmp/x.pid"), Some(b"x.pid".to_vec()));
    assert_eq!(file_name_of(b"/tmp/.."), None);
    assert_eq!(file_name_of(b"/"), None);
    assert!(stands_in(b"/tmp/x", b"/tmp"));
    assert!(!stands_in(b"/tmp/x/y", b"/tmp"));
    assert!(is_absolute_and_normalized(b"/usr/bin/x"));
    assert!(!is_absolute_and_normalized(b"usr/bin/x"));
    assert!(!is_absolute_and_normalized(b"/usr/../x"));
    assert_eq!(join_path(b"/tmp", b"x"), b"/tmp/x");
    assert_eq!(join_path(b"/tmp/", b"x"), b"/tmp/x");
}
