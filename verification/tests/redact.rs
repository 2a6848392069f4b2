use mcp_cli::error::CliError;
use mcp_cli::output::DiagnosticSink;
use mcp_cli::policy::redact::{SecretSet, StreamingRedactor, WriterDiagnosticSink, REDACTED};

fn collected_stream(redactor: &mut StreamingRedactor, chunks: &[&[u8]]) -> Vec<u8> {
    let mut output = Vec::new();
    for chunk in chunks {
        output.extend(redactor.push(chunk));
    }
    output.extend(redactor.flush());
    output
}

#[test]
fn registers_non_empty_env_and_header_secrets_once() {
    let mut secrets = SecretSet::new();

    assert!(!secrets.register_env("EMPTY", b""));
    assert!(secrets.register_env("TOKEN", b"same-secret"));
    assert!(!secrets.register_header("X-Token", b"same-secret"));
    assert!(secrets.register_authorization(b"Bearer abc"));
    assert!(secrets.register_cookie(b"session=xyz"));
    assert_eq!(secrets.len(), 3);
    assert_eq!(secrets.max_secret_len(), "same-secret".len());
    assert_eq!(
        secrets.debug_text(),
        "SecretSet { len: 3, max_secret_len: 11 }"
    );
}

#[test]
fn redacts_text_bytes_and_overlapping_secrets() {
    let mut secrets = SecretSet::new();
    secrets.insert(b"abc");
    secrets.insert(b"bcd");

    assert_eq!(secrets.redact("xabcdy"), "x[REDACTED]y");
    assert_eq!(
        secrets.redact_bytes(b"abc and bcd"),
        b"[REDACTED] and [REDACTED]"
    );
}

#[test]
fn empty_secrets_do_not_redact_or_force_buffering() {
    let mut secrets = SecretSet::new();
    secrets.insert(b"");
    let mut redactor = StreamingRedactor::new(secrets);

    assert_eq!(redactor.push(b"unchanged"), b"unchanged");
    assert_eq!(redactor.pending_len(), 0);
    assert!(redactor.flush().is_empty());
}

#[test]
fn redacts_a_secret_across_every_possible_chunk_boundary() {
    let input = b"before credential after";
    let mut secrets = SecretSet::new();
    secrets.insert(b"credential");
    let expected = secrets.redact_bytes(input);

    for split in 0..=input.len() {
        let mut redactor = StreamingRedactor::from_secret_set(&secrets);
        let pieces = vec![
            redactor.push(&input[..split]),
            redactor.push(&input[split..]),
            redactor.flush(),
        ];

        for piece in &pieces {
            assert!(
                !piece
                    .windows(b"credential".len())
                    .any(|window| window == b"credential"),
                "secret leaked at split {split}"
            );
        }
        assert_eq!(pieces.concat(), expected, "split {split}");
    }
}

#[test]
fn byte_at_a_time_streaming_handles_overlap_and_bounds_pending_tail() {
    let mut secrets = SecretSet::new();
    secrets.insert(b"aba");
    let mut redactor = StreamingRedactor::from_secret_set(&secrets);
    let mut output = Vec::new();

    for byte in b"zababaq" {
        output.extend(redactor.push(std::slice::from_ref(byte)));
        assert!(redactor.pending_len() < secrets.max_secret_len());
    }
    output.extend(redactor.flush());

    assert_eq!(output, b"z[REDACTED]q");
}

#[test]
fn flush_safely_emits_an_incomplete_secret_prefix() {
    let mut secrets = SecretSet::new();
    secrets.insert(b"credential");
    let mut redactor = StreamingRedactor::from_secret_set(&secrets);

    assert!(redactor.push(b"cred").is_empty());
    assert_eq!(redactor.flush(), b"cred");
    assert_eq!(redactor.pending_len(), 0);
}

#[test]
fn arbitrary_non_utf8_bytes_are_redacted_before_lossy_conversion() {
    let mut secrets = SecretSet::new();
    secrets.insert(&[0xff, 0xfe]);

    let redacted = secrets.redact_bytes(&[b'a', 0xff, 0xfe, 0x80]);
    let visible = String::from_utf8_lossy(&redacted);
    assert!(visible.contains("[REDACTED]"));
    assert!(!redacted.windows(2).any(|window| window == [0xff, 0xfe]));
}

#[test]
fn diagnostics_redact_and_debug_flag_only_suppresses_debug() {
    let mut secrets = SecretSet::new();
    secrets.insert(b"token-value");
    let mut sink = WriterDiagnosticSink::new(Vec::new(), false, secrets.clone());

    sink.warning("warning token-value");
    sink.debug("debug token-value");
    sink.server_stderr("alpha", b"server token-value");
    sink.server_stderr_flush("alpha");
    let disabled = String::from_utf8(sink.into_inner()).expect("diagnostics are UTF-8");

    assert!(disabled.contains("[mcp-cli] warning: warning [REDACTED]"));
    assert!(disabled.contains("[server] alpha: server [REDACTED]"));
    assert!(!disabled.contains("debug"));
    assert!(!disabled.contains("token-value"));

    let mut sink = WriterDiagnosticSink::new(Vec::new(), true, secrets);
    sink.debug("debug token-value");
    let enabled = String::from_utf8(sink.into_inner()).expect("diagnostics are UTF-8");
    assert_eq!(enabled, "[mcp-cli] debug: debug [REDACTED]\n");

    let mut marker_secret = SecretSet::new();
    marker_secret.insert(b"R");
    let sink = WriterDiagnosticSink::new(Vec::<u8>::new(), false, marker_secret);
    let error = CliError::network_error("remote", "unused")
        .with_details("[REDACTED]")
        .mark_details_redacted();
    let error = sink.redact_error(error);
    assert_eq!(error.details.as_deref(), Some("[REDACTED]"));
}

#[test]
fn server_stderr_has_safe_prefix_and_redacts_across_calls() {
    let mut secrets = SecretSet::new();
    secrets.insert(b"hunter2");
    let mut sink = WriterDiagnosticSink::new(Vec::new(), false, secrets);

    sink.server_stderr("bad]\nname", b"prefix hun");
    sink.server_stderr("bad]\nname", &[b't', b'e', b'r', b'2', 0xff]);
    sink.server_stderr_flush("bad]\nname");
    let output = String::from_utf8(sink.into_inner()).expect("lossy diagnostics are UTF-8");

    assert!(output.contains("[server] bad\\u{5d}\\u{a}name: "));
    assert!(output.contains("[REDACTED]"));
    assert!(output.contains('\u{fffd}'));
    assert!(!output.contains("hunter2"));
    assert!(!output.contains("[server] bad]\nname:"));
}

#[test]
fn helper_collects_chunks_without_changing_stateless_result() {
    let mut secrets = SecretSet::new();
    secrets.insert(b"secret");
    let mut redactor = StreamingRedactor::from_secret_set(&secrets);

    assert_eq!(
        collected_stream(&mut redactor, &[b"one se", b"cret two"]),
        secrets.redact_bytes(b"one secret two")
    );
}

#[test]
fn abutting_secrets_in_separate_chunks_get_a_marker_each() {
    let mut secrets = SecretSet::new();
    secrets.insert(b"abc");
    let mut redactor = StreamingRedactor::from_secret_set(&secrets);

    assert_eq!(
        collected_stream(&mut redactor, &[b"xabc", b"abcy"]),
        b"x[REDACTED][REDACTED]y"
    );
    assert_eq!(secrets.redact_bytes(b"xabcabcy"), b"x[REDACTED]y");
}

#[test]
fn one_chunk_and_its_end_equal_the_stateless_result() {
    let mut secrets = SecretSet::new();
    secrets.insert(b"abc");
    secrets.insert(b"cab");
    for input in [&b"xabcabcy"[..], b"abcab", b"", b"ab", b"cabcab abc"] {
        let mut redactor = StreamingRedactor::from_secret_set(&secrets);
        assert_eq!(
            collected_stream(&mut redactor, &[input]),
            secrets.redact_bytes(input)
        );
    }
}

#[test]
fn insertion_order_does_not_distinguish_secret_sets() {
    let mut left = SecretSet::new();
    left.insert(b"one");
    left.insert(b"two");
    let mut right = SecretSet::new();
    right.insert(b"two");
    right.insert(b"one");
    assert!(left == right);
    right.insert(b"three");
    assert!(left != right);
}

#[test]
fn late_secrets_protect_later_diagnostics_and_reset_streams() {
    let mut sink = WriterDiagnosticSink::new(Vec::new(), true, SecretSet::new());
    sink.debug("before late-secret");
    let mut late = SecretSet::new();
    late.insert(b"late-secret");
    sink.register_secrets(&late);
    sink.debug("after late-secret");
    sink.server_stderr("s", b"late-");
    sink.register_secrets(&SecretSet::new());
    sink.server_stderr_flush("s");
    assert_eq!(
        String::from_utf8(sink.take_written()).unwrap(),
        "[mcp-cli] debug: before late-secret\n[mcp-cli] debug: after [REDACTED]\n"
    );
    assert!(sink.into_inner().is_empty());
}

#[test]
fn diagnostic_lines_drop_carriage_returns_and_repeat_the_prefix() {
    let mut sink = WriterDiagnosticSink::new(Vec::new(), true, SecretSet::new());
    sink.warning("one\r\ntwo\n");
    sink.warning("");
    assert_eq!(
        String::from_utf8(sink.into_inner()).unwrap(),
        "[mcp-cli] warning: one\n[mcp-cli] warning:two\n[mcp-cli] warning: \n"
    );
    assert_eq!(REDACTED, "[REDACTED]");
}

#[test]
fn registrations_count_distinct_secrets_and_their_longest() {
    let mut secrets = SecretSet::new();
    assert!(!secrets.register_env("EMPTY", b""));
    assert!(secrets.register_env("TOKEN", b"same-secret"));
    assert!(!secrets.register_header("X-Token", b"same-secret"));
    assert_eq!(secrets.len(), 1);
    assert_eq!(secrets.max_secret_len(), 11);

    let mut other = SecretSet::new();
    other.insert(b"same-secret");
    other.insert(b"a longer secret");
    secrets.extend(&other);
    assert_eq!(secrets.len(), 2);
    assert_eq!(secrets.max_secret_len(), 15);
}

#[test]
fn pushed_output_covers_all_but_the_pending_bytes() {
    let mut secrets = SecretSet::new();
    secrets.insert(b"abcd");
    let mut redactor = StreamingRedactor::from_secret_set(&secrets);
    let mut output = redactor.push(b"xab");
    assert_eq!((output.as_slice(), redactor.pending_len()), (&b""[..], 3));
    output.extend(redactor.push(b"cdy"));
    assert_eq!(
        (output.as_slice(), redactor.pending_len()),
        (&b"x[REDACTED]"[..], 3)
    );
    output.extend(redactor.push(b"z1"));
    assert_eq!(
        (output.as_slice(), redactor.pending_len()),
        (&b"x[REDACTED]"[..], 3)
    );
    output.extend(redactor.flush());
    assert_eq!(output, b"x[REDACTED]yz1");
    assert_eq!(redactor.pending_len(), 0);
    assert!(redactor.flush().is_empty());
}

#[test]
fn separate_secrets_stream_like_complete_bytes_for_every_cut() {
    let mut secrets = SecretSet::new();
    secrets.insert(b"abc");
    secrets.insert(b"bcd");
    secrets.insert(b"q");
    let input = b"xabcd abc.bcd q abcd";
    let whole = secrets.redact_bytes(input);
    assert_eq!(
        whole,
        b"x[REDACTED] [REDACTED].[REDACTED] [REDACTED] [REDACTED]"
    );
    for first in 0..=input.len() {
        for second in first..=input.len() {
            let mut redactor = StreamingRedactor::from_secret_set(&secrets);
            assert_eq!(
                collected_stream(
                    &mut redactor,
                    &[&input[..first], &input[first..second], &input[second..]]
                ),
                whole,
                "{first} {second}"
            );
        }
    }
}
