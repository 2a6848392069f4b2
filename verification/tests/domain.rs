use mcp_cli::domain::{JsonObject, PerServer, ToolResult, TransportSummary, Url};
use mcp_cli::error::{CliError, ErrorKind, ExitCode};
use mcp_cli::json::{parse_json, JsonValue};

fn json(text: &str) -> JsonValue {
    parse_json(text.as_bytes()).expect("valid JSON")
}

#[test]
fn json_aliases_preserve_objects_and_extension_fields() {
    let mut args = JsonObject::new();
    args.insert("count", json("3"));
    args.insert("nested", json(r#"{"enabled": true}"#));

    let mut extension = JsonObject::new();
    extension.insert("args", JsonValue::Object(args));
    let mut outer = JsonObject::new();
    outer.insert("content", json(r#"[{"type": "text", "text": "ok"}]"#));
    outer.insert("vendorExtension", JsonValue::Object(extension));
    let result: ToolResult = JsonValue::Object(outer);

    let args = result
        .get("vendorExtension")
        .and_then(|extension| extension.get("args"))
        .expect("arguments");
    assert_eq!(args.get("count"), Some(&json("3")));
    assert_eq!(args.get("nested"), Some(&json(r#"{"enabled": true}"#)));
}

#[test]
fn transport_summary_has_a_tagged_serde_shape() {
    let summary = TransportSummary::Http {
        url: Url::parse("https://example.test/mcp").expect("valid URL"),
    };

    assert_eq!(
        summary.to_json().to_text(),
        json(r#"{"kind": "Http", "url": "https://example.test/mcp"}"#).to_text()
    );
    let stdio = TransportSummary::Stdio {
        command: "run".to_owned(),
    };
    assert_eq!(
        stdio.to_json().to_text(),
        json(r#"{"kind": "Stdio", "command": "run"}"#).to_text()
    );
}

#[test]
fn per_server_exposes_the_server_for_both_variants() {
    let success = PerServer::Success {
        server: "alpha".into(),
        value: 1_u8,
    };
    let failure = PerServer::<u8>::Failure {
        server: "beta".into(),
        error: CliError::new(ErrorKind::NetworkError, "unavailable", ExitCode::Network),
    };

    assert_eq!(success.server(), "alpha");
    assert_eq!(failure.server(), "beta");
}

#[test]
fn urls_are_normalized_and_relative_ones_rejected() {
    let url = Url::parse("HTTP://Example.test:80/a/../b").expect("valid URL");
    assert_eq!(url.as_str(), "http://example.test/b");
    assert_eq!(url.scheme(), "http");
    assert!(url.has_host());
    let mail = Url::parse("mailto:someone@example.test").expect("valid URL");
    assert_eq!(mail.scheme(), "mailto");
    assert!(!mail.has_host());
    assert_eq!(Url::parse("/relative"), None);
}
