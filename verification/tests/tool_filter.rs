use mcp_cli::config::ToolFilterConfig;
use mcp_cli::domain::ToolInfo;
use mcp_cli::json::{JsonObject, JsonValue};
use mcp_cli::policy::tool_filter::{ToolFilter, ToolPattern};

fn config(allowed: &[&str], disabled: &[&str]) -> ToolFilterConfig {
    ToolFilterConfig {
        allowed_tools: allowed
            .iter()
            .map(|pattern| (*pattern).to_owned())
            .collect(),
        disabled_tools: disabled
            .iter()
            .map(|pattern| (*pattern).to_owned())
            .collect(),
    }
}

fn tool(name: &str) -> ToolInfo {
    ToolInfo {
        name: name.to_owned(),
        description: None,
        input_schema: JsonValue::Object(JsonObject::new()),
    }
}

#[test]
fn empty_configuration_allows_every_name_and_empty_pattern_is_anchored() {
    let filter = ToolFilter::new(&ToolFilterConfig::default());

    assert!(filter.is_allowed(""));
    assert!(filter.is_allowed("any/tool"));
    assert!(ToolPattern::new("").is_match(""));
    assert!(!ToolPattern::new("").is_match("tool"));
    assert!(ToolPattern::new("*").is_match(""));
    assert!(ToolPattern::new("read").is_match("read"));
    assert!(!ToolPattern::new("read").is_match("read_file"));
    assert!(!ToolPattern::new("read").is_match("prefix_read"));
}

#[test]
fn matching_is_case_insensitive_and_regex_characters_are_literal() {
    assert!(ToolPattern::new("READ.+(FILE)[0]").is_match("read.+(file)[0]"));
    assert!(ToolPattern::new("CAFÉ").is_match("café"));
    assert!(!ToolPattern::new("read.+").is_match("read_anything"));
    assert!(!ToolPattern::new("[ab]").is_match("a"));
}

#[test]
fn question_mark_consumes_exactly_one_unicode_scalar() {
    let pattern = ToolPattern::new("工具/?");

    assert!(pattern.is_match("工具/蟹"));
    assert!(pattern.is_match("工具/🦀"));
    assert!(!pattern.is_match("工具/"));
    assert!(!pattern.is_match("工具/🦀蟹"));
}

#[test]
fn star_can_span_slashes_and_question_mark_can_match_one_slash() {
    assert!(ToolPattern::new("server*tool").is_match("server/a/b/tool"));
    assert!(ToolPattern::new("server?tool").is_match("server/tool"));
    assert!(!ToolPattern::new("server?tool").is_match("server/a/tool"));
}

#[test]
fn disabled_patterns_take_precedence_over_allowed_patterns() {
    let filter = ToolFilter::new(&config(&["READ_*", "write_*"], &["*/secret", "read_*"]));

    assert!(!filter.is_allowed("read_file"));
    assert!(!filter.is_allowed("READ_SECRET"));
    assert!(filter.is_allowed("write_file"));
    assert!(!filter.is_allowed("delete_file"));
}

#[test]
fn empty_allowed_list_defaults_to_allow_unless_disabled() {
    let filter = ToolFilter::new(&config(&[], &["danger*"]));

    assert!(filter.is_allowed("safe/tool"));
    assert!(!filter.is_allowed("DANGER/tool"));
}

#[test]
fn filter_is_the_stable_subsequence_selected_by_is_allowed() {
    let filter = ToolFilter::new(&config(&["*file*"], &["delete_*", "private/*"]));
    let tools = vec![
        tool("write_file"),
        tool("delete_file"),
        tool("search_files"),
        tool("private/file"),
        tool("read_file"),
    ];
    let expected: Vec<String> = tools
        .iter()
        .filter(|tool| filter.is_allowed(&tool.name))
        .map(|tool| tool.name.clone())
        .collect();

    let actual: Vec<String> = filter
        .filter(tools)
        .into_iter()
        .map(|tool| tool.name)
        .collect();

    assert_eq!(actual, expected);
    assert_eq!(actual, ["write_file", "search_files", "read_file"]);
}

#[test]
fn star_runs_compile_to_one_star() {
    for (long, short) in [("***", "*"), ("a**b***c", "a*b*c"), ("**?**", "*?*")] {
        assert_eq!(ToolPattern::new(long), ToolPattern::new(short), "{long}");
        for name in ["", "abc", "a/b/c", "axbyc", "x", "ab"] {
            assert_eq!(
                ToolPattern::new(long).is_match(name),
                ToolPattern::new(short).is_match(name),
                "{long} on {name}"
            );
        }
    }
    assert_ne!(ToolPattern::new("a*b"), ToolPattern::new("ab"));
}
