use mcp_cli::policy::search_glob::SearchMatcher;

fn matcher(pattern: &str) -> SearchMatcher {
    SearchMatcher::compile(pattern).expect("search glob compilation is infallible")
}

#[test]
fn empty_patterns_and_matches_are_anchored() {
    assert!(matcher("").is_match(""));
    assert!(!matcher("").is_match("tool"));
    assert!(matcher("read").is_match("read"));
    assert!(!matcher("read").is_match("read_file"));
    assert!(!matcher("read").is_match("prefix_read"));
    assert!(matcher("*").is_match(""));
    assert!(matcher("**").is_match(""));
}

#[test]
fn matching_is_case_insensitive_for_unicode_scalars() {
    assert!(matcher("READ/CAFÉ").is_match("read/café"));
    assert!(matcher("工具/ẞ").is_match("工具/ß"));
    assert!(!matcher("工具").is_match("工貝"));
}

#[test]
fn single_star_matches_only_within_a_path_segment() {
    assert!(matcher("server/*/tool").is_match("server/alpha/tool"));
    assert!(matcher("server/*/tool").is_match("server//tool"));
    assert!(!matcher("server/*/tool").is_match("server/a/b/tool"));
    assert!(!matcher("*").is_match("alpha/beta"));
    assert!(matcher("a*b").is_match("ab"));
    assert!(matcher("a*b").is_match("a工具b"));
}

#[test]
fn two_or_more_stars_form_one_globstar_that_crosses_slashes() {
    for pattern in ["**", "***", "****"] {
        assert!(matcher(pattern).is_match("alpha/beta/gamma"));
        assert!(matcher(pattern).is_match(""));
    }

    assert!(matcher("server/**/tool").is_match("server/a/b/tool"));
    assert!(matcher("server/**tool").is_match("server/a/b/tool"));
    assert!(!matcher("server/**/tool").is_match("server/tool"));
}

#[test]
fn question_mark_matches_exactly_one_non_slash_unicode_scalar() {
    let pattern = matcher("工具/?");

    assert!(pattern.is_match("工具/蟹"));
    assert!(pattern.is_match("工具/🦀"));
    assert!(!pattern.is_match("工具/"));
    assert!(!pattern.is_match("工具//"));
    assert!(!pattern.is_match("工具/🦀蟹"));
}

#[test]
fn regular_expression_metacharacters_are_all_literal() {
    let literal = r".^$+()[]{}|\\";

    assert!(matcher(literal).is_match(literal));
    assert!(matcher("read.+(file)[0]{1}|end").is_match("READ.+(FILE)[0]{1}|END"));
    assert!(!matcher("read.+").is_match("read_anything"));
    assert!(!matcher("[ab]").is_match("a"));
    assert!(!matcher("a|b").is_match("a"));
}

#[test]
fn mixed_wildcards_preserve_slash_boundaries_and_full_anchoring() {
    let pattern = matcher("root/**/item-?.*");

    assert!(pattern.is_match("ROOT/a/b/item-蟹.json"));
    assert!(!pattern.is_match("prefix/root/a/b/item-x.json"));
    assert!(!pattern.is_match("root/a/b/item-/json"));
    assert!(!pattern.is_match("root/a/b/item-xy.json"));
}

#[test]
fn longer_star_runs_compile_to_the_same_matcher() {
    for (long, short) in [
        ("***", "**"),
        ("a****b", "a**b"),
        ("*****/x***?*", "**/x**?*"),
    ] {
        assert_eq!(matcher(long), matcher(short), "{long}");
        for name in ["", "a", "ab", "a/b", "a/x/yz", "/xyz", "b/x/q"] {
            assert_eq!(
                matcher(long).is_match(name),
                matcher(short).is_match(name),
                "{long} on {name}"
            );
        }
    }
    assert_ne!(matcher("a*b"), matcher("a**b"));
    assert!(matcher("a**b").is_match("a/b"));
    assert!(!matcher("a*b").is_match("a/b"));
}
