use mcpg_plugin_reliability_rate_limit::glob_match;

#[test]
fn glob_match_patterns() {
    assert!(glob_match("*", "anything"));
    assert!(glob_match("admin.*", "admin.delete"));
    assert!(glob_match("admin.*", "admin."));
    assert!(!glob_match("admin.*", "user.delete"));
    assert!(glob_match("*.info", "system.info"));
    assert!(!glob_match("*.info", "system.stats"));
    assert!(glob_match("exact", "exact"));
    assert!(!glob_match("exact", "other"));
}

#[test]
fn a_question_mark_stands_for_one_character() {
    assert!(glob_match("a?c", "abc"));
    assert!(glob_match("a?c", "a\u{e9}c"));
    assert!(!glob_match("a?c", "ac"));
    assert!(!glob_match("a?c", "abbc"));
    assert!(!glob_match("?", ""));
}

#[test]
fn a_star_stands_for_any_run() {
    assert!(glob_match("*", ""));
    assert!(glob_match("**", "x"));
    assert!(glob_match("a*b*c", "a1b2b3c"));
    assert!(!glob_match("a*b*c", "a1b2b3"));
    assert!(glob_match("*a", "aaaa"));
    assert!(glob_match("*?a", "aa"));
    assert!(!glob_match("*?a", "a"));
}

#[test]
fn the_empty_pattern_matches_the_empty_name_only() {
    assert!(glob_match("", ""));
    assert!(!glob_match("", "x"));
}

#[test]
fn matching_is_not_exponential() {
    let name = "a".repeat(300);
    let pattern = "a*".repeat(100) + "b";
    assert!(!glob_match(&pattern, &name));
}
