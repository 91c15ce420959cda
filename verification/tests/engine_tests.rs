use sshwrap::{match_rule, rewrite, substitute, Rule};

fn rule(pattern: &str, template: &str) -> Rule {
    Rule { pattern: pattern.to_string(), template: template.to_string() }
}

#[test]
fn empty_rules_never_rewrite() {
    let rules: Vec<Rule> = Vec::new();
    assert_eq!(rewrite("anyhost", &rules), Ok(None));
    assert_eq!(rewrite("", &rules), Ok(None));
}

#[test]
fn first_match_wins_over_later_rules() {
    let rules = vec![rule("myhost", "replaced"), rule("myhost", "second")];
    assert_eq!(rewrite("myhost", &rules), Ok(Some("replaced".to_string())));
}

#[test]
fn patterns_are_anchored() {
    let rules = vec![rule("foo", "X")];
    assert_eq!(rewrite("foobar", &rules), Ok(None));
    assert_eq!(rewrite("xfoo", &rules), Ok(None));
    assert_eq!(rewrite("foo", &rules), Ok(Some("X".to_string())));
}

#[test]
fn anchoring_covers_a_top_level_alternation() {
    let rules = vec![rule("a|b", "X")];
    assert_eq!(rewrite("ax", &rules), Ok(None));
    assert_eq!(rewrite("xb", &rules), Ok(None));
    assert_eq!(rewrite("a", &rules), Ok(Some("X".to_string())));
    assert_eq!(rewrite("b", &rules), Ok(Some("X".to_string())));
}

#[test]
fn absent_groups_are_dropped_before_indexing() {
    let rules = vec![rule("(a)(b)?(c)", "{1}-{2}")];
    assert_eq!(rewrite("ac", &rules), Ok(Some("a-c".to_string())));
}

#[test]
fn absent_group_markers_in_match_result() {
    let groups = match_rule("(a)(b)?(c)", "ac").unwrap().unwrap();
    assert_eq!(
        groups,
        vec![Some("a".to_string()), None, Some("c".to_string())]
    );
}

#[test]
fn unresolved_placeholder_stays_literal() {
    let rules = vec![rule("(a)(b)", "{5}")];
    assert_eq!(rewrite("ab", &rules), Ok(Some("{5}".to_string())));
    let groups = vec!["a".to_string(), "b".to_string()];
    assert_eq!(substitute("{5}", &groups), "{5}".to_string());
}

#[test]
fn invalid_pattern_is_a_fatal_error() {
    let rules = vec![rule("(unclosed", "x")];
    let err = rewrite("h", &rules).unwrap_err();
    assert_eq!(err.pattern, "(unclosed".to_string());
}

#[test]
fn invalid_pattern_after_a_match_is_not_reached() {
    let rules = vec![rule("h", "ok"), rule("(unclosed", "x")];
    assert_eq!(rewrite("h", &rules), Ok(Some("ok".to_string())));
    let err = rewrite("z", &rules).unwrap_err();
    assert_eq!(err.pattern, "(unclosed".to_string());
}

#[test]
fn rebalancing_parens_cannot_escape_the_anchors() {
    let rules = vec![rule("a)|(b", "X")];
    let err = rewrite("ax", &rules).unwrap_err();
    assert_eq!(err.pattern, "a)|(b".to_string());
}

#[test]
fn pattern_invalid_on_its_own_is_fatal_even_when_its_wrapped_form_compiles() {
    let rules = vec![rule(")x(", "X")];
    let err = rewrite("y", &rules).unwrap_err();
    assert_eq!(err.pattern, ")x(".to_string());
}

#[test]
fn numbered_group_is_substituted() {
    let rules = vec![rule("dev-(\\d+)", "10.0.0.{1}")];
    assert_eq!(rewrite("dev-5", &rules), Ok(Some("10.0.0.5".to_string())));
}

#[test]
fn non_matching_host_passes_through() {
    let rules = vec![rule("dev-(\\d+)", "10.0.0.{1}")];
    assert_eq!(rewrite("prod-5", &rules), Ok(None));
}

#[test]
fn placeholder_is_replaced_at_every_occurrence() {
    let groups = vec!["x".to_string()];
    assert_eq!(substitute("{1}{1}", &groups), "xx".to_string());
}

#[test]
fn placeholders_are_substituted_in_index_order() {
    let groups = vec!["1".to_string(), "2".to_string()];
    assert_eq!(substitute("a{2}b{1}", &groups), "a2b1".to_string());
}

#[test]
fn two_digit_placeholders_are_recognised() {
    let groups: Vec<String> = (1..=10).map(|i| format!("g{}", i)).collect();
    assert_eq!(substitute("{10}/{1}", &groups), "g10/g1".to_string());
}

#[test]
fn later_rule_matches_when_earlier_ones_do_not() {
    let rules = vec![rule("alpha", "A"), rule("beta-(\\w+)", "B-{1}")];
    assert_eq!(rewrite("beta-node", &rules), Ok(Some("B-node".to_string())));
}

#[test]
fn user_at_host_form_is_plain_text() {
    let rules = vec![rule("admin@(.*)", "root@{1}")];
    assert_eq!(
        rewrite("admin@db.internal", &rules),
        Ok(Some("root@db.internal".to_string()))
    );
}
