use srep::errors::{ConfigError, RunError};
use srep::runner::{compile_rules, parse, parse_escaped, sr_text};

fn rules(pairs: &[(&str, &str)], escape: bool) -> Vec<srep::runner::SearchReplace> {
    let search: Vec<String> = pairs.iter().map(|p| p.0.to_string()).collect();
    let replace: Vec<String> = pairs.iter().map(|p| p.1.to_string()).collect();
    compile_rules(&search, &replace, escape).unwrap()
}

fn run(pairs: &[(&str, &str)], escape: bool, text: &str) -> (String, bool) {
    let rs = rules(pairs, escape);
    let (out, changed) = sr_text(&rs, text.as_bytes().to_vec()).unwrap();
    (String::from_utf8(out).unwrap(), changed)
}

#[test]
fn capture_group_with_uppercase_modifier() {
    // the headline scenario: (foo) -> [$(1U)]
    let (out, changed) = run(&[("(foo)", "[$(1U)]")], false, "foo bar foo");
    assert_eq!(out, "[FOO] bar [FOO]");
    assert!(changed);
}

#[test]
fn chained_rules_see_earlier_output() {
    // ("a" -> "b") then ("b" -> "c") on "a" gives "c", not "b"
    let (out, changed) = run(&[("a", "b"), ("b", "c")], false, "a");
    assert_eq!(out, "c");
    assert!(changed);
}

#[test]
fn escape_mode_matches_only_the_literal() {
    let (out, changed) = run(&[("a.b", "X")], true, "a.b axb");
    assert_eq!(out, "X axb");
    assert!(changed);

    let (out, changed) = run(&[("a.b", "X")], true, "axb ayb");
    assert_eq!(out, "axb ayb");
    assert!(!changed);
}

#[test]
fn without_escape_the_dot_is_a_metacharacter() {
    let (out, _) = run(&[("a.b", "X")], false, "a.b axb");
    assert_eq!(out, "X X");
}

#[test]
fn no_match_leaves_text_unchanged_and_unflagged() {
    let (out, changed) = run(&[("z", "q"), ("yy", "x")], false, "abc abc");
    assert_eq!(out, "abc abc");
    assert!(!changed);
}

#[test]
fn zero_width_matches_terminate_and_advance() {
    let (out, changed) = run(&[("x*", "-")], false, "abc");
    assert_eq!(out, "-a-b-c-");
    assert!(changed);
}

#[test]
fn zero_width_match_on_empty_text() {
    let (out, changed) = run(&[("x*", "-")], false, "");
    assert_eq!(out, "-");
    assert!(changed);
}

#[test]
fn replacement_is_not_rescanned_within_a_pass() {
    let (out, changed) = run(&[("a", "aa")], false, "aba");
    assert_eq!(out, "aabaa");
    assert!(changed);
}

#[test]
fn later_rule_rescans_inserted_text() {
    // one run of [A, B] equals running A, then B on A's output
    let pairs = [("o", "oo"), ("oo", "0")];
    let (combined, _) = run(&pairs, false, "foo");
    let (after_a, _) = run(&pairs[..1], false, "foo");
    let (after_b, _) = run(&pairs[1..], false, &after_a);
    assert_eq!(combined, after_b);
    assert_eq!(combined, "f00");
}

#[test]
fn group_zero_is_the_whole_match() {
    let (out, _) = run(&[("b+", "<$(0)>")], false, "abbba");
    assert_eq!(out, "a<bbb>a");
}

#[test]
fn several_groups_expand_in_plan_order() {
    let (out, _) = run(&[("(f)(o+)", "$(2L)$(1U)")], false, "foo");
    assert_eq!(out, "ooF");
}

#[test]
fn missing_group_is_a_run_error() {
    let rs = rules(&[("(a)|(b)", "$(2)")], false);
    let err = sr_text(&rs, b"a".to_vec()).unwrap_err();
    assert_eq!(err, RunError::MissingGroup(2));
}

#[test]
fn out_of_range_group_is_a_run_error() {
    let rs = rules(&[("(a)", "$(5)")], false);
    let err = sr_text(&rs, b"xax".to_vec()).unwrap_err();
    assert_eq!(err, RunError::MissingGroup(5));
}

#[test]
fn empty_rule_list_changes_nothing() {
    let rs: Vec<srep::runner::SearchReplace> = Vec::new();
    let (out, changed) = sr_text(&rs, b"abc".to_vec()).unwrap();
    assert_eq!(out, b"abc".to_vec());
    assert!(!changed);
}

#[test]
fn unequal_counts_fail_before_any_text() {
    let search = vec!["a".to_string(), "b".to_string()];
    let replace = vec!["x".to_string()];
    let err = compile_rules(&search, &replace, false).unwrap_err();
    assert!(matches!(err, ConfigError::UnequalCounts));
}

#[test]
fn bad_pattern_fails_compilation() {
    let err = parse("foo(", "x").unwrap_err();
    assert!(matches!(err, ConfigError::BadRegex(_)));
}

#[test]
fn unknown_modifier_fails_rule_compilation() {
    let err = parse("(a)", "$(1<Z>)").unwrap_err();
    assert!(matches!(err, ConfigError::UnknownModifier(ref n) if n == b"Z"));
}

#[test]
fn empty_group_number_fails_rule_compilation() {
    let err = parse("(a)", "$()").unwrap_err();
    assert!(matches!(err, ConfigError::EmptyGroupNumber));
    let search = vec!["a".to_string()];
    let replace = vec!["$(Z)".to_string()];
    let err = compile_rules(&search, &replace, false).unwrap_err();
    assert!(matches!(err, ConfigError::EmptyGroupNumber));
}

#[test]
fn escape_mode_never_expands_captures() {
    let sr = parse_escaped("(a)", "$(1)").unwrap();
    let (out, changed) = sr_text(&vec![sr], b"x(a)y".to_vec()).unwrap();
    assert_eq!(out, b"x$(1)y".to_vec());
    assert!(changed);
}

#[test]
fn escaped_template_literal_in_normal_mode() {
    let (out, _) = run(&[("foo", "$$(1)")], false, "foo");
    assert_eq!(out, "$(1)");
}

#[test]
fn pass_works_at_text_boundaries() {
    // `^` re-anchors at the head of the unread suffix on every search
    let (out, _) = run(&[("^a", "S")], false, "aaa");
    assert_eq!(out, "SSS");
    let (out, _) = run(&[("a$", "E")], false, "aaa");
    assert_eq!(out, "aaE");
}

#[test]
fn single_pass_through_the_engine() {
    let sr = parse("o", "0").unwrap();
    let mut ft = srep::engine::FileTransformer::new(b"foo".to_vec());
    srep::runner::run_pass(&sr, &mut ft).unwrap();
    let (out, changed) = ft.into_parts();
    assert_eq!(out, b"f00".to_vec());
    assert!(changed);
}

#[test]
fn empty_replacement_deletes_matches() {
    let (out, changed) = run(&[("l", "")], false, "hello world");
    assert_eq!(out, "heo word");
    assert!(changed);
}
