use srep::errors::ConfigError;
use srep::modifiers::Modifier;
use srep::template::{parse_replace, ReplacePart};

fn lit(part: &ReplacePart) -> Option<&[u8]> {
    match part {
        ReplacePart::Str(v) => Some(v.as_slice()),
        _ => None,
    }
}

fn group(part: &ReplacePart) -> Option<(usize, Option<Modifier>)> {
    match part {
        ReplacePart::Match(g) => Some((g.id, g.transform)),
        _ => None,
    }
}

#[test]
fn plain_text_is_one_literal() {
    let plan = parse_replace(b"plain text").unwrap();
    assert_eq!(plan.len(), 1);
    assert_eq!(lit(&plan[0]), Some(&b"plain text"[..]));
}

#[test]
fn bare_marker_is_a_capture_ref() {
    let plan = parse_replace(b"$(1)").unwrap();
    assert_eq!(plan.len(), 1);
    assert_eq!(group(&plan[0]), Some((1, None)));
}

#[test]
fn marker_with_modifier_binds_the_transform() {
    let plan = parse_replace(b"$(1U)").unwrap();
    assert_eq!(plan.len(), 1);
    assert_eq!(group(&plan[0]), Some((1, Some(Modifier::Upper))));
}

#[test]
fn marker_with_bracketed_modifier_binds_the_transform() {
    let plan = parse_replace(b"$(2<L>)").unwrap();
    assert_eq!(plan.len(), 1);
    assert_eq!(group(&plan[0]), Some((2, Some(Modifier::Lower))));
}

#[test]
fn text_around_marker_stays_literal() {
    let plan = parse_replace(b"a$(0)b").unwrap();
    assert_eq!(plan.len(), 3);
    assert_eq!(lit(&plan[0]), Some(&b"a"[..]));
    assert_eq!(group(&plan[1]), Some((0, None)));
    assert_eq!(lit(&plan[2]), Some(&b"b"[..]));
}

#[test]
fn escaped_marker_is_literal() {
    // one leading `$` is consumed; the marker itself is not expanded
    let plan = parse_replace(b"$$(1)").unwrap();
    assert_eq!(plan.len(), 1);
    assert_eq!(lit(&plan[0]), Some(&b"$(1)"[..]));
}

#[test]
fn escaped_marker_merges_with_neighbouring_text() {
    let plan = parse_replace(b"a$$(1U)b").unwrap();
    assert_eq!(plan.len(), 1);
    assert_eq!(lit(&plan[0]), Some(&b"a$(1U)b"[..]));
}

#[test]
fn dollar_before_escaped_marker_stays() {
    let plan = parse_replace(b"$$$(1)").unwrap();
    assert_eq!(plan.len(), 1);
    assert_eq!(lit(&plan[0]), Some(&b"$$(1)"[..]));
}

#[test]
fn lone_dollar_is_literal() {
    let plan = parse_replace(b"100$ only").unwrap();
    assert_eq!(plan.len(), 1);
    assert_eq!(lit(&plan[0]), Some(&b"100$ only"[..]));
}

#[test]
fn malformed_marker_is_literal() {
    let plan = parse_replace(b"$(x) and $(1").unwrap();
    assert_eq!(plan.len(), 1);
    assert_eq!(lit(&plan[0]), Some(&b"$(x) and $(1"[..]));
}

#[test]
fn empty_group_number_fails_compilation() {
    assert!(matches!(
        parse_replace(b"$()").unwrap_err(),
        ConfigError::EmptyGroupNumber
    ));
    assert!(matches!(
        parse_replace(b"$(U)").unwrap_err(),
        ConfigError::EmptyGroupNumber
    ));
    assert!(matches!(
        parse_replace(b"$(ABC)").unwrap_err(),
        ConfigError::EmptyGroupNumber
    ));
    assert!(matches!(
        parse_replace(b"$(<U>)").unwrap_err(),
        ConfigError::EmptyGroupNumber
    ));
}

#[test]
fn escaped_empty_marker_is_literal() {
    let plan = parse_replace(b"$$()").unwrap();
    assert_eq!(plan.len(), 1);
    assert_eq!(lit(&plan[0]), Some(&b"$()"[..]));
}

#[test]
fn unknown_modifier_fails_compilation() {
    let err = parse_replace(b"$(1Z)").unwrap_err();
    assert!(matches!(err, ConfigError::UnknownModifier(ref n) if n == b"Z"));
}

#[test]
fn unknown_bracketed_modifier_fails_compilation() {
    let err = parse_replace(b"$(1<Z>)").unwrap_err();
    assert!(matches!(err, ConfigError::UnknownModifier(ref n) if n == b"Z"));
}

#[test]
fn escaped_unknown_modifier_is_fine() {
    let plan = parse_replace(b"$$(1<Z>)").unwrap();
    assert_eq!(plan.len(), 1);
    assert_eq!(lit(&plan[0]), Some(&b"$(1<Z>)"[..]));
}

#[test]
fn oversized_group_number_fails_compilation() {
    let err = parse_replace(b"$(99999999999999999999999999)").unwrap_err();
    assert!(matches!(err, ConfigError::GroupTooBig));
}

#[test]
fn adjacent_markers_compile_in_order() {
    let plan = parse_replace(b"$(1)$(2)").unwrap();
    assert_eq!(plan.len(), 2);
    assert_eq!(group(&plan[0]), Some((1, None)));
    assert_eq!(group(&plan[1]), Some((2, None)));
}
