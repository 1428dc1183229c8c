use srep::modifiers::{apply_modifier, get_modifier, to_lower, to_upper, Modifier};

#[test]
fn to_upper_maps_ascii_letters_only() {
    assert_eq!(to_upper(b"foo bar1!"), b"FOO BAR1!".to_vec());
    assert_eq!(to_upper(b""), b"".to_vec());
}

#[test]
fn to_lower_maps_ascii_letters_only() {
    assert_eq!(to_lower(b"FoO BaR1!"), b"foo bar1!".to_vec());
    assert_eq!(to_lower(b""), b"".to_vec());
}

#[test]
fn non_ascii_bytes_pass_through_unchanged() {
    let s = "héllo".as_bytes();
    assert_eq!(to_upper(s), "HéLLO".as_bytes().to_vec());
}

#[test]
fn registry_knows_u_and_l() {
    assert_eq!(get_modifier(b"U"), Some(Modifier::Upper));
    assert_eq!(get_modifier(b"L"), Some(Modifier::Lower));
}

#[test]
fn registry_rejects_unknown_names() {
    assert_eq!(get_modifier(b"Z"), None);
    assert_eq!(get_modifier(b"UU"), None);
    assert_eq!(get_modifier(b""), None);
}

#[test]
fn apply_modifier_dispatches() {
    assert_eq!(apply_modifier(Modifier::Upper, b"ab"), b"AB".to_vec());
    assert_eq!(apply_modifier(Modifier::Lower, b"AB"), b"ab".to_vec());
}
