use keyoverlay::keymap::{build_keymap, serialize_binding, serialize_bindings};

fn entries(list: &[&str]) -> Vec<String> {
    list.iter().map(|s| s.to_string()).collect()
}

#[test]
fn builds_bare_and_aliased_entries() {
    let map = build_keymap(entries(&["Z", "X:Fire"])).unwrap();
    assert_eq!(map.len(), 2);
    assert_eq!(map.lookup("z"), Some(("Z".to_string(), 0)));
    assert_eq!(map.lookup("x"), Some(("Fire".to_string(), 1)));
}

#[test]
fn lookup_is_case_insensitive() {
    let map = build_keymap(entries(&["Z", "X:Fire"])).unwrap();
    assert_eq!(map.lookup("Z"), Some(("Z".to_string(), 0)));
    assert_eq!(map.lookup("X"), Some(("Fire".to_string(), 1)));
}

#[test]
fn unknown_key_is_absent() {
    let map = build_keymap(entries(&["Z"])).unwrap();
    assert_eq!(map.lookup("q"), None);
    assert_eq!(map.lookup(""), None);
}

#[test]
fn empty_configuration_builds_empty_map() {
    let map = build_keymap(Vec::new()).unwrap();
    assert_eq!(map.len(), 0);
    assert_eq!(map.lookup("z"), None);
}

#[test]
fn duplicate_entry_keeps_last_binding_and_its_ordinal() {
    let map = build_keymap(entries(&["Z", "z:Alt"])).unwrap();
    assert_eq!(map.len(), 1);
    assert_eq!(map.lookup("z"), Some(("Alt".to_string(), 1)));
}

#[test]
fn ordinals_count_replaced_entries() {
    // The duplicate consumed ordinal 1, so "X" sits at slot 2.
    let map = build_keymap(entries(&["Z", "z:Alt", "X"])).unwrap();
    assert_eq!(map.lookup("x"), Some(("X".to_string(), 2)));
}

#[test]
fn two_separators_are_rejected() {
    let err = build_keymap(entries(&["A:B:C"])).unwrap_err();
    assert_eq!(err.index, 0);
}

#[test]
fn empty_key_before_separator_is_rejected() {
    let err = build_keymap(entries(&[":Fire"])).unwrap_err();
    assert_eq!(err.index, 0);
}

#[test]
fn empty_alias_after_separator_is_rejected() {
    let err = build_keymap(entries(&["Z:"])).unwrap_err();
    assert_eq!(err.index, 0);
}

#[test]
fn error_reports_first_malformed_index() {
    let err = build_keymap(entries(&["Z", "ok:fine", "a::b", ":x"])).unwrap_err();
    assert_eq!(err.index, 2);
}

#[test]
fn serializes_bare_binding() {
    assert_eq!(serialize_binding("Z", None), "Z");
}

#[test]
fn serializes_aliased_binding() {
    assert_eq!(serialize_binding("Z", Some("Fire")), "Z:Fire");
}

#[test]
fn serializes_a_whole_binding_list_in_order() {
    let bindings = vec![
        ("Z".to_string(), None),
        ("X".to_string(), Some("Fire".to_string())),
    ];
    assert_eq!(
        serialize_bindings(&bindings),
        vec!["Z".to_string(), "X:Fire".to_string()]
    );
}

#[test]
fn serialized_binding_round_trips_through_build() {
    let entry = serialize_binding("Space", Some("Jump"));
    let map = build_keymap(vec![entry]).unwrap();
    assert_eq!(map.lookup("space"), Some(("Jump".to_string(), 0)));
}
