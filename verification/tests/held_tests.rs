use keyoverlay::held::HeldKeySet;

#[test]
fn press_notifies_only_when_not_held() {
    let mut h = HeldKeySet::new();
    assert!(h.try_press("z"));
    assert!(!h.try_press("z"));
    assert!(!h.try_press("z"));
}

#[test]
fn release_notifies_only_when_held() {
    let mut h = HeldKeySet::new();
    assert!(!h.try_release("z"));
    assert!(h.try_press("z"));
    assert!(h.try_release("z"));
    assert!(!h.try_release("z"));
}

#[test]
fn holding_is_case_insensitive() {
    let mut h = HeldKeySet::new();
    assert!(h.try_press("Z"));
    assert!(!h.try_press("z"));
    assert!(h.contains("z"));
    assert!(h.try_release("z"));
    assert!(!h.contains("Z"));
}

#[test]
fn keys_are_held_independently() {
    let mut h = HeldKeySet::new();
    assert!(h.try_press("z"));
    assert!(h.try_press("x"));
    assert!(h.try_release("z"));
    assert!(h.contains("x"));
    assert!(!h.contains("z"));
    assert!(h.try_press("z"));
}

#[test]
fn clear_forgets_all_held_keys() {
    let mut h = HeldKeySet::new();
    assert!(h.try_press("z"));
    assert!(h.try_press("x"));
    h.clear();
    assert!(!h.contains("z"));
    assert!(!h.contains("x"));
    assert!(h.try_press("z"));
}
