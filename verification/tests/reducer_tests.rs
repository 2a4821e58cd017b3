use keyoverlay::keymap::build_keymap;
use keyoverlay::notify::Notification;
use keyoverlay::session::Session;

fn entries(list: &[&str]) -> Vec<String> {
    list.iter().map(|s| s.to_string()).collect()
}

fn session(keys: &[&str], reset: &str) -> Session {
    let map = build_keymap(entries(keys)).unwrap();
    Session::new(map, reset.to_string())
}

fn expect_key(n: Option<Notification>, label: &str, is_down: bool, ordinal: usize) {
    match n {
        Some(Notification::KeyChanged { label: l, is_down: d, ordinal: o }) => {
            assert_eq!(l, label);
            assert_eq!(d, is_down);
            assert_eq!(o, ordinal);
        },
        other => panic!("expected a KeyChanged notification, got {:?}", describe(&other)),
    }
}

fn expect_reset(n: Option<Notification>) {
    assert!(matches!(n, Some(Notification::Reset)));
}

fn expect_silent(n: Option<Notification>) {
    assert!(n.is_none());
}

fn describe(n: &Option<Notification>) -> String {
    match n {
        None => "nothing".to_string(),
        Some(Notification::Reset) => "Reset".to_string(),
        Some(Notification::KeyChanged { label, is_down, ordinal }) => {
            format!("KeyChanged({}, {}, {})", label, is_down, ordinal)
        },
    }
}

#[test]
fn repeated_presses_notify_once() {
    let mut s = session(&["Z"], "End");
    expect_key(s.handle_event("z", true), "Z", true, 0);
    expect_silent(s.handle_event("z", true));
    expect_silent(s.handle_event("z", true));
}

#[test]
fn release_reenables_press_notification() {
    let mut s = session(&["Z"], "End");
    expect_key(s.handle_event("z", true), "Z", true, 0);
    expect_key(s.handle_event("z", false), "Z", false, 0);
    expect_key(s.handle_event("z", true), "Z", true, 0);
}

#[test]
fn release_of_unheld_key_is_silent() {
    let mut s = session(&["Z"], "End");
    expect_silent(s.handle_event("z", false));
}

#[test]
fn duplicate_release_is_silent() {
    let mut s = session(&["Z"], "End");
    expect_key(s.handle_event("z", true), "Z", true, 0);
    expect_key(s.handle_event("z", false), "Z", false, 0);
    expect_silent(s.handle_event("z", false));
}

#[test]
fn unknown_keys_are_ignored() {
    let mut s = session(&["Z"], "End");
    expect_silent(s.handle_event("q", true));
    expect_silent(s.handle_event("q", false));
}

#[test]
fn events_match_case_insensitively() {
    let mut s = session(&["Z"], "End");
    expect_key(s.handle_event("Z", true), "Z", true, 0);
    expect_silent(s.handle_event("z", true));
    expect_key(s.handle_event("z", false), "Z", false, 0);
}

#[test]
fn reset_release_always_fires() {
    let mut s = session(&["Z"], "End");
    expect_reset(s.handle_event("end", false));
    expect_reset(s.handle_event("End", false));
    expect_reset(s.handle_event("END", false));
}

#[test]
fn reset_press_is_silent() {
    let mut s = session(&["Z"], "End");
    expect_silent(s.handle_event("end", true));
    expect_reset(s.handle_event("end", false));
}

#[test]
fn reset_takes_precedence_over_monitored_binding() {
    // A key that is both monitored and the reset binding only ever
    // fires Reset, and only on release.
    let mut s = session(&["End"], "End");
    expect_silent(s.handle_event("end", true));
    expect_reset(s.handle_event("end", false));
}

#[test]
fn aliased_key_reports_its_label() {
    let mut s = session(&["Z", "X:Dash"], "End");
    expect_key(s.handle_event("x", true), "Dash", true, 1);
}

#[test]
fn end_to_end_scenario() {
    let mut s = session(&["Z", "X:Dash"], "End");
    expect_key(s.handle_event("z", true), "Z", true, 0);
    expect_silent(s.handle_event("z", true));
    expect_key(s.handle_event("z", false), "Z", false, 0);
    expect_key(s.handle_event("x", true), "Dash", true, 1);
    expect_reset(s.handle_event("end", false));
}

#[test]
fn wire_form_of_key_change() {
    let n = Notification::KeyChanged { label: "Fire".to_string(), is_down: true, ordinal: 0 };
    assert_eq!(n.to_wire(), "[\"Fire\", true, 0]");
    let n = Notification::KeyChanged { label: "Z".to_string(), is_down: false, ordinal: 12 };
    assert_eq!(n.to_wire(), "[\"Z\", false, 12]");
}

#[test]
fn wire_form_of_reset() {
    assert_eq!(Notification::Reset.to_wire(), "reset");
}
