use keyoverlay::engine::BroadcastEngine;
use keyoverlay::keymap::build_keymap;

fn entries(list: &[&str]) -> Vec<String> {
    list.iter().map(|s| s.to_string()).collect()
}

fn engine(keys: &[&str], reset: &str) -> BroadcastEngine {
    let map = build_keymap(entries(keys)).unwrap();
    BroadcastEngine::new(map, reset.to_string())
}

#[test]
fn emits_wire_messages_in_event_order() {
    let mut e = engine(&["Z", "X:Dash"], "End");
    let stream = [("z", true), ("z", true), ("z", false), ("x", true), ("end", false)];
    let mut out: Vec<String> = Vec::new();
    for (key, down) in stream {
        if let Some(msg) = e.process_event(key, down) {
            out.push(msg);
        }
    }
    assert_eq!(
        out,
        vec![
            "[\"Z\", true, 0]".to_string(),
            "[\"Z\", false, 0]".to_string(),
            "[\"Dash\", true, 1]".to_string(),
            "reset".to_string(),
        ]
    );
}

#[test]
fn broadcast_reaches_every_subscriber_once_in_order() {
    let mut e = engine(&["Z"], "End");
    let a = e.connect();
    let b = e.connect();
    let c = e.connect();
    assert_eq!(e.subscriber_count(), 3);
    assert_eq!(e.broadcast_targets(), vec![a, b, c]);
}

#[test]
fn handles_are_distinct_and_never_reused() {
    let mut e = engine(&["Z"], "End");
    let a = e.connect();
    let b = e.connect();
    assert_ne!(a, b);
    e.disconnect(a);
    let c = e.connect();
    assert_ne!(c, a);
    assert_ne!(c, b);
    assert_eq!(e.broadcast_targets(), vec![b, c]);
}

#[test]
fn disconnect_is_idempotent() {
    let mut e = engine(&["Z"], "End");
    let a = e.connect();
    let b = e.connect();
    e.disconnect(a);
    e.disconnect(a);
    e.disconnect(12345);
    assert_eq!(e.broadcast_targets(), vec![b]);
}

#[test]
fn failed_delivery_prunes_the_subscriber() {
    let mut e = engine(&["Z"], "End");
    let a = e.connect();
    let b = e.connect();
    let c = e.connect();
    e.prune_failed(&vec![b]);
    assert_eq!(e.broadcast_targets(), vec![a, c]);
    // The pruned subscriber is not visited by any later pass.
    e.prune_failed(&vec![b]);
    assert_eq!(e.broadcast_targets(), vec![a, c]);
}

#[test]
fn pruning_several_failures_in_one_pass() {
    let mut e = engine(&["Z"], "End");
    let a = e.connect();
    let b = e.connect();
    let c = e.connect();
    e.prune_failed(&vec![a, c]);
    assert_eq!(e.broadcast_targets(), vec![b]);
}

#[test]
fn interleaved_churn_keeps_registry_consistent() {
    // Sequentialized interleaving of connects, disconnects and pruning
    // broadcasts: no handle may ever appear twice in a snapshot, and a
    // removed handle may never reappear.
    let mut e = engine(&["Z"], "End");
    let mut removed: Vec<u64> = Vec::new();
    let mut live: Vec<u64> = Vec::new();
    for round in 0u64..50 {
        let h = e.connect();
        live.push(h);
        if round % 3 == 0 {
            if let Some(victim) = live.first().copied() {
                e.disconnect(victim);
                live.retain(|x| *x != victim);
                removed.push(victim);
            }
        }
        if round % 7 == 0 && live.len() > 1 {
            let victim = live[live.len() / 2];
            e.prune_failed(&vec![victim]);
            live.retain(|x| *x != victim);
            removed.push(victim);
        }
        let snapshot = e.broadcast_targets();
        assert_eq!(snapshot, live);
        for (i, x) in snapshot.iter().enumerate() {
            for (j, y) in snapshot.iter().enumerate() {
                if i != j {
                    assert_ne!(x, y);
                }
            }
        }
        for r in &removed {
            assert!(!snapshot.contains(r));
        }
    }
}

#[test]
fn reload_with_identical_configuration_is_observably_equivalent() {
    let keys = ["Z", "X:Dash"];
    let mut e1 = engine(&keys, "End");
    let mut e2 = engine(&keys, "End");
    e2.reload(entries(&keys), "End".to_string()).unwrap();
    let stream = [("z", true), ("x", true), ("end", false), ("z", false)];
    for (key, down) in stream {
        assert_eq!(e1.process_event(key, down), e2.process_event(key, down));
    }
}

#[test]
fn reload_clears_held_state() {
    let mut e = engine(&["Z"], "End");
    assert!(e.process_event("z", true).is_some());
    assert!(e.process_event("z", true).is_none());
    e.reload(entries(&["Z"]), "End".to_string()).unwrap();
    // The stale held key must not suppress the next press.
    assert_eq!(e.process_event("z", true), Some("[\"Z\", true, 0]".to_string()));
}

#[test]
fn reload_keeps_subscribers() {
    let mut e = engine(&["Z"], "End");
    let a = e.connect();
    let b = e.connect();
    e.reload(entries(&["Q:Quick"]), "Home".to_string()).unwrap();
    assert_eq!(e.broadcast_targets(), vec![a, b]);
    assert_eq!(e.process_event("q", true), Some("[\"Quick\", true, 0]".to_string()));
    assert_eq!(e.process_event("home", false), Some("reset".to_string()));
}

#[test]
fn failed_reload_leaves_session_running() {
    let mut e = engine(&["Z"], "End");
    let err = e.reload(entries(&["a::b"]), "End".to_string()).unwrap_err();
    assert_eq!(err.index, 0);
    assert_eq!(e.process_event("z", true), Some("[\"Z\", true, 0]".to_string()));
}
