use keyoverlay::registry::ClientRegistry;

#[test]
fn fresh_registry_is_empty() {
    let r = ClientRegistry::new();
    assert_eq!(r.count(), 0);
    assert_eq!(r.broadcast_targets(), Vec::<u64>::new());
    assert!(r.can_accept());
}

#[test]
fn add_returns_sequential_fresh_handles() {
    let mut r = ClientRegistry::new();
    let a = r.add();
    let b = r.add();
    let c = r.add();
    assert_eq!((a, b, c), (0, 1, 2));
    assert_eq!(r.count(), 3);
    assert!(r.is_registered(a) && r.is_registered(b) && r.is_registered(c));
}

#[test]
fn snapshot_preserves_registration_order() {
    let mut r = ClientRegistry::new();
    let a = r.add();
    let b = r.add();
    let c = r.add();
    assert_eq!(r.broadcast_targets(), vec![a, b, c]);
}

#[test]
fn remove_is_idempotent_and_ignores_unknown_handles() {
    let mut r = ClientRegistry::new();
    let a = r.add();
    let b = r.add();
    r.remove(a);
    assert!(!r.is_registered(a));
    r.remove(a);
    r.remove(999);
    assert_eq!(r.broadcast_targets(), vec![b]);
}

#[test]
fn prune_removes_exactly_the_failed_handles() {
    let mut r = ClientRegistry::new();
    let a = r.add();
    let b = r.add();
    let c = r.add();
    let d = r.add();
    r.prune_failed(&vec![b, d]);
    assert_eq!(r.broadcast_targets(), vec![a, c]);
    assert!(!r.is_registered(b));
    assert!(!r.is_registered(d));
}

#[test]
fn handles_of_removed_subscribers_are_never_reissued() {
    let mut r = ClientRegistry::new();
    let a = r.add();
    r.remove(a);
    let b = r.add();
    let c = r.add();
    assert_ne!(b, a);
    assert_ne!(c, a);
    assert!(!r.is_registered(a));
}
