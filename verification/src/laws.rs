//! The laws the library states about itself, proved over the same
//! specification functions its executable contracts are phrased in.

use vstd::prelude::*;

use crate::keymap::{spec_build, spec_lookup, KeyView};
use crate::notify::NoteView;
use crate::registry::{keep_pred, lemma_filter_keeps, other_pred, reg_inv, RegistryView};
use crate::session::{spec_note, spec_run, spec_step, SessionView};
use crate::text::lower;

verus! {

/// What a run of presses of one key emits: a single press notification
/// if the key is monitored, distinct from the reset binding and not
/// already held; nothing at all otherwise.
pub open spec fn press_notes(s: SessionView, key: Seq<char>) -> Seq<NoteView> {
    let k = lower(key);
    match spec_lookup(s.map, k) {
        Some(kv) => if k != s.reset && !s.held.contains(k) {
            seq![NoteView::KeyChanged { label: kv.label, is_down: true, ordinal: kv.ordinal }]
        } else {
            Seq::empty()
        },
        None => Seq::empty(),
    }
}

/// The held set after a run of presses of one key.
pub open spec fn held_after_presses(s: SessionView, key: Seq<char>) -> Set<Seq<char>> {
    let k = lower(key);
    if k != s.reset && spec_lookup(s.map, k) is Some {
        s.held.insert(k)
    } else {
        s.held
    }
}

/// Law: for any sequence of key-down events for the same key with no
/// intervening key-up, exactly one press notification is produced —
/// and none at all when the key is unknown, already held, or the reset
/// binding (whose presses are silent by design).
pub proof fn lemma_press_deduplication(
    s: SessionView,
    key: Seq<char>,
    events: Seq<(Seq<char>, bool)>,
)
    requires
        events.len() >= 1,
        forall|i: int| 0 <= i < events.len() ==> #[trigger] events[i] == (key, true),
    ensures
        spec_run(s, events).0.map == s.map,
        spec_run(s, events).0.reset == s.reset,
        spec_run(s, events).0.held =~= held_after_presses(s, key),
        spec_run(s, events).1 =~= press_notes(s, key),
    decreases events.len(),
{
    let k = lower(key);
    assert(events[events.len() - 1] == (key, true));
    if events.len() == 1 {
        assert(events.drop_last() =~= Seq::<(Seq<char>, bool)>::empty());
        assert(spec_run(s, events).0.held =~= held_after_presses(s, key));
        assert(spec_run(s, events).1 =~= press_notes(s, key));
    } else {
        let d = events.drop_last();
        assert forall|i: int| 0 <= i < d.len() implies #[trigger] d[i] == (key, true) by {
            assert(events[i] == (key, true));
        }
        lemma_press_deduplication(s, key, d);
        let mid = spec_run(s, d).0;
        if k != s.reset && spec_lookup(s.map, k) is Some {
            assert(mid.held.contains(k));
            assert(spec_note(mid, key, true) is None);
            assert(mid.held.insert(k) =~= mid.held);
        }
        assert(spec_run(s, events).0.held =~= held_after_presses(s, key));
        assert(spec_run(s, events).1 =~= press_notes(s, key));
    }
}

/// Law: a key-up for a key that is not currently held (and is not the
/// reset binding, whose releases always fire) produces no notification
/// and leaves the session unchanged.
pub proof fn lemma_release_unheld_silent(s: SessionView, key: Seq<char>)
    requires
        !s.held.contains(lower(key)),
        lower(key) != s.reset,
    ensures
        spec_note(s, key, false) is None,
        spec_step(s, key, false) =~= s,
{
    assert(spec_step(s, key, false).held =~= s.held);
}

/// Law: every release of the reset key produces exactly the `Reset`
/// notification, regardless of held state, and no press of it produces
/// anything; neither touches the held set.
pub proof fn lemma_reset_release_fires(s: SessionView, key: Seq<char>)
    requires
        lower(key) == s.reset,
    ensures
        spec_note(s, key, false) == Some(NoteView::Reset),
        spec_note(s, key, true) is None,
        spec_step(s, key, false) =~= s,
        spec_step(s, key, true) =~= s,
{
}

/// Law: the key-map build is a pure function of the entry list, so
/// reloading with an identical configuration yields an identical table
/// (and, with the same reset string, an observably equivalent session).
pub proof fn lemma_reload_idempotent(entries: Seq<Seq<char>>, m1: Seq<KeyView>, m2: Seq<KeyView>)
    requires
        spec_build(entries) == Ok::<_, int>(m1),
        spec_build(entries) == Ok::<_, int>(m2),
    ensures
        m1 == m2,
{
}

/// The handles equal to `h`.
pub open spec fn eq_pred(h: u64) -> spec_fn(u64) -> bool {
    |x: u64| x == h
}

proof fn lemma_count_distinct(s: Seq<u64>, h: u64)
    requires
        s.no_duplicates(),
    ensures
        s.contains(h) ==> s.filter(eq_pred(h)).len() == 1,
        !s.contains(h) ==> s.filter(eq_pred(h)).len() == 0,
    decreases s.len(),
{
    reveal(Seq::filter);
    if s.len() > 0 {
        let d = s.drop_last();
        assert(d.no_duplicates()) by {
            assert forall|i: int, j: int|
                0 <= i < d.len() && 0 <= j < d.len() && i != j implies d[i] != d[j] by {
                assert(s[i] == d[i] && s[j] == d[j]);
            }
        }
        lemma_count_distinct(d, h);
        if s.last() == h {
            assert(!d.contains(h)) by {
                if d.contains(h) {
                    let i = choose|i: int| 0 <= i < d.len() && d[i] == h;
                    assert(s[i] == s[s.len() - 1]);
                }
            }
            assert(s[s.len() - 1] == h);
            assert(s.contains(h));
        } else {
            if s.contains(h) {
                let i = choose|i: int| 0 <= i < s.len() && s[i] == h;
                assert(d[i] == h);
                assert(d.contains(h));
            }
            if d.contains(h) {
                let i = choose|i: int| 0 <= i < d.len() && d[i] == h;
                assert(s[i] == h);
            }
        }
    }
}

/// Law: one broadcast pass visits every live subscriber exactly once —
/// the snapshot it works through holds each registered handle once and
/// no other.
pub proof fn lemma_broadcast_fanout(r: RegistryView)
    requires
        reg_inv(r),
    ensures
        forall|h: u64| r.subs.contains(h) ==> #[trigger] r.subs.filter(eq_pred(h)).len() == 1,
        forall|h: u64| !r.subs.contains(h) ==> #[trigger] r.subs.filter(eq_pred(h)).len() == 0,
{
    assert forall|h: u64| r.subs.contains(h) implies #[trigger] r.subs.filter(
        eq_pred(h),
    ).len() == 1 by {
        lemma_count_distinct(r.subs, h);
    }
    assert forall|h: u64| !r.subs.contains(h) implies #[trigger] r.subs.filter(
        eq_pred(h),
    ).len() == 0 by {
        lemma_count_distinct(r.subs, h);
    }
}

/// One registry operation, as the surrounding program may issue them in
/// any interleaving (its lock serializes them).
pub ghost enum RegOp {
    /// A client connected.
    Connect,
    /// A client disconnected.
    Disconnect(u64),
    /// A broadcast pass pruned the handles whose delivery failed.
    Prune(Seq<u64>),
}

/// The registry state after one operation, mirroring the contracts of
/// the executable registry methods.
pub open spec fn reg_op_step(r: RegistryView, op: RegOp) -> RegistryView {
    match op {
        RegOp::Connect => if r.next_id < u64::MAX {
            RegistryView { subs: r.subs.push(r.next_id as u64), next_id: r.next_id + 1 }
        } else {
            r
        },
        RegOp::Disconnect(h) => RegistryView { subs: r.subs.filter(other_pred(h)), next_id: r.next_id },
        RegOp::Prune(failed) => RegistryView {
            subs: r.subs.filter(keep_pred(failed)),
            next_id: r.next_id,
        },
    }
}

/// The registry state after a whole sequence of operations.
pub open spec fn reg_run(r: RegistryView, ops: Seq<RegOp>) -> RegistryView
    decreases ops.len(),
{
    if ops.len() == 0 {
        r
    } else {
        reg_op_step(reg_run(r, ops.drop_last()), ops.last())
    }
}

proof fn lemma_reg_op_invariant(r: RegistryView, op: RegOp)
    requires
        reg_inv(r),
    ensures
        reg_inv(reg_op_step(r, op)),
        reg_op_step(r, op).next_id >= r.next_id,
{
    let f = reg_op_step(r, op);
    match op {
        RegOp::Connect => {
            if r.next_id < u64::MAX {
                let h = r.next_id as u64;
                assert forall|i: int, j: int|
                    0 <= i < f.subs.len() && 0 <= j < f.subs.len() && i != j
                    implies f.subs[i] != f.subs[j] by {
                    if i < r.subs.len() && j < r.subs.len() {
                    } else if i < r.subs.len() {
                        assert(f.subs[j] == h && f.subs[i] == r.subs[i]);
                    } else if j < r.subs.len() {
                        assert(f.subs[i] == h && f.subs[j] == r.subs[j]);
                    }
                }
                assert forall|i: int| 0 <= i < f.subs.len() implies f.subs[i] < f.next_id by {
                    if i < r.subs.len() {
                        assert(f.subs[i] == r.subs[i]);
                    } else {
                        assert(f.subs[i] == h);
                    }
                }
            }
        },
        RegOp::Disconnect(h) => {
            lemma_filter_keeps(r.subs, other_pred(h));
            assert forall|i: int| 0 <= i < f.subs.len() implies f.subs[i] < f.next_id by {
                assert(r.subs.contains(f.subs[i]));
                let j = choose|j: int| 0 <= j < r.subs.len() && r.subs[j] == f.subs[i];
            }
        },
        RegOp::Prune(failed) => {
            lemma_filter_keeps(r.subs, keep_pred(failed));
            assert forall|i: int| 0 <= i < f.subs.len() implies f.subs[i] < f.next_id by {
                assert(r.subs.contains(f.subs[i]));
                let j = choose|j: int| 0 <= j < r.subs.len() && r.subs[j] == f.subs[i];
            }
        },
    }
}

/// Law: under any sequence of connect, disconnect and prune operations
/// the registry's handles stay distinct (no subscriber can be visited
/// twice by a broadcast) and the issued-handle bound only grows.
pub proof fn lemma_registry_run_invariant(r: RegistryView, ops: Seq<RegOp>)
    requires
        reg_inv(r),
    ensures
        reg_inv(reg_run(r, ops)),
        reg_run(r, ops).next_id >= r.next_id,
    decreases ops.len(),
{
    if ops.len() > 0 {
        lemma_registry_run_invariant(r, ops.drop_last());
        lemma_reg_op_invariant(reg_run(r, ops.drop_last()), ops.last());
    }
}

/// Law: a subscriber that has been removed (by disconnect or by a
/// failed delivery) never reappears under any later sequence of
/// operations — handles are never reused, so it can receive no further
/// notification.
pub proof fn lemma_removed_stays_removed(r: RegistryView, h: u64, ops: Seq<RegOp>)
    requires
        !r.subs.contains(h),
        (h as int) < r.next_id,
    ensures
        !reg_run(r, ops).subs.contains(h),
        (h as int) < reg_run(r, ops).next_id,
    decreases ops.len(),
{
    if ops.len() > 0 {
        lemma_removed_stays_removed(r, h, ops.drop_last());
        let mid = reg_run(r, ops.drop_last());
        let f = reg_op_step(mid, ops.last());
        match ops.last() {
            RegOp::Connect => {
                if mid.next_id < u64::MAX {
                    assert(!f.subs.contains(h)) by {
                        if f.subs.contains(h) {
                            let i = choose|i: int| 0 <= i < f.subs.len() && f.subs[i] == h;
                            if i < mid.subs.len() {
                                assert(mid.subs[i] == h);
                                assert(mid.subs.contains(h));
                            } else {
                                assert(f.subs[i] == mid.next_id as u64);
                            }
                        }
                    }
                }
            },
            RegOp::Disconnect(g) => {
                lemma_filter_keeps(mid.subs, other_pred(g));
                assert(!f.subs.contains(h)) by {
                    if f.subs.contains(h) {
                        let i = choose|i: int| 0 <= i < f.subs.len() && f.subs[i] == h;
                        assert(mid.subs.contains(f.subs[i]));
                    }
                }
            },
            RegOp::Prune(failed) => {
                lemma_filter_keeps(mid.subs, keep_pred(failed));
                assert(!f.subs.contains(h)) by {
                    if f.subs.contains(h) {
                        let i = choose|i: int| 0 <= i < f.subs.len() && f.subs[i] == h;
                        assert(mid.subs.contains(f.subs[i]));
                    }
                }
            },
        }
    }
}

} // verus!
