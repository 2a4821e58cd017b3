//! The concurrency-safe half of the client registry: which subscriber
//! handles are live, in which order a broadcast visits them, and which
//! are pruned after a failed delivery.
//!
//! A broadcast pass is split into decisions and outside work: the
//! registry yields the exact ordered snapshot of handles to attempt
//! (`broadcast_targets`), the transport performs the sends, and the
//! handles whose send failed are removed in the same pass
//! (`prune_failed`).  Handles are never reused, so a removed subscriber
//! can never receive a later notification under its old handle.

use vstd::prelude::*;

verus! {

/// Abstract state of the registry.
#[verifier::ext_equal]
pub ghost struct RegistryView {
    /// Live subscriber handles, in insertion order.
    pub subs: Seq<u64>,
    /// The next handle to hand out; all live handles are below it.
    pub next_id: int,
}

/// The predicate that a pruning pass keeps: handles whose delivery did
/// not fail.
pub open spec fn keep_pred(failed: Seq<u64>) -> spec_fn(u64) -> bool {
    |x: u64| !failed.contains(x)
}

/// The predicate that a removal keeps: every other handle.
pub open spec fn other_pred(h: u64) -> spec_fn(u64) -> bool {
    |x: u64| x != h
}

/// The registry's invariant on its abstract state: live handles are
/// distinct and below the next handle to be issued.
pub open spec fn reg_inv(r: RegistryView) -> bool {
    &&& r.subs.no_duplicates()
    &&& forall|i: int| 0 <= i < r.subs.len() ==> r.subs[i] < r.next_id
    &&& 0 <= r.next_id
}

/// Everything a filtering pass keeps was already there, and filtering a
/// duplicate-free sequence leaves it duplicate-free.
pub proof fn lemma_filter_keeps(s: Seq<u64>, pred: spec_fn(u64) -> bool)
    ensures
        forall|i: int|
            0 <= i < s.filter(pred).len() ==> s.contains(#[trigger] s.filter(pred)[i]),
        s.no_duplicates() ==> s.filter(pred).no_duplicates(),
    decreases s.len(),
{
    reveal(Seq::filter);
    if s.len() > 0 {
        let d = s.drop_last();
        let f = s.filter(pred);
        let fd = d.filter(pred);
        lemma_filter_keeps(d, pred);
        assert forall|i: int| 0 <= i < f.len() implies s.contains(#[trigger] f[i]) by {
            if i < fd.len() {
                assert(f[i] == fd[i]);
                assert(d.contains(fd[i]));
                let j = choose|j: int| 0 <= j < d.len() && d[j] == fd[i];
                assert(s[j] == f[i]);
            } else {
                assert(f[i] == s.last());
                assert(s[s.len() - 1] == f[i]);
            }
        }
        if s.no_duplicates() {
            assert(d.no_duplicates()) by {
                assert forall|i: int, j: int|
                    0 <= i < d.len() && 0 <= j < d.len() && i != j implies d[i] != d[j] by {
                    assert(s[i] == d[i] && s[j] == d[j]);
                }
            }
            if pred(s.last()) {
                assert(f == fd.push(s.last()));
                assert(!fd.contains(s.last())) by {
                    if fd.contains(s.last()) {
                        let j = choose|j: int| 0 <= j < fd.len() && fd[j] == s.last();
                        assert(d.contains(fd[j]));
                        let m = choose|m: int| 0 <= m < d.len() && d[m] == fd[j];
                        assert(s[m] == s[s.len() - 1]);
                    }
                }
                assert forall|i: int, j: int|
                    0 <= i < f.len() && 0 <= j < f.len() && i != j implies f[i] != f[j] by {
                    if i < fd.len() && j < fd.len() {
                        assert(f[i] == fd[i] && f[j] == fd[j]);
                    } else if i < fd.len() {
                        assert(f[j] == s.last() && f[i] == fd[i]);
                        assert(fd[i] == fd[i] && 0 <= i < fd.len());
                        assert(fd.contains(fd[i]));
                    } else if j < fd.len() {
                        assert(f[i] == s.last() && f[j] == fd[j]);
                        assert(fd.contains(fd[j]));
                    }
                }
            }
        }
    }
}

/// Scans for a handle.
fn vec_contains(v: &Vec<u64>, x: u64) -> (r: bool)
    ensures
        r == v@.contains(x),
{
    let mut i: usize = 0;
    while i < v.len()
        invariant
            i <= v@.len(),
            forall|j: int| 0 <= j < i ==> v@[j] != x,
        decreases v.len() - i,
    {
        if v[i] == x {
            return true;
        }
        i += 1;
    }
    false
}

/// The set of live subscribers, with stable insertion order and
/// never-reused handles.
pub struct ClientRegistry {
    subs: Vec<u64>,
    next_id: u64,
}

impl View for ClientRegistry {
    type V = RegistryView;

    closed spec fn view(&self) -> RegistryView {
        RegistryView { subs: self.subs@, next_id: self.next_id as int }
    }
}

impl ClientRegistry {
    /// Internal invariant: handles are distinct and below `next_id`.
    pub open spec fn wf(&self) -> bool {
        reg_inv(self@)
    }

    /// The empty registry.
    pub fn new() -> (r: ClientRegistry)
        ensures
            r.wf(),
            r@.subs =~= Seq::<u64>::empty(),
            r@.next_id == 0,
    {
        ClientRegistry { subs: Vec::new(), next_id: 0 }
    }

    /// How many subscribers are live.
    pub fn count(&self) -> (r: usize)
        ensures
            r == self@.subs.len(),
    {
        self.subs.len()
    }

    /// Whether a handle is currently registered.
    pub fn is_registered(&self, h: u64) -> (r: bool)
        ensures
            r == self@.subs.contains(h),
    {
        vec_contains(&self.subs, h)
    }

    /// Whether another subscriber can be registered: the handle space
    /// is not exhausted.
    pub fn can_accept(&self) -> (r: bool)
        ensures
            r == (self@.next_id < u64::MAX),
    {
        self.next_id < u64::MAX
    }

    /// Registers a new subscriber and returns its fresh handle.  The
    /// bound on `next_id` is a machine limit; it cannot be reached by
    /// connect/disconnect churn in any real session.
    pub fn add(&mut self) -> (h: u64)
        requires
            old(self).wf(),
            old(self)@.next_id < u64::MAX,
        ensures
            final(self).wf(),
            h == old(self)@.next_id,
            !old(self)@.subs.contains(h),
            final(self)@.subs =~= old(self)@.subs.push(h),
            final(self)@.next_id == old(self)@.next_id + 1,
    {
        let h = self.next_id;
        proof {
            assert(!old(self)@.subs.contains(h)) by {
                if old(self)@.subs.contains(h) {
                    let i = choose|i: int|
                        0 <= i < old(self)@.subs.len() && old(self)@.subs[i] == h;
                    assert(old(self)@.subs[i] < old(self)@.next_id);
                }
            }
        }
        self.subs.push(h);
        self.next_id = self.next_id + 1;
        proof {
            let f = self@.subs;
            let s = old(self)@.subs;
            assert(f =~= s.push(h));
            assert forall|i: int, j: int|
                0 <= i < f.len() && 0 <= j < f.len() && i != j implies f[i] != f[j] by {
                if i < s.len() && j < s.len() {
                } else if i < s.len() {
                    assert(f[j] == h && f[i] == s[i]);
                    assert(s[i] < old(self)@.next_id);
                } else if j < s.len() {
                    assert(f[i] == h && f[j] == s[j]);
                    assert(s[j] < old(self)@.next_id);
                }
            }
        }
        h
    }

    /// Unregisters a handle; removing an unknown or already-removed
    /// handle is a no-op.
    pub fn remove(&mut self, h: u64)
        requires
            old(self).wf(),
        ensures
            final(self).wf(),
            final(self)@.subs =~= old(self)@.subs.filter(other_pred(h)),
            !final(self)@.subs.contains(h),
            final(self)@.next_id == old(self)@.next_id,
    {
        let mut kept: Vec<u64> = Vec::new();
        let ghost s = self.subs@;
        let ghost pred = other_pred(h);
        proof {
            reveal(Seq::filter);
            assert(s.take(0int) =~= Seq::<u64>::empty());
        }
        let mut i: usize = 0;
        while i < self.subs.len()
            invariant
                i <= s.len(),
                self.subs@ == s,
                self@.subs == s,
                pred == other_pred(h),
                kept@ == s.take(i as int).filter(pred),
            decreases self.subs.len() - i,
        {
            proof {
                reveal(Seq::filter);
                assert(s.take(i as int + 1).drop_last() =~= s.take(i as int));
                assert(s.take(i as int + 1).last() == s[i as int]);
            }
            let x = self.subs[i];
            if x != h {
                kept.push(x);
            }
            i += 1;
        }
        proof {
            assert(s.take(s.len() as int) =~= s);
            lemma_filter_keeps(s, pred);
            let f = s.filter(pred);
            assert forall|i: int| 0 <= i < f.len() implies f[i] < old(self)@.next_id by {
                assert(s.contains(f[i]));
                let j = choose|j: int| 0 <= j < s.len() && s[j] == f[i];
                assert(s[j] < old(self)@.next_id);
            }
            assert(!f.contains(h)) by {
                if f.contains(h) {
                    let i = choose|i: int| 0 <= i < f.len() && f[i] == h;
                    s.lemma_filter_pred(pred, i);
                    assert(pred(f[i]));
                }
            }
        }
        self.subs = kept;
    }

    /// The ordered snapshot of handles that one broadcast pass attempts
    /// to deliver to: every live subscriber, exactly once, in
    /// registration order.
    pub fn broadcast_targets(&self) -> (r: Vec<u64>)
        ensures
            r@ =~= self@.subs,
    {
        let mut out: Vec<u64> = Vec::new();
        let mut i: usize = 0;
        proof {
            assert(self@.subs.take(0int) =~= Seq::<u64>::empty());
        }
        while i < self.subs.len()
            invariant
                i <= self@.subs.len(),
                self.subs@ == self@.subs,
                out@ == self@.subs.take(i as int),
            decreases self.subs.len() - i,
        {
            out.push(self.subs[i]);
            proof {
                assert(self@.subs.take(i as int + 1) =~= self@.subs.take(i as int).push(
                    self@.subs[i as int],
                ));
            }
            i += 1;
        }
        proof {
            assert(self@.subs.take(self@.subs.len() as int) =~= self@.subs);
        }
        out
    }

    /// Completes a broadcast pass: every handle whose delivery failed is
    /// removed, atomically with respect to the registry's callers.
    pub fn prune_failed(&mut self, failed: &Vec<u64>)
        requires
            old(self).wf(),
        ensures
            final(self).wf(),
            final(self)@.subs =~= old(self)@.subs.filter(keep_pred(failed@)),
            forall|x: u64| failed@.contains(x) ==> !final(self)@.subs.contains(x),
            final(self)@.next_id == old(self)@.next_id,
    {
        let mut kept: Vec<u64> = Vec::new();
        let ghost s = self.subs@;
        let ghost pred = keep_pred(failed@);
        proof {
            reveal(Seq::filter);
            assert(s.take(0int) =~= Seq::<u64>::empty());
        }
        let mut i: usize = 0;
        while i < self.subs.len()
            invariant
                i <= s.len(),
                self.subs@ == s,
                self@.subs == s,
                pred == keep_pred(failed@),
                kept@ == s.take(i as int).filter(pred),
            decreases self.subs.len() - i,
        {
            proof {
                reveal(Seq::filter);
                assert(s.take(i as int + 1).drop_last() =~= s.take(i as int));
                assert(s.take(i as int + 1).last() == s[i as int]);
            }
            let x = self.subs[i];
            if !vec_contains(failed, x) {
                kept.push(x);
            }
            i += 1;
        }
        proof {
            assert(s.take(s.len() as int) =~= s);
            lemma_filter_keeps(s, pred);
            let f = s.filter(pred);
            assert forall|i: int| 0 <= i < f.len() implies f[i] < old(self)@.next_id by {
                assert(s.contains(f[i]));
                let j = choose|j: int| 0 <= j < s.len() && s[j] == f[i];
                assert(s[j] < old(self)@.next_id);
            }
            assert forall|x: u64| failed@.contains(x) implies !f.contains(x) by {
                if f.contains(x) {
                    let i = choose|i: int| 0 <= i < f.len() && f[i] == x;
                    s.lemma_filter_pred(pred, i);
                    assert(pred(f[i]));
                }
            }
        }
        self.subs = kept;
    }
}

} // verus!
