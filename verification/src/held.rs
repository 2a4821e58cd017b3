//! The set of monitored keys currently considered "down".  It is the
//! sole place where duplicate auto-repeat key-down events are
//! suppressed: a press only counts when the key was not already held,
//! a release only when it was.

use vstd::prelude::*;
use vstd::string::*;

use crate::text::lower;

verus! {

/// Membership of a normalized identifier in a list of raw identifiers.
pub open spec fn mem(v: Seq<String>, k: Seq<char>) -> bool {
    exists|i: int| 0 <= i < v.len() && lower(#[trigger] v[i]@) == k
}

/// No two stored identifiers are equal after case normalization.
pub open spec fn nodup(v: Seq<String>) -> bool {
    forall|a: int, b: int| 0 <= a < b < v.len() ==> lower(#[trigger] v[a]@) != lower(#[trigger] v[b]@)
}

proof fn lemma_mem_push(v: Seq<String>, s: String, k: Seq<char>)
    ensures
        mem(v.push(s), k) <==> (mem(v, k) || lower(s@) == k),
{
    if mem(v.push(s), k) {
        let i = choose|i: int| 0 <= i < v.push(s).len() && lower(v.push(s)[i]@) == k;
        if i < v.len() {
            assert(v.push(s)[i] == v[i]);
            assert(mem(v, k));
        } else {
            assert(v.push(s)[i] == s);
        }
    }
    if mem(v, k) {
        let i = choose|i: int| 0 <= i < v.len() && lower(v[i]@) == k;
        assert(v.push(s)[i] == v[i]);
        assert(mem(v.push(s), k));
    }
    if lower(s@) == k {
        assert(v.push(s)[v.len() as int] == s);
        assert(mem(v.push(s), k));
    }
}

proof fn lemma_mem_remove(v: Seq<String>, at: int, k: Seq<char>)
    requires
        nodup(v),
        0 <= at < v.len(),
    ensures
        mem(v.remove(at), k) <==> (mem(v, k) && k != lower(v[at]@)),
{
    let w = v.remove(at);
    if mem(w, k) {
        let i = choose|i: int| 0 <= i < w.len() && lower(w[i]@) == k;
        if i < at {
            assert(w[i] == v[i]);
            assert(mem(v, k));
            assert(lower(v[i]@) != lower(v[at]@));
        } else {
            assert(w[i] == v[i + 1]);
            assert(mem(v, k));
            assert(lower(v[at]@) != lower(v[i + 1]@));
        }
    }
    if mem(v, k) && k != lower(v[at]@) {
        let i = choose|i: int| 0 <= i < v.len() && lower(v[i]@) == k;
        if i < at {
            assert(w[i] == v[i]);
            assert(mem(w, k));
        } else {
            assert(i != at);
            assert(w[i - 1] == v[i]);
            assert(mem(w, k));
        }
    }
}

/// The mutable set of currently held keys, identified case-insensitively.
pub struct HeldKeySet {
    keys: Vec<String>,
}

impl View for HeldKeySet {
    type V = Set<Seq<char>>;

    /// The held keys, as normalized identifiers.
    closed spec fn view(&self) -> Set<Seq<char>> {
        Set::new(|k: Seq<char>| mem(self.keys@, k))
    }
}

impl HeldKeySet {
    /// Internal invariant: an identifier appears at most once.
    pub closed spec fn wf(&self) -> bool {
        nodup(self.keys@)
    }

    /// The empty held set.
    pub fn new() -> (r: HeldKeySet)
        ensures
            r@ =~= Set::<Seq<char>>::empty(),
            r.wf(),
    {
        let r = HeldKeySet { keys: Vec::new() };
        proof {
            assert(r@ =~= Set::<Seq<char>>::empty());
        }
        r
    }

    fn index_of(&self, id: &str) -> (r: Option<usize>)
        ensures
            match r {
                Some(i) => i < self.keys@.len() && lower(self.keys@[i as int]@) == lower(id@),
                None => !mem(self.keys@, lower(id@)),
            },
    {
        let mut i: usize = 0;
        while i < self.keys.len()
            invariant
                i <= self.keys@.len(),
                forall|j: int| 0 <= j < i ==> lower(#[trigger] self.keys@[j]@) != lower(id@),
            decreases self.keys.len() - i,
        {
            if crate::text::eq_lower(self.keys[i].as_str(), id) {
                return Some(i);
            }
            i += 1;
        }
        None
    }

    /// Whether the key is currently held.
    pub fn contains(&self, id: &str) -> (r: bool)
        ensures
            r == self@.contains(lower(id@)),
    {
        match self.index_of(id) {
            Some(_) => true,
            None => false,
        }
    }

    /// Records a key-down; returns `true` (meaning: notify) iff the key
    /// was not already held.  Pressing an already-held key is a no-op.
    pub fn try_press(&mut self, id: &str) -> (r: bool)
        requires
            old(self).wf(),
        ensures
            final(self).wf(),
            r == !old(self)@.contains(lower(id@)),
            final(self)@ =~= old(self)@.insert(lower(id@)),
    {
        match self.index_of(id) {
            Some(_) => {
                proof {
                    assert(self@ =~= old(self)@.insert(lower(id@)));
                }
                false
            },
            None => {
                let ghost v = self.keys@;
                self.keys.push(id.to_owned());
                proof {
                    assert forall|k: Seq<char>| self@.contains(k) == old(self)@.insert(
                        lower(id@),
                    ).contains(k) by {
                        lemma_mem_push(v, self.keys@[v.len() as int], k);
                    }
                    assert(self@ =~= old(self)@.insert(lower(id@)));
                }
                true
            },
        }
    }

    /// Records a key-up; returns `true` (meaning: notify) iff the key
    /// was currently held.  Releasing a key that is not held is a no-op.
    pub fn try_release(&mut self, id: &str) -> (r: bool)
        requires
            old(self).wf(),
        ensures
            final(self).wf(),
            r == old(self)@.contains(lower(id@)),
            final(self)@ =~= old(self)@.remove(lower(id@)),
    {
        match self.index_of(id) {
            None => {
                proof {
                    assert(self@ =~= old(self)@.remove(lower(id@)));
                }
                false
            },
            Some(i) => {
                let ghost v = self.keys@;
                self.keys.remove(i);
                proof {
                    assert forall|k: Seq<char>| self@.contains(k) == old(self)@.remove(
                        lower(id@),
                    ).contains(k) by {
                        lemma_mem_remove(v, i as int, k);
                    }
                    assert(self@ =~= old(self)@.remove(lower(id@)));
                }
                true
            },
        }
    }

    /// Forgets all held keys (used when a session is rebuilt on reload).
    pub fn clear(&mut self)
        ensures
            final(self).wf(),
            final(self)@ =~= Set::<Seq<char>>::empty(),
    {
        self.keys.clear();
        proof {
            assert(self@ =~= Set::<Seq<char>>::empty());
        }
    }
}

} // verus!
