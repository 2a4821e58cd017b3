//! The input-event reducer: one session's key map, reset binding and
//! held-key state, turning raw press/release events into at most one
//! notification per physical transition.

use vstd::prelude::*;
use vstd::string::*;

use crate::held::HeldKeySet;
use crate::keymap::{spec_lookup, KeyMap, KeyView};
use crate::notify::{note_view, NoteView, Notification};
use crate::text::lower;

verus! {

/// Abstract state of a session.
#[verifier::ext_equal]
pub ghost struct SessionView {
    /// The bindings of the key map.
    pub map: Seq<KeyView>,
    /// The reset binding, as a normalized identifier.
    pub reset: Seq<char>,
    /// The normalized identifiers currently held.
    pub held: Set<Seq<char>>,
}

/// The notification (if any) that a raw event produces in state `s`.
///
/// A release of the reset key always fires `Reset`, with no held-state
/// suppression; a press of the reset key produces nothing, and neither
/// consults the key map.  Other events are looked up in the key map and
/// filtered through the held set, so duplicate presses and spurious
/// releases are dropped; unknown keys are routine noise and ignored.
pub open spec fn spec_note(s: SessionView, key: Seq<char>, down: bool) -> Option<NoteView> {
    let k = lower(key);
    if k == s.reset {
        if down {
            None
        } else {
            Some(NoteView::Reset)
        }
    } else {
        match spec_lookup(s.map, k) {
            None => None,
            Some(kv) => if down {
                if s.held.contains(k) {
                    None
                } else {
                    Some(NoteView::KeyChanged { label: kv.label, is_down: true, ordinal: kv.ordinal })
                }
            } else {
                if s.held.contains(k) {
                    Some(NoteView::KeyChanged { label: kv.label, is_down: false, ordinal: kv.ordinal })
                } else {
                    None
                }
            },
        }
    }
}

/// The held set after a raw event: a recognized press inserts the key,
/// a recognized release removes it; the reset path and unknown keys
/// leave it unchanged.
pub open spec fn spec_held_after(s: SessionView, key: Seq<char>, down: bool) -> Set<Seq<char>> {
    let k = lower(key);
    if k == s.reset {
        s.held
    } else {
        match spec_lookup(s.map, k) {
            None => s.held,
            Some(kv) => if down {
                s.held.insert(k)
            } else {
                s.held.remove(k)
            },
        }
    }
}

/// The session state after a raw event; the map and reset binding never
/// change within a session.
pub open spec fn spec_step(s: SessionView, key: Seq<char>, down: bool) -> SessionView {
    SessionView { map: s.map, reset: s.reset, held: spec_held_after(s, key, down) }
}

/// The state and the emitted notifications after a whole sequence of
/// raw events, each a `(key, down)` pair, processed strictly in order.
pub open spec fn spec_run(s: SessionView, events: Seq<(Seq<char>, bool)>) -> (
    SessionView,
    Seq<NoteView>,
)
    decreases events.len(),
{
    if events.len() == 0 {
        (s, Seq::empty())
    } else {
        let prior = spec_run(s, events.drop_last());
        let e = events.last();
        let note = spec_note(prior.0, e.0, e.1);
        (
            spec_step(prior.0, e.0, e.1),
            match note {
                None => prior.1,
                Some(nv) => prior.1.push(nv),
            },
        )
    }
}

/// One session of the reducer.
pub struct Session {
    keymap: KeyMap,
    reset: String,
    held: HeldKeySet,
}

impl View for Session {
    type V = SessionView;

    closed spec fn view(&self) -> SessionView {
        SessionView { map: self.keymap@, reset: lower(self.reset@), held: self.held@ }
    }
}

impl Session {
    /// Internal invariants of the key map and the held set.
    pub closed spec fn wf(&self) -> bool {
        self.keymap.wf() && self.held.wf()
    }

    /// Starts a session with the given key map and reset binding; no key
    /// is held initially.
    pub fn new(keymap: KeyMap, reset: String) -> (r: Session)
        requires
            keymap.wf(),
        ensures
            r.wf(),
            r@.map == keymap@,
            r@.reset == lower(reset@),
            r@.held =~= Set::<Seq<char>>::empty(),
    {
        Session { keymap, reset, held: HeldKeySet::new() }
    }

    /// Feeds one raw event through the reducer.
    pub fn handle_event(&mut self, key: &str, down: bool) -> (r: Option<Notification>)
        requires
            old(self).wf(),
        ensures
            final(self).wf(),
            note_view(r) == spec_note(old(self)@, key@, down),
            final(self)@ =~= spec_step(old(self)@, key@, down),
    {
        if crate::text::eq_lower(key, self.reset.as_str()) {
            if down {
                None
            } else {
                Some(Notification::Reset)
            }
        } else {
            match self.keymap.lookup(key) {
                None => None,
                Some((label, ordinal)) => {
                    if down {
                        if self.held.try_press(key) {
                            Some(Notification::KeyChanged { label, is_down: true, ordinal })
                        } else {
                            None
                        }
                    } else {
                        if self.held.try_release(key) {
                            Some(Notification::KeyChanged { label, is_down: false, ordinal })
                        } else {
                            None
                        }
                    }
                },
            }
        }
    }
}

} // verus!
