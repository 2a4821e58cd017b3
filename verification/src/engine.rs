//! The broadcast engine: one session of the reducer glued to the client
//! registry.  Raw input events come in; wire messages and the ordered
//! set of subscribers to deliver them to come out.  The transport
//! performs the sends and reports the handles whose delivery failed.

use vstd::prelude::*;
use vstd::string::*;

use crate::keymap::{build_keymap, spec_build, ConfigError, KeyMap, KeyView};
use crate::notify::spec_wire;
use crate::registry::{ClientRegistry, RegistryView};
use crate::session::{spec_note, spec_step, Session, SessionView};
use crate::text::lower;

verus! {

/// Abstract state of the engine.
#[verifier::ext_equal]
pub ghost struct EngineView {
    /// The reducer state of the active configuration.
    pub session: SessionView,
    /// The subscriber registry.
    pub registry: RegistryView,
}

/// One running engine: the active session and the live subscribers.
pub struct BroadcastEngine {
    session: Session,
    registry: ClientRegistry,
}

impl View for BroadcastEngine {
    type V = EngineView;

    closed spec fn view(&self) -> EngineView {
        EngineView { session: self.session@, registry: self.registry@ }
    }
}

impl BroadcastEngine {
    /// Internal invariants of the session and the registry.
    pub closed spec fn wf(&self) -> bool {
        self.session.wf() && self.registry.wf()
    }

    /// Starts an engine for the given key map and reset binding, with no
    /// key held and no subscriber registered.
    pub fn new(keymap: KeyMap, reset: String) -> (r: BroadcastEngine)
        requires
            keymap.wf(),
        ensures
            r.wf(),
            r@.session.map == keymap@,
            r@.session.reset == lower(reset@),
            r@.session.held =~= Set::<Seq<char>>::empty(),
            r@.registry.subs =~= Seq::<u64>::empty(),
            r@.registry.next_id == 0,
    {
        BroadcastEngine { session: Session::new(keymap, reset), registry: ClientRegistry::new() }
    }

    /// Feeds one raw input event through the reducer and returns the
    /// wire message to broadcast, if the event produced a notification.
    pub fn process_event(&mut self, key: &str, down: bool) -> (r: Option<String>)
        requires
            old(self).wf(),
        ensures
            final(self).wf(),
            final(self)@.registry == old(self)@.registry,
            final(self)@.session =~= spec_step(old(self)@.session, key@, down),
            match spec_note(old(self)@.session, key@, down) {
                None => r is None,
                Some(nv) => r matches Some(m) && m@ == spec_wire(nv),
            },
    {
        match self.session.handle_event(key, down) {
            None => None,
            Some(n) => Some(n.to_wire()),
        }
    }

    /// Whether another subscriber can be registered.
    pub fn can_connect(&self) -> (r: bool)
        ensures
            r == (self@.registry.next_id < u64::MAX),
    {
        self.registry.can_accept()
    }

    /// Registers a new subscriber; the fresh handle addresses it until
    /// it disconnects or a delivery to it fails.
    pub fn connect(&mut self) -> (h: u64)
        requires
            old(self).wf(),
            old(self)@.registry.next_id < u64::MAX,
        ensures
            final(self).wf(),
            final(self)@.session == old(self)@.session,
            h == old(self)@.registry.next_id,
            !old(self)@.registry.subs.contains(h),
            final(self)@.registry.subs =~= old(self)@.registry.subs.push(h),
            final(self)@.registry.next_id == old(self)@.registry.next_id + 1,
    {
        self.registry.add()
    }

    /// Unregisters a subscriber; unknown handles are ignored.
    pub fn disconnect(&mut self, h: u64)
        requires
            old(self).wf(),
        ensures
            final(self).wf(),
            final(self)@.session == old(self)@.session,
            final(self)@.registry.subs =~= old(self)@.registry.subs.filter(
                crate::registry::other_pred(h),
            ),
            !final(self)@.registry.subs.contains(h),
            final(self)@.registry.next_id == old(self)@.registry.next_id,
    {
        self.registry.remove(h)
    }

    /// The ordered snapshot of subscriber handles for one broadcast
    /// pass: every live subscriber, exactly once, in registration order.
    pub fn broadcast_targets(&self) -> (r: Vec<u64>)
        ensures
            r@ =~= self@.registry.subs,
    {
        self.registry.broadcast_targets()
    }

    /// Completes a broadcast pass by pruning every subscriber whose
    /// delivery failed; the failure is not surfaced further.
    pub fn prune_failed(&mut self, failed: &Vec<u64>)
        requires
            old(self).wf(),
        ensures
            final(self).wf(),
            final(self)@.session == old(self)@.session,
            final(self)@.registry.subs =~= old(self)@.registry.subs.filter(
                crate::registry::keep_pred(failed@),
            ),
            forall|x: u64| failed@.contains(x) ==> !final(self)@.registry.subs.contains(x),
            final(self)@.registry.next_id == old(self)@.registry.next_id,
    {
        self.registry.prune_failed(failed)
    }

    /// How many subscribers are currently registered.
    pub fn subscriber_count(&self) -> (r: usize)
        ensures
            r == self@.registry.subs.len(),
    {
        self.registry.count()
    }

    /// Replaces the active configuration wholesale: a fresh key map and
    /// reset binding, and an emptied held set, while the subscriber
    /// registry carries over untouched.  A malformed configuration
    /// leaves the running session in place.
    pub fn reload(&mut self, keys: Vec<String>, reset: String) -> (r: Result<(), ConfigError>)
        requires
            old(self).wf(),
        ensures
            final(self).wf(),
            final(self)@.registry == old(self)@.registry,
            match r {
                Ok(_) => spec_build(keys.deep_view()) matches Ok(m) && final(self)@.session.map
                    == m && final(self)@.session.reset == lower(reset@)
                    && final(self)@.session.held =~= Set::<Seq<char>>::empty(),
                Err(e) => spec_build(keys.deep_view()) == Err::<Seq<KeyView>, int>(e.index as int)
                    && final(self)@.session == old(self)@.session,
            },
    {
        match build_keymap(keys) {
            Ok(m) => {
                self.session = Session::new(m, reset);
                Ok(())
            },
            Err(e) => Err(e),
        }
    }
}

} // verus!
