//! Pure state behind the configurator window: the working copy of the
//! key list and reset binding, the count of connected clients, and the
//! configuration text rebuilt after every edit.  The window itself is
//! drawn by the surrounding program.

use vstd::prelude::*;
use vstd::string::*;

use crate::settings::{make_config, spec_make_config, DEFAULT_SOCKET_PORT, DEFAULT_WEB_PORT};

verus! {

/// Events the background threads report to the configurator.
pub enum GuiEvent {
    /// The number of connected clients changed.
    ConnectionsUpdate(usize),
}

/// The rendered key entries, without the surrounding brackets: each
/// entry quoted, all but the last followed by a comma.
pub open spec fn json_items(ks: Seq<Seq<char>>) -> Seq<char>
    decreases ks.len(),
{
    if ks.len() == 0 {
        Seq::empty()
    } else if ks.len() == 1 {
        "\""@ + ks[0] + "\""@
    } else {
        "\""@ + ks[0] + "\", "@ + json_items(ks.skip(1))
    }
}

/// The JSON array of key entries, as the configurator writes it.
pub open spec fn spec_keys_json(ks: Seq<Seq<char>>) -> Seq<char> {
    "[ "@ + json_items(ks) + " ]"@
}

/// Renders the key entries as a JSON array.
pub fn keys_json(keys: &Vec<String>) -> (r: String)
    ensures
        r@ == spec_keys_json(keys.deep_view()),
{
    let ghost dv = keys.deep_view();
    let mut s = "[ ".to_owned();
    let n = keys.len();
    proof {
        assert(dv.skip(0int) =~= dv);
        assert(dv.len() == keys@.len());
    }
    if n > 0 {
        let mut i: usize = 0;
        while i < n - 1
            invariant
                n == keys@.len(),
                n == dv.len(),
                dv == keys.deep_view(),
                n >= 1,
                i < n,
                spec_keys_json(dv) == s@ + json_items(dv.skip(i as int)) + " ]"@,
            decreases n - 1 - i,
        {
            proof {
                assert(dv.skip(i as int)[0] == dv[i as int]);
                assert(dv.skip(i as int).skip(1) =~= dv.skip(i as int + 1));
                assert(dv[i as int] == keys@[i as int]@);
            }
            s.append("\"");
            s.append(keys[i].as_str());
            s.append("\", ");
            proof {
                assert(s@ + json_items(dv.skip(i as int + 1)) + " ]"@ =~= spec_keys_json(dv));
            }
            i += 1;
        }
        proof {
            assert(dv.skip(i as int)[0] == dv[i as int]);
            assert(dv.skip(i as int).len() == 1);
            assert(dv[i as int] == keys@[i as int]@);
        }
        s.append("\"");
        s.append(keys[i].as_str());
        s.append("\"");
    }
    s.append(" ]");
    proof {
        assert(s@ =~= spec_keys_json(dv));
    }
    s
}

/// A quoted string, as it appears in the configuration text.
pub open spec fn quoted(s: Seq<char>) -> Seq<char> {
    "\""@ + s + "\""@
}

/// The mutable state of the configurator.
pub struct GuiState {
    /// Working copy of the configuration entries.
    pub key_list: Vec<String>,
    /// Working copy of the reset binding.
    pub reset: String,
    /// Connected clients, as last reported.
    pub client_count: usize,
    /// The configuration text shown in the editor pane.
    pub json: String,
}

impl GuiState {
    /// Initial state: the loaded entries and reset binding, the given
    /// configuration text, and no client connected yet.
    pub fn new(key_list: Vec<String>, reset: String, json: String) -> (r: GuiState)
        ensures
            r.key_list == key_list,
            r.reset == reset,
            r.json == json,
            r.client_count == 0,
    {
        GuiState { key_list, reset, client_count: 0, json }
    }

    /// Applies one reported event.
    pub fn process_event(&mut self, event: &GuiEvent)
        ensures
            final(self).client_count == match *event { GuiEvent::ConnectionsUpdate(n) => n },
            final(self).key_list == old(self).key_list,
            final(self).reset == old(self).reset,
            final(self).json == old(self).json,
    {
        match event {
            GuiEvent::ConnectionsUpdate(count) => {
                self.client_count = *count;
            },
        }
    }

    /// Rebuilds the configuration text from the current key list and
    /// reset binding, on the default ports.
    pub fn build_json(&mut self)
        ensures
            final(self).json@ == spec_make_config(
                DEFAULT_WEB_PORT as int,
                DEFAULT_SOCKET_PORT as int,
                spec_keys_json(old(self).key_list.deep_view()),
                quoted(old(self).reset@),
            ),
            final(self).key_list == old(self).key_list,
            final(self).reset == old(self).reset,
            final(self).client_count == old(self).client_count,
    {
        let key_json = keys_json(&self.key_list);
        let mut reset_quoted = "\"".to_owned();
        reset_quoted.append(self.reset.as_str());
        reset_quoted.append("\"");
        proof {
            assert(reset_quoted@ =~= quoted(self.reset@));
        }
        self.json = make_config(DEFAULT_WEB_PORT, DEFAULT_SOCKET_PORT, key_json, reset_quoted);
    }
}

} // verus!
