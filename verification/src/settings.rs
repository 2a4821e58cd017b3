//! The configuration data the rest of the program runs on, and the
//! textual configuration form the daemon writes out.  Loading and
//! persisting these settings is the business of the surrounding
//! program; the types themselves and the text they render to are pure.

use vstd::prelude::*;
use vstd::string::*;

use crate::helper::hash_of;
use crate::text::{dec_seq, usize_to_string};

verus! {

/// Default port of the static web front end.
pub const DEFAULT_WEB_PORT: u16 = 7685;

/// Default port of the websocket feed.
pub const DEFAULT_SOCKET_PORT: u16 = 7686;

/// Network binding of the overlay server.
#[derive(Clone, Hash)]
pub struct ServerSettings {
    /// Interface the server binds.
    pub ip: String,
    /// Port the server binds.
    pub port: u16,
}

/// Where the web front end and its websocket endpoint live.
#[derive(Clone, Hash)]
pub struct WebSettings {
    /// Path of the websocket endpoint.
    pub websocket_endpoint: String,
    /// Directory the static files are served from.
    pub local_file_path: String,
}

/// The monitored keys and the reset binding.
#[derive(Clone, Hash)]
pub struct KeyboardSettings {
    /// Configuration entries, `KEY` or `KEY:LABEL`.
    pub keys: Vec<String>,
    /// The reset key.
    pub reset: String,
}

/// The whole configuration.
#[derive(Clone, Hash)]
pub struct Settings {
    /// Network binding.
    pub server: ServerSettings,
    /// Front-end locations.
    pub web: WebSettings,
    /// Key bindings.
    pub keyboard: KeyboardSettings,
}

impl Default for ServerSettings {
    /// The loopback binding on the default port.
    fn default() -> (r: Self)
        ensures
            r.ip@ == "127.0.0.1"@,
            r.port == 3120,
    {
        ServerSettings { ip: "127.0.0.1".to_owned(), port: 3120 }
    }
}

impl Default for WebSettings {
    /// The stock endpoint and static-file locations.
    fn default() -> (r: Self)
        ensures
            r.websocket_endpoint@ == "/ws"@,
            r.local_file_path@ == "/static"@,
    {
        WebSettings { websocket_endpoint: "/ws".to_owned(), local_file_path: "/static".to_owned() }
    }
}

impl Default for KeyboardSettings {
    /// Two monitored keys and `End` as the reset binding.
    fn default() -> (r: Self)
        ensures
            r.keys@.len() == 2,
            r.keys@[0]@ == "Z"@,
            r.keys@[1]@ == "X"@,
            r.reset@ == "End"@,
    {
        let mut keys: Vec<String> = Vec::new();
        keys.push("Z".to_owned());
        keys.push("X".to_owned());
        KeyboardSettings { keys, reset: "End".to_owned() }
    }
}

impl Default for Settings {
    /// All sections at their defaults.
    fn default() -> (r: Self)
        ensures
            r.server.ip@ == "127.0.0.1"@,
            r.server.port == 3120,
            r.web.websocket_endpoint@ == "/ws"@,
            r.web.local_file_path@ == "/static"@,
            r.keyboard.keys@.len() == 2,
            r.keyboard.keys@[0]@ == "Z"@,
            r.keyboard.keys@[1]@ == "X"@,
            r.keyboard.reset@ == "End"@,
    {
        Settings {
            server: Default::default(),
            web: Default::default(),
            keyboard: Default::default(),
        }
    }
}

impl ServerSettings {
    /// The `ip:port` address the server binds.
    pub fn address(&self) -> (r: String)
        ensures
            r@ == self.ip@ + ":"@ + dec_seq(self.port as int),
    {
        let mut s = self.ip.clone();
        s.append(":");
        let p = usize_to_string(self.port as usize);
        s.append(p.as_str());
        proof {
            assert(s@ =~= self.ip@ + ":"@ + dec_seq(self.port as int));
        }
        s
    }
}

impl Settings {
    /// Whether a configuration change cannot be applied to the running
    /// server and requires a restart: the server or web section
    /// changed.  Compares by hashing, as the configurator does; nothing
    /// is promised of the hasher itself.
    pub fn is_fatal_change(one: &Settings, two: &Settings) -> bool {
        hash_of(&one.server) != hash_of(&two.server) || hash_of(&one.web) != hash_of(&two.web)
    }
}

/// The JSON-like configuration text of the daemon, for the given ports,
/// key list (already rendered) and reset entry (already quoted).
pub open spec fn spec_make_config(
    web_port: int,
    socket_port: int,
    keys: Seq<char>,
    reset: Seq<char>,
) -> Seq<char> {
    "{\n\t\"web_port\": "@ + dec_seq(web_port) + ",\n\t\"socket_port\": "@ + dec_seq(socket_port)
        + ",\n\t\"keys\": "@ + keys + ",\n\t\"reset\": "@ + reset + "\n}"@
}

/// Renders the daemon's configuration text.
pub fn make_config(web_port: u16, socket_port: u16, keys: String, reset: String) -> (r: String)
    ensures
        r@ == spec_make_config(web_port as int, socket_port as int, keys@, reset@),
{
    let mut s = "{\n\t\"web_port\": ".to_owned();
    let w = usize_to_string(web_port as usize);
    s.append(w.as_str());
    s.append(",\n\t\"socket_port\": ");
    let p = usize_to_string(socket_port as usize);
    s.append(p.as_str());
    s.append(",\n\t\"keys\": ");
    s.append(keys.as_str());
    s.append(",\n\t\"reset\": ");
    s.append(reset.as_str());
    s.append("\n}");
    proof {
        assert(s@ =~= spec_make_config(web_port as int, socket_port as int, keys@, reset@));
    }
    s
}

} // verus!
