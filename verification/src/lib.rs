//! Input-state broadcast engine for a keyboard overlay.
//!
//! The library turns a raw stream of key press/release events into
//! de-duplicated state-change notifications and manages the set of
//! subscribers those notifications are fanned out to.  All surrounding
//! I/O (the OS input hook, the websocket transport, configuration files)
//! lives outside the library and hands it plain values.

pub mod engine;
pub mod error;
pub mod gui;
pub mod held;
pub mod helper;
pub mod keymap;
pub mod laws;
pub mod notify;
pub mod registry;
pub mod session;
pub mod settings;
pub mod text;
