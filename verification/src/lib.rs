//! A terminal mirror: a screen model that a byte stream drives, a wire protocol
//! that carries the screen to any number of viewers, and the rules by which a
//! session is hosted, attached to and pushed to a hub.
pub mod api;
pub mod cli;
pub mod client;
pub mod diff;
pub mod json;
pub mod model;
pub mod number;
pub mod pty;
pub mod session;
pub mod text;
pub mod vt;
