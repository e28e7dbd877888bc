//! What a terminal shows after the bytes that a screen is written out as.
//!
//! Bytes are read as tokens: characters, control characters, escape and control sequences. `draws`
//! says that bytes spell tokens that turn one screen into another. `laws` states what the bytes of a
//! screen draw, `reading` that bytes are read in one way only, `legible` that whatever happens to a
//! screen leaves what can be drawn again, and `history` what follows for every screen.
pub mod token;
pub mod reading;
pub mod style;
pub mod ground;
pub mod text;
pub mod sweep;
pub mod rows;
pub mod contents;
pub mod cursor;
pub mod laws;
pub mod legible;
pub mod history;
