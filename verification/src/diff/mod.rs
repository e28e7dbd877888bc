//! The wire messages that carry a screen to its viewers: what is written, what is read, and
//! how a message changes a screen.
pub mod apply;
pub mod block;
pub mod decode;
pub mod encode;
pub mod style;
pub mod round_trip;
pub mod stream;
pub mod message;
pub mod image_store;
pub mod live;
pub mod wire;
