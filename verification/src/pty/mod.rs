//! The hosted session: what the outer terminal can do, what of the inner one is mirrored, and
//! when a frame is published.
pub mod da;
pub mod frame;
pub mod gate;
pub mod images;
pub mod probe;
pub mod screen_loop;
pub mod seqlog;
