//! The terminal: cells, rows, grids and the screen that control functions act on.
pub mod attrs;
pub mod cell;
pub mod row;
pub mod grid;
pub mod links;
pub mod sgr;
pub mod tabs;
pub mod screen;
pub mod escape;
pub mod contents;
pub mod dispatch;
pub mod osc;
pub mod format;
pub mod state;
pub mod laws;
pub mod meaning;
pub mod replay;
