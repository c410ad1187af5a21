//! Layout and scrolling core of the `held` terminal text editor: positions and
//! rectangles, the tree of split regions, per-buffer scroll controllers and the
//! terminal cell cache.

pub mod geometry;
pub mod encoding;
pub mod region;
pub mod text;
pub mod region_controller;
pub mod style;
pub mod terminal_cache_buffer;
pub mod monitor;
pub mod workspace;
pub mod normal_mode;
pub mod handler;
pub mod status_line;
pub mod render_cache;
pub mod theme;
pub mod syntax;
