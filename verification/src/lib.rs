//! Presentation and orchestration logic for a CHIP-8 front end: the geometry of
//! the window, the rendering of a monochrome framebuffer as scaled rectangles,
//! and the decisions of the per-frame run loop.

pub mod draw;
pub mod machine;
pub mod run_loop;
pub mod surface;
