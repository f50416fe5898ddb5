//! Display and input runtime core for a memory-mapped e-ink panel: pixel
//! canvases and masks, rasterization, the framebuffer surface, region
//! snapshots, partial-refresh planning and input normalization.

pub mod vector;
pub mod rect;
pub mod color;
pub mod canvas;
pub mod framebuffer;
pub mod polygon;
pub mod graphics;
pub mod storage;
pub mod bezier;
pub mod refresh;
pub mod input;
pub mod stroke;
pub mod text;
