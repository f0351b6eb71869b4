//! Declarative scene rendering: a scene names a canvas, a table of visual
//! props (still images, video-derived frame sequences, solid colour fills)
//! and an ordered list of per-frame placement scripts. The library loads
//! props, composites each frame into a flat RGBA buffer, and prepares the
//! ordered frame stream for an external encoder; a still frame can also be
//! encoded to a PNG data URL.

pub mod bitmap;
pub mod codec;
pub mod compositor;
pub mod errors;
pub mod frames;
pub mod loader;
pub mod props;
pub mod render;
pub mod scene;
pub mod still;
