//! A small software rasterizer over exact integer arithmetic: vectors and
//! matrices, a z-buffered triangle rasterizer driven by a shader, and a
//! decoder for TGA textures.

pub mod numeric;
pub mod sums;
pub mod geometry;
pub mod matrix;
pub mod scene;
pub mod tga;
pub mod shader;
pub mod line;
pub mod transform;
pub mod input;
