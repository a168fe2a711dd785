//! Framebuffer grabbing for ambient lighting.

pub mod downscale;
pub mod find;
pub mod fourcc;
pub mod frames;
pub mod hdr;
pub mod linear;
pub mod maps;
pub mod pixel;
pub mod plan;
pub mod rgb_image;
pub mod sand;
pub mod xtiled;
pub mod yuv420;
