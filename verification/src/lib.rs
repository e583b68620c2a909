//! A small 2D rendering support library centred on a dynamic texture atlas
//! packer: images are placed one at a time into a shared backing bitmap,
//! the bitmap grows by doubling when space runs out, and the packed result
//! is exposed through lightweight, weakly-referenced texture regions.

pub mod bitmap;
pub mod buffer;
pub mod color;
pub mod framebuffer;
pub mod shader;
pub mod texture;
