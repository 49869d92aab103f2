use vstd::prelude::*;

pub mod caster;
pub mod framebuffer;
pub mod grid;
pub mod level;
pub mod minimap;
pub mod player;
pub mod render;
pub mod sprite;
pub mod texture;
