//! Grid, texture and geometry logic of a small ray caster.
//!
//! The maze is a grid of characters read from a text file; textures are
//! grids of packed `0xRRGGBB` pixels. Everything here works on integers:
//! floating-point geometry stays with the program that draws the scene.

pub mod color;
pub mod framebuffer;
pub mod maze;
pub mod textures;
pub mod caster;
pub mod player;
pub mod polygon;
