//! Conversion of tile-based artwork into the binary layouts that the
//! Game Boy Advance reads from video memory.
pub mod color;
pub mod error;
pub mod character;
pub mod tile;
pub mod tile_iter;
pub mod trim;
pub mod savable;
pub mod palette;
pub mod character_data;
pub mod screen;
pub mod domain;
pub mod text;
pub mod project;
pub mod boop;
pub mod map;
pub mod render;
pub mod png;
pub mod png_util;
