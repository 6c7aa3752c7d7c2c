//! Turns a grid of RGB pixels into the text of a coat of arms: a background
//! colour and one emblem per remaining colour, with one instance per pixel.
//!
//! The pixels are indexed by colour, the colour with the most pixels becomes
//! the background, every other colour becomes an emblem, and the result is
//! written in the line-oriented grammar of the game.

pub mod builder;
pub mod color;
pub mod convert;
pub mod grid;
pub mod index;
pub mod model;
pub mod number;
pub mod shape;
pub mod theorems;

pub use builder::{build_coa, build_emblem, find_background, parse_map};
pub use color::{Color, Pattern, Rgb, Texture};
pub use convert::{
    check_color_count, convert, from_image_all_colors, from_image_custom_colors,
    from_image_vanilla_colors, resolve_reduced, ColorMode, PaletteResolutionError,
};
pub use grid::PixelGrid;
pub use index::{index_colors, ColorIndex};
pub use model::{Coa, Emblem, Instance};
pub use number::Scalar;
