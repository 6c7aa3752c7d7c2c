//! The three conversions from a pixel grid to the text of a coat of arms:
//! with all colours, with the reference colours only, and with the colours
//! of a quantized palette.

use crate::builder::{coa_of, parse_map};
use crate::color::Rgb;
use crate::grid::{vanilla_pixels, PixelGrid};
use crate::index::{blocks_of_pixels, index_colors};
use crate::model::coa_text;
use vstd::prelude::*;
use vstd::string::*;

verus! {

/// How the colours of an image are chosen.
#[derive(Debug, PartialEq, Eq, Clone, Copy, Structural)]
pub enum ColorMode {
    All,
    Reduced,
    Vanilla,
}

/// The colour mode that `name` names, if it names one.
pub open spec fn mode_of_name(name: Seq<char>) -> Result<ColorMode, ()> {
    if name == "All"@ {
        Ok(ColorMode::All)
    } else if name == "Reduced"@ {
        Ok(ColorMode::Reduced)
    } else if name == "Vanilla"@ {
        Ok(ColorMode::Vanilla)
    } else {
        Err(())
    }
}

impl ColorMode {
    /// Reads a colour mode from its name: `All`, `Reduced` or `Vanilla`.
    pub fn from_str(input: &str) -> (mode: Result<ColorMode, ()>)
        ensures
            mode == mode_of_name(input@),
    {
        let name = String::from_str(input);
        if name == String::from_str("All") {
            Ok(ColorMode::All)
        } else if name == String::from_str("Reduced") {
            Ok(ColorMode::Reduced)
        } else if name == String::from_str("Vanilla") {
            Ok(ColorMode::Vanilla)
        } else {
            Err(())
        }
    }
}

/// Why the colours of a quantized palette could not be resolved.
#[derive(Debug, PartialEq, Eq, Clone, Copy, Structural)]
pub enum PaletteResolutionError {
    /// Fewer than two colours were asked for.
    PaletteTooSmall,
    /// There is not one palette index for each pixel.
    IndexCountMismatch,
    /// A palette index points past the end of the palette.
    IndexOutOfRange,
}

/// The least number of colours that a palette can be asked to have.
pub const MIN_COLOR_COUNT: u8 = 2;

/// The pixels that a quantized palette and one palette index per pixel
/// give, or why they give none.
pub open spec fn reduced_pixels(
    pixel_count: nat,
    color_count: u8,
    palette: Seq<Rgb>,
    indices: Seq<u8>,
) -> Result<Seq<Rgb>, PaletteResolutionError> {
    if color_count < 2 {
        Err(PaletteResolutionError::PaletteTooSmall)
    } else if indices.len() != pixel_count {
        Err(PaletteResolutionError::IndexCountMismatch)
    } else if exists|i: int| 0 <= i < indices.len() && #[trigger] indices[i] >= palette.len() {
        Err(PaletteResolutionError::IndexOutOfRange)
    } else {
        Ok(Seq::new(indices.len(), |i: int| palette[indices[i] as int]))
    }
}

/// The text of the coat of arms of a grid that is `width` wide and holds
/// `pixels`, row by row.
pub open spec fn grid_text(pixels: Seq<Rgb>, width: u32, title: bool) -> Seq<char> {
    coa_text(coa_of(blocks_of_pixels(pixels, width as nat), title, width))
}

/// The text of the conversion with the colours of a quantized palette, or
/// why there is none.
pub open spec fn reduced_text(
    pixel_count: nat,
    width: u32,
    title: bool,
    color_count: u8,
    palette: Seq<Rgb>,
    indices: Seq<u8>,
) -> Result<Seq<char>, PaletteResolutionError> {
    match reduced_pixels(pixel_count, color_count, palette, indices) {
        Ok(pixels) => Ok(grid_text(pixels, width, title)),
        Err(e) => Err(e),
    }
}

/// What a conversion gave, as plain values: the characters of the text, or
/// the error.
pub open spec fn outcome(text: Result<String, PaletteResolutionError>) -> Result<
    Seq<char>,
    PaletteResolutionError,
> {
    match text {
        Ok(t) => Ok(t@),
        Err(e) => Err(e),
    }
}

/// The outcome of a conversion in the mode `mode`. The palette, the indices
/// and the number of colours count in the reduced mode only.
pub open spec fn conversion_text(
    mode: ColorMode,
    pixels: Seq<Rgb>,
    width: u32,
    title: bool,
    color_count: u8,
    palette: Seq<Rgb>,
    indices: Seq<u8>,
) -> Result<Seq<char>, PaletteResolutionError> {
    match mode {
        ColorMode::All => Ok(grid_text(pixels, width, title)),
        ColorMode::Vanilla => Ok(grid_text(vanilla_pixels(pixels), width, title)),
        ColorMode::Reduced => reduced_text(
            pixels.len(),
            width,
            title,
            color_count,
            palette,
            indices,
        ),
    }
}

/// Repeated runs on the same input give the same text, character for
/// character, or the same error: the outcome of a conversion is a function
/// of the grid, the mode and the mode's parameters.
pub proof fn lemma_repeated_runs_agree(
    mode: ColorMode,
    pixels: Seq<Rgb>,
    width: u32,
    title: bool,
    color_count: u8,
    palette: Seq<Rgb>,
    indices: Seq<u8>,
    first: Result<String, PaletteResolutionError>,
    second: Result<String, PaletteResolutionError>,
)
    requires
        outcome(first) == conversion_text(
            mode,
            pixels,
            width,
            title,
            color_count,
            palette,
            indices,
        ),
        outcome(second) == conversion_text(
            mode,
            pixels,
            width,
            title,
            color_count,
            palette,
            indices,
        ),
    ensures
        first matches Ok(a) ==> second matches Ok(b) && a@ == b@,
        first matches Err(e) ==> second matches Err(f) && e == f,
{
}

/// Whether a palette of `color_count` colours can be asked for.
pub fn check_color_count(color_count: u8) -> (checked: Result<(), PaletteResolutionError>)
    ensures
        checked == if color_count < 2 {
            Err::<(), PaletteResolutionError>(PaletteResolutionError::PaletteTooSmall)
        } else {
            Ok::<(), PaletteResolutionError>(())
        },
{
    if color_count < MIN_COLOR_COUNT {
        Err(PaletteResolutionError::PaletteTooSmall)
    } else {
        Ok(())
    }
}

/// The grid of `img`'s size whose pixels are looked up in `palette` by
/// `indices`, one index per pixel, row by row.
pub fn resolve_reduced(
    img: &PixelGrid,
    color_count: u8,
    palette: &Vec<Rgb>,
    indices: &Vec<u8>,
) -> (resolved: Result<PixelGrid, PaletteResolutionError>)
    ensures
        match reduced_pixels(img@.len(), color_count, palette@, indices@) {
            Ok(pixels) => resolved matches Ok(grid) && grid@ == pixels && grid.spec_width()
                == img.spec_width() && grid.spec_height() == img.spec_height(),
            Err(e) => resolved matches Err(found) && found == e,
        },
{
    if color_count < MIN_COLOR_COUNT {
        return Err(PaletteResolutionError::PaletteTooSmall);
    }
    if indices.len() != img.pixels().len() {
        return Err(PaletteResolutionError::IndexCountMismatch);
    }
    let mut pixels: Vec<Rgb> = Vec::new();
    let mut i: usize = 0;
    while i < indices.len()
        invariant
            i <= indices.len(),
            color_count >= 2,
            indices@.len() == img@.len(),
            pixels@.len() == i,
            forall|j: int| 0 <= j < i ==> (#[trigger] indices@[j]) < palette@.len(),
            forall|j: int| 0 <= j < i ==> (#[trigger] pixels@[j]) == palette@[indices@[j] as int],
        decreases indices.len() - i,
    {
        let at: usize = indices[i] as usize;
        if at >= palette.len() {
            assert(indices@[i as int] >= palette@.len());
            return Err(PaletteResolutionError::IndexOutOfRange);
        }
        pixels.push(palette[at]);
        i = i + 1;
    }
    assert(pixels@ =~= Seq::new(indices@.len(), |i: int| palette@[indices@[i] as int]));
    match PixelGrid::new(img.width(), img.height(), pixels) {
        Some(grid) => Ok(grid),
        None => {
            assert(false);
            Err(PaletteResolutionError::IndexCountMismatch)
        },
    }
}

/// Generates the text of a coat of arms with every colour of the image.
pub fn from_image_all_colors(img: &PixelGrid, title: bool) -> (text: String)
    ensures
        text@ == grid_text(img@, img.spec_width(), title),
{
    let mut colored_blocks = index_colors(img);
    parse_map(&mut colored_blocks, title, img.width())
}

/// Generates the text of a coat of arms with only the reference colours:
/// every pixel takes the reference colour nearest to it.
pub fn from_image_vanilla_colors(img: &PixelGrid, title: bool) -> (text: String)
    ensures
        text@ == grid_text(vanilla_pixels(img@), img.spec_width(), title),
{
    let resolved = img.to_vanilla();
    let mut colored_blocks = index_colors(&resolved);
    parse_map(&mut colored_blocks, title, img.width())
}

/// Generates the text of a coat of arms with the colours of a quantized
/// palette: `palette` and `indices` are what the quantizer gave for `img`
/// when asked for `color_count` colours, one palette index per pixel.
pub fn from_image_custom_colors(
    img: &PixelGrid,
    title: bool,
    color_count: u8,
    palette: &Vec<Rgb>,
    indices: &Vec<u8>,
) -> (text: Result<String, PaletteResolutionError>)
    ensures
        outcome(text) == reduced_text(
            img@.len(),
            img.spec_width(),
            title,
            color_count,
            palette@,
            indices@,
        ),
{
    match resolve_reduced(img, color_count, palette, indices) {
        Ok(resolved) => {
            let mut colored_blocks = index_colors(&resolved);
            Ok(parse_map(&mut colored_blocks, title, img.width()))
        },
        Err(e) => Err(e),
    }
}

/// Converts a grid in the mode `mode`. In the reduced mode `palette` and
/// `indices` are what the quantizer gave for `img` when asked for
/// `color_count` colours; the other modes do not look at them.
pub fn convert(
    mode: ColorMode,
    img: &PixelGrid,
    title: bool,
    color_count: u8,
    palette: &Vec<Rgb>,
    indices: &Vec<u8>,
) -> (text: Result<String, PaletteResolutionError>)
    ensures
        outcome(text) == conversion_text(
            mode,
            img@,
            img.spec_width(),
            title,
            color_count,
            palette@,
            indices@,
        ),
{
    match mode {
        ColorMode::All => Ok(from_image_all_colors(img, title)),
        ColorMode::Reduced => from_image_custom_colors(img, title, color_count, palette, indices),
        ColorMode::Vanilla => Ok(from_image_vanilla_colors(img, title)),
    }
}

} // verus!
