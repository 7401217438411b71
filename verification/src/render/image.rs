//! An image of palette entries with the palette it is drawn with.
use vstd::prelude::*;
use crate::color::Color;
use crate::render::png::{Png, image_data_to_png, indexed_png, png_fits, png_palette, png_trns, packed_pairs};

verus! {

/// The width of the frame drawn around an image that gets a cursor.
pub const BORDER_WIDTH: usize = 1;

/// The channels of each color of a list.
pub open spec fn views(cs: Seq<Color>) -> Seq<(u8, u8, u8)> {
    cs.map_values(|c: Color| c@)
}

/// The 8-bit RGBA value of palette entry `idx`: black for an entry past the palette; alpha 0
/// for black when `transparent`, else 255.
pub open spec fn entry_rgba(palette: Seq<(u8, u8, u8)>, idx: u8, transparent: bool) -> Seq<u8> {
    let c = if idx < palette.len() {
        palette[idx as int]
    } else {
        (0u8, 0u8, 0u8)
    };
    seq![
        (c.0 * 8) as u8,
        (c.1 * 8) as u8,
        (c.2 * 8) as u8,
        if transparent && c == (0u8, 0u8, 0u8) {
            0u8
        } else {
            255u8
        },
    ]
}

/// An image of `dimensions.0` by `dimensions.1` palette entries, row by row. For a 3x2 image,
/// data `[1, 2, 3, 4, 5, 6]` shows as
///
/// ```text
/// 1 2 3
/// 4 5 6
/// ```
pub struct ImageData {
    pub palette: Vec<Color>,
    pub data: Vec<u8>,
    pub dimensions: (usize, usize),
    pub transparent: bool,
}

/// The RGBA value of palette entry `idx` of `palette`.
pub fn get_color(palette: &[Color], idx: u8, transparent: bool) -> (rgba: [u8; 4])
    ensures
        rgba@ == entry_rgba(views(palette@), idx, transparent),
{
    let c = if (idx as usize) < palette.len() {
        palette[idx as usize]
    } else {
        Color::black()
    };
    let rgba = c.as_rgba(transparent);
    assert(rgba@ =~= entry_rgba(views(palette@), idx, transparent));
    rgba
}

impl ImageData {
    /// The RGBA bytes of every pixel, row by row.
    pub fn to_rgba(&self) -> (rgba: Vec<u8>)
        ensures
            rgba@.len() == 4 * self.data@.len(),
            forall|k: int, j: int| 0 <= k < self.data@.len() && 0 <= j < 4 ==> #[trigger] rgba@[4 * k + j]
                == entry_rgba(views(self.palette@), self.data@[k], self.transparent)[j],
    {
        let mut out: Vec<u8> = Vec::new();
        let mut k: usize = 0;
        while k < self.data.len()
            invariant
                k <= self.data@.len(),
                out@.len() == 4 * k,
                forall|i: int, j: int| 0 <= i < k && 0 <= j < 4 ==> #[trigger] out@[4 * i + j]
                    == entry_rgba(views(self.palette@), self.data@[i], self.transparent)[j],
            decreases self.data@.len() - k,
        {
            let c = get_color(self.palette.as_slice(), self.data[k], self.transparent);
            out.push(c[0]);
            out.push(c[1]);
            out.push(c[2]);
            out.push(c[3]);
            assert forall|i: int, j: int| 0 <= i < k + 1 && 0 <= j < 4 implies #[trigger] out@[4 * i + j]
                == entry_rgba(views(self.palette@), self.data@[i], self.transparent)[j] by {
                if i == k {
                    assert(out@[4 * i + j] == c@[j]);
                }
            }
            k += 1;
        }
        out
    }

    /// The PNG file of this image.
    pub fn to_png(&self) -> (png: Png)
        requires
            png_fits(self.dimensions, self.data@.len()),
        ensures
            png.0@ == indexed_png(
                self.dimensions.0 as u32,
                self.dimensions.1 as u32,
                png_palette(views(self.palette@)),
                png_trns(views(self.palette@), self.transparent),
                packed_pairs(self.data@),
            ),
    {
        Png(image_data_to_png(self))
    }
}

} // verus!
