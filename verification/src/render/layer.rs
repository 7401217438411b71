//! A stack of images shown on top of each other: a background, optionally the two screen
//! layers of the video memory, and optionally the editing cursor.
use vstd::prelude::*;
use crate::color::copy_colors;
use crate::domain::palette::Palette;
use crate::domain::screen::ScreenData;
use crate::map::TileMap;
use crate::render::image::{BORDER_WIDTH, ImageData};
use crate::render::png::{Png, indexed_png, packed_pairs, png_fits, png_palette, png_trns};
use crate::render::image::views;
use crate::render::render::{on_cursor, render_background, render_cursor, render_screen, screen_tiles_present};

verus! {

/// The character and screen blocks of the two background layers.
pub struct VRamData {
    pub bg0_character_data: TileMap,
    pub bg0_screen_data: ScreenData,
    pub bg1_character_data: TileMap,
    pub bg1_screen_data: ScreenData,
}

/// Pixel `i` of an image `w` by `h` framed by `BORDER_WIDTH` pixels of entry 0 on each side.
pub open spec fn border_pixel(data: Seq<u8>, w: int, h: int, i: int) -> u8 {
    let nw = w + 2 * BORDER_WIDTH;
    let x = i % nw;
    let y = i / nw;
    if BORDER_WIDTH <= x < BORDER_WIDTH + w && BORDER_WIDTH <= y < BORDER_WIDTH + h {
        data[(y - BORDER_WIDTH) * w + (x - BORDER_WIDTH)]
    } else {
        0u8
    }
}

/// An image can be framed: it holds all its pixels and the framed image fits in memory.
pub open spec fn border_fits(img: ImageData) -> bool {
    &&& img.data@.len() >= img.dimensions.0 * img.dimensions.1
    &&& (img.dimensions.0 + 2 * BORDER_WIDTH) * (img.dimensions.1 + 2 * BORDER_WIDTH) <= usize::MAX
}

/// `b` is `a` framed by `BORDER_WIDTH` pixels of entry 0.
pub open spec fn bordered(a: ImageData, b: ImageData) -> bool {
    let (w, h) = a.dimensions;
    &&& b.palette@ == a.palette@
    &&& b.transparent == a.transparent
    &&& b.dimensions.0 == w + 2 * BORDER_WIDTH
    &&& b.dimensions.1 == h + 2 * BORDER_WIDTH
    &&& b.data@ == Seq::new(
        ((w + 2 * BORDER_WIDTH) * (h + 2 * BORDER_WIDTH)) as nat,
        |i: int| border_pixel(a.data@, w as int, h as int, i),
    )
}

/// The cursor over a grid of `dimensions` cells of 8 by 8 pixels fits in memory and its cell
/// lies in the image.
pub open spec fn cursor_fits(dimensions: (usize, usize), x: usize, y: usize) -> bool {
    &&& dimensions.0 * 8 * (dimensions.1 * 8) <= usize::MAX
    &&& (y * 8 + 7) * (dimensions.0 * 8) + x * 8 + 7 < dimensions.0 * 8 * (dimensions.1 * 8)
}

/// `c` is the cursor image for cell (`x`, `y`) over a grid of `dimensions` cells.
pub open spec fn is_cursor(c: ImageData, dimensions: (usize, usize), x: usize, y: usize) -> bool {
    &&& c.palette@.len() == 2
    &&& c.palette@[0]@ == (0u8, 0u8, 0u8)
    &&& c.palette@[1]@ == (0u8, 31u8, 31u8)
    &&& c.dimensions.0 == dimensions.0 * 8
    &&& c.dimensions.1 == dimensions.1 * 8
    &&& c.data@.len() == dimensions.0 * 8 * (dimensions.1 * 8)
    &&& forall|i: int|
        0 <= i < c.data@.len() ==> #[trigger] c.data@[i] == (if on_cursor((dimensions.0 * 8) as int, y * 8, x * 8, i) {
            1u8
        } else {
            0u8
        })
    &&& c.transparent
}

/// The entries of the background with the screen layers laid over it: where layer 0 has a
/// non-zero entry it shows, else layer 1's entry, over as many pixels as both layers have.
pub open spec fn merged(background: Seq<u8>, bg0: Seq<u8>, bg1: Seq<u8>) -> Seq<u8> {
    let n = if bg0.len() < bg1.len() {
        bg0.len()
    } else {
        bg1.len()
    };
    Seq::new(
        background.len(),
        |i: int|
            if i < n {
                if bg0[i] != 0 {
                    bg0[i]
                } else {
                    bg1[i]
                }
            } else {
                background[i]
            },
    )
}

/// Merging the screen layers onto the background keeps its size; at every pixel both layers
/// cover, layer 0 shows where its entry is not 0 and layer 1 shows where it is; every other
/// pixel keeps the background's entry.
pub proof fn lemma_layer0_over_layer1(background: Seq<u8>, bg0: Seq<u8>, bg1: Seq<u8>)
    ensures
        merged(background, bg0, bg1).len() == background.len(),
        forall|i: int|
            0 <= i < background.len() && i < bg0.len() && i < bg1.len() && bg0[i] != 0 ==> #[trigger] merged(
                background,
                bg0,
                bg1,
            )[i] == bg0[i],
        forall|i: int|
            0 <= i < background.len() && i < bg0.len() && i < bg1.len() && bg0[i] == 0 ==> #[trigger] merged(
                background,
                bg0,
                bg1,
            )[i] == bg1[i],
        forall|i: int|
            0 <= i < background.len() && !(i < bg0.len() && i < bg1.len()) ==> #[trigger] merged(
                background,
                bg0,
                bg1,
            )[i] == background[i],
{
}

/// `img` framed by `BORDER_WIDTH` pixels of entry 0 on every side.
pub fn border(image_data: ImageData) -> (framed: ImageData)
    requires
        border_fits(image_data),
    ensures
        bordered(image_data, framed),
{
    let ghost a = image_data;
    let ImageData { palette, data, dimensions: (width, height), transparent } = image_data;
    assert(width + 2 <= (width + 2) * (height + 2) && height + 2 <= (width + 2) * (height + 2))
        by (nonlinear_arith);
    let len = data.len();
    let new_width = width + 2 * BORDER_WIDTH;
    let new_height = height + 2 * BORDER_WIDTH;
    let n = new_width * new_height;
    let mut new_data: Vec<u8> = Vec::new();
    let mut i: usize = 0;
    while i < n
        invariant
            n == new_width * new_height,
            new_width == width + 2 * BORDER_WIDTH,
            new_height == height + 2 * BORDER_WIDTH,
            data@.len() >= width * height,
            len == data@.len(),
            i <= n,
            new_data@ == Seq::new(i as nat, |k: int| border_pixel(data@, width as int, height as int, k)),
        decreases n - i,
    {
        let x = i % new_width;
        let y = i / new_width;
        let v = if BORDER_WIDTH <= x && x < BORDER_WIDTH + width && BORDER_WIDTH <= y && y < BORDER_WIDTH
            + height {
            let yy = y - BORDER_WIDTH;
            let xx = x - BORDER_WIDTH;
            assert(yy * width + xx < width * height && yy * width <= yy * width + xx) by (nonlinear_arith)
                requires
                    yy < height,
                    xx < width,
            ;
            data[yy * width + xx]
        } else {
            0u8
        };
        new_data.push(v);
        assert(new_data@ =~= Seq::new((i + 1) as nat, |k: int| border_pixel(data@, width as int, height as int, k)));
        i += 1;
    }
    ImageData { palette, data: new_data, dimensions: (new_width, new_height), transparent }
}

/// Layers to draw: a background, the two screen layers, and a cursor.
pub struct Layers {
    background: ImageData,
    layers: Option<(ImageData, ImageData)>,
    cursor: Option<ImageData>,
}

impl Layers {
    pub closed spec fn background(&self) -> ImageData {
        self.background
    }

    pub closed spec fn layers(&self) -> Option<(ImageData, ImageData)> {
        self.layers
    }

    pub closed spec fn cursor(&self) -> Option<ImageData> {
        self.cursor
    }

    /// A 240 by 160 screen: a background of entry 0 under the two screen layers of `vram`.
    pub fn new_screen(palette: &Palette, vram: &VRamData) -> (l: Self)
        requires
            screen_tiles_present(vram.bg0_character_data.tiles(), vram.bg0_screen_data.characters()),
            screen_tiles_present(vram.bg1_character_data.tiles(), vram.bg1_screen_data.characters()),
        ensures
            l.background().dimensions == (240usize, 160usize),
            l.background().data@ == Seq::new(38400, |i: int| 0u8),
            l.background().palette@ == palette.color_list(),
            !l.background().transparent,
            l.layers() matches Some((bg0, bg1)) && {
                &&& bg0.data@ == Seq::new(38400, |i: int| crate::render::render::screen_pixel(vram.bg0_character_data.tiles(), vram.bg0_screen_data.characters(), i))
                &&& bg1.data@ == Seq::new(38400, |i: int| crate::render::render::screen_pixel(vram.bg1_character_data.tiles(), vram.bg1_screen_data.characters(), i))
                &&& bg0.dimensions == (240usize, 160usize) && bg1.dimensions == (240usize, 160usize)
                &&& bg0.palette@ == palette.color_list() && bg1.palette@ == palette.color_list()
                &&& bg0.transparent && bg1.transparent
            },
            l.cursor() is None,
    {
        let background = render_background(palette, (240, 160));
        assert(background.data@ =~= Seq::new(38400, |i: int| 0u8));
        let bg0 = render_screen(palette, &vram.bg0_character_data, &vram.bg0_screen_data);
        let bg1 = render_screen(palette, &vram.bg1_character_data, &vram.bg1_screen_data);
        Layers { background, layers: Some((bg0, bg1)), cursor: None }
    }

    /// Just a background.
    pub fn new_background(background: ImageData) -> (l: Self)
        ensures
            l.background() == background,
            l.layers() is None,
            l.cursor() is None,
    {
        Layers { background, layers: None, cursor: None }
    }

    /// Adds the cursor over cell (`cursor_x`, `cursor_y`). The first cursor frames the
    /// background and the screen layers; later ones replace the cursor.
    pub fn set_cursor(self, cursor_x: usize, cursor_y: usize) -> (l: Self)
        requires
            self.cursor() is None ==> border_fits(self.background()),
            self.cursor() is None ==> (self.layers() matches Some((a, b)) ==> border_fits(a) && border_fits(b)),
            self.cursor() is None ==> cursor_fits(
                (
                    (self.background().dimensions.0 + 2 * BORDER_WIDTH) as usize,
                    (self.background().dimensions.1 + 2 * BORDER_WIDTH) as usize,
                ),
                cursor_x,
                cursor_y,
            ),
            self.cursor() is Some ==> cursor_fits(self.background().dimensions, cursor_x, cursor_y),
        ensures
            self.cursor() is None ==> bordered(self.background(), l.background()),
            self.cursor() is None ==> (self.layers() is None <==> l.layers() is None),
            self.cursor() is None ==> (self.layers() matches Some((a, b)) ==> (l.layers() matches Some((c, d))
                && bordered(a, c) && bordered(b, d))),
            self.cursor() is Some ==> l.background() == self.background() && l.layers() == self.layers(),
            l.cursor() matches Some(c) && is_cursor(c, l.background().dimensions, cursor_x, cursor_y),
    {
        let Layers { background, layers, cursor } = self;
        let (background, layers) = match cursor {
            None => {
                let background = border(background);
                let layers = match layers {
                    Some((bg0, bg1)) => Some((border(bg0), border(bg1))),
                    None => None,
                };
                (background, layers)
            },
            Some(_) => (background, layers),
        };
        let cursor = Some(render_cursor(background.dimensions, cursor_x, cursor_y));
        Layers { background, layers, cursor }
    }

    /// The PNG file of every image, bottom to top: the background, the two screen layers if
    /// any, the cursor if any.
    pub fn to_pngs(&self) -> (pngs: Vec<Png>)
        requires
            png_fits(self.background().dimensions, self.background().data@.len()),
            self.layers() matches Some((a, b)) ==> png_fits(a.dimensions, a.data@.len()) && png_fits(
                b.dimensions,
                b.data@.len(),
            ),
            self.cursor() matches Some(c) ==> png_fits(c.dimensions, c.data@.len()),
        ensures
            pngs@.len() == 1 + (if self.layers() is Some { 2int } else { 0int }) + (if self.cursor() is Some { 1int } else { 0int }),
            pngs@[0].0@ == image_png(self.background()),
            self.layers() matches Some((a, b)) ==> pngs@[1].0@ == image_png(a) && pngs@[2].0@ == image_png(b),
            self.cursor() matches Some(c) ==> pngs@[pngs@.len() - 1].0@ == image_png(c),
    {
        let mut pngs: Vec<Png> = Vec::new();
        pngs.push(self.background.to_png());
        if let Some((bg0, bg1)) = &self.layers {
            pngs.push(bg0.to_png());
            pngs.push(bg1.to_png());
        }
        if let Some(cursor) = &self.cursor {
            pngs.push(cursor.to_png());
        }
        pngs
    }

    /// One PNG file of the background with the screen layers merged onto it (see `merged`),
    /// opaque, in the background's palette; the cursor is left out.
    pub fn to_png(&self) -> (png: Png)
        requires
            png_fits(self.background().dimensions, self.background().data@.len()),
            self.layers() matches Some((a, b)) ==> (a.data@.len() <= self.background().data@.len() || b.data@.len()
                <= self.background().data@.len()),
        ensures
            png.0@ == indexed_png(
                self.background().dimensions.0 as u32,
                self.background().dimensions.1 as u32,
                png_palette(views(self.background().palette@)),
                png_trns(views(self.background().palette@), false),
                packed_pairs(
                    match self.layers() {
                        Some((a, b)) => merged(self.background().data@, a.data@, b.data@),
                        None => self.background().data@,
                    },
                ),
            ),
    {
        let background = &self.background;
        let mut data: Vec<u8> = Vec::new();
        let mut i: usize = 0;
        while i < background.data.len()
            invariant
                i <= background.data@.len(),
                data@ == background.data@.take(i as int),
            decreases background.data@.len() - i,
        {
            data.push(background.data[i]);
            assert(data@ =~= background.data@.take(i + 1));
            i += 1;
        }
        assert(data@ =~= background.data@);
        if let Some((bg0, bg1)) = &self.layers {
            let n = if bg0.data.len() < bg1.data.len() {
                bg0.data.len()
            } else {
                bg1.data.len()
            };
            let ghost full = background.data@;
            let mut idx: usize = 0;
            while idx < n
                invariant
                    n <= bg0.data@.len() && n <= bg1.data@.len(),
                    n <= full.len(),
                    n == (if bg0.data@.len() < bg1.data@.len() { bg0.data@.len() } else { bg1.data@.len() }),
                    idx <= n,
                    data@.len() == full.len(),
                    forall|k: int| 0 <= k < data@.len() ==> #[trigger] data@[k] == (if k < idx {
                        merged(full, bg0.data@, bg1.data@)[k]
                    } else {
                        full[k]
                    }),
                decreases n - idx,
            {
                let b0 = bg0.data[idx];
                let b1 = bg1.data[idx];
                let pal = if b0 != 0 { b0 } else { b1 };
                data.set(idx, pal);
                idx += 1;
            }
            assert(data@ =~= merged(full, bg0.data@, bg1.data@));
        }
        let img = ImageData {
            palette: copy_colors(background.palette.as_slice()),
            data,
            dimensions: background.dimensions,
            transparent: false,
        };
        img.to_png()
    }
}

/// The PNG file of an image.
pub open spec fn image_png(img: ImageData) -> Seq<u8> {
    indexed_png(
        img.dimensions.0 as u32,
        img.dimensions.1 as u32,
        png_palette(views(img.palette@)),
        png_trns(views(img.palette@), img.transparent),
        packed_pairs(img.data@),
    )
}

} // verus!