//! PNG files of images of palette entries: 4 bits per pixel, with the palette and its
//! transparency.
use vstd::prelude::*;
use crate::color::Color;
use crate::render::image::{ImageData, views};

verus! {

/// The bytes of a PNG file.
pub struct Png(pub Vec<u8>);

impl Png {
    /// The bytes of the file.
    pub fn bytes(&self) -> (b: &Vec<u8>)
        ensures
            b@ == self.0@,
    {
        &self.0
    }
}

/// The PNG file that the `png` crate writes for an indexed image of `width` by `height`
/// pixels at 4 bits per pixel, with palette bytes `palette` (3 per entry), transparency bytes
/// `trns` (1 per entry) and image bytes `packed` (2 pixels per byte, row by row).
pub uninterp spec fn indexed_png(width: u32, height: u32, palette: Seq<u8>, trns: Seq<u8>, packed: Seq<u8>) -> Seq<u8>;

/// Encodes an indexed 4-bit PNG file with the `png` crate's `Encoder`. The image bytes hold
/// `(width + 1) / 2` bytes per row, as the encoder asks, and the image is not empty, so that
/// writing the header and the image data succeeds; the result is the named encoding of its
/// arguments.
#[verifier::external_body]
pub(crate) fn encode_indexed_png(width: u32, height: u32, palette: Vec<u8>, trns: Vec<u8>, packed: &[u8]) -> (png: Vec<u8>)
    requires
        width > 0,
        height > 0,
        packed@.len() == ((width + 1) / 2) * height,
    ensures
        png@ == indexed_png(width, height, palette@, trns@, packed@),
{
    let mut png = Vec::new();
    let mut encoder = ::png::Encoder::new(&mut png, width, height);
    encoder.set_color(::png::ColorType::Indexed);
    encoder.set_depth(::png::BitDepth::Four);
    encoder.set_palette(palette);
    encoder.set_trns(trns);
    let mut writer = encoder.write_header().unwrap();
    writer.write_image_data(packed).unwrap();
    writer.finish().unwrap();
    png
}

/// The palette bytes of a PNG file: the channels of each color at 8 bits, in order.
pub open spec fn png_palette(colors: Seq<(u8, u8, u8)>) -> Seq<u8> {
    Seq::new(
        3 * colors.len(),
        |i: int|
            {
                let c = colors[i / 3];
                (if i % 3 == 0 {
                    c.0 * 8
                } else if i % 3 == 1 {
                    c.1 * 8
                } else {
                    c.2 * 8
                }) as u8
            },
    )
}

/// The transparency bytes of a PNG file: 0 for black entries of a transparent image, else 255.
pub open spec fn png_trns(colors: Seq<(u8, u8, u8)>, transparent: bool) -> Seq<u8> {
    Seq::new(
        colors.len(),
        |i: int|
            if transparent && colors[i] == (0u8, 0u8, 0u8) {
                0u8
            } else {
                255u8
            },
    )
}

/// Two entries per byte, the first in the high nibble; a last odd entry is dropped.
pub open spec fn packed_pairs(data: Seq<u8>) -> Seq<u8> {
    Seq::new(data.len() / 2, |k: int| ((data[2 * k] << 4u8) | data[2 * k + 1]) as u8)
}

/// Packing palette entries below 16 two per byte puts the first of each pair in the high nibble
/// and the second in the low one: byte `k` is `16 * data[2k] + data[2k + 1]`, so that reading
/// the bytes back gives pixel `2k` from the high nibble and pixel `2k + 1` from the low one.
pub proof fn lemma_packed_pairs_left_pixel_high(data: Seq<u8>)
    requires
        forall|i: int| 0 <= i < data.len() ==> #[trigger] data[i] < 16,
    ensures
        packed_pairs(data).len() == data.len() / 2,
        forall|k: int|
            0 <= k < data.len() / 2 ==> #[trigger] packed_pairs(data)[k] == 16 * data[2 * k] + data[2 * k + 1],
        forall|k: int|
            0 <= k < data.len() / 2 ==> #[trigger] packed_pairs(data)[k] / 16 == data[2 * k]
                && packed_pairs(data)[k] % 16 == data[2 * k + 1],
{
    assert forall|k: int| 0 <= k < data.len() / 2 implies #[trigger] packed_pairs(data)[k] == 16 * data[2 * k]
        + data[2 * k + 1] by {
        assert(2 * k + 1 < data.len());
        let a = data[2 * k];
        let b = data[2 * k + 1];
        assert(a < 16 && b < 16);
        assert(((a << 4u8) | b) as u8 == 16 * a + b) by (bit_vector)
            requires
                a < 16,
                b < 16,
        ;
    }
}

/// The image is not empty and its entries fill whole rows of packed bytes.
pub open spec fn png_fits(dimensions: (usize, usize), len: nat) -> bool {
    let w = dimensions.0 as u32;
    let h = dimensions.1 as u32;
    &&& w > 0
    &&& h > 0
    &&& ((w + 1) / 2) * h == len / 2
}

/// The PNG file of an image: its palette and transparency, and its entries two per byte.
pub fn image_data_to_png(image_data: &ImageData) -> (png: Vec<u8>)
    requires
        png_fits(image_data.dimensions, image_data.data@.len()),
    ensures
        png@ == indexed_png(
            image_data.dimensions.0 as u32,
            image_data.dimensions.1 as u32,
            png_palette(views(image_data.palette@)),
            png_trns(views(image_data.palette@), image_data.transparent),
            packed_pairs(image_data.data@),
        ),
{
    let colors = image_data.palette.as_slice();
    let ghost cv = views(colors@);
    let mut palette: Vec<u8> = Vec::new();
    let mut trns: Vec<u8> = Vec::new();
    let mut i: usize = 0;
    while i < colors.len()
        invariant
            cv == views(colors@),
            colors@ == image_data.palette@,
            i <= colors@.len(),
            palette@ == png_palette(cv.take(i as int)),
            trns@ == png_trns(cv.take(i as int), image_data.transparent),
        decreases colors@.len() - i,
    {
        let rgb = colors[i].as_png_rgb();
        let alpha = colors[i].as_rgba(image_data.transparent)[3];
        palette.push(rgb[0]);
        palette.push(rgb[1]);
        palette.push(rgb[2]);
        trns.push(alpha);
        assert(palette@ =~= png_palette(cv.take(i + 1)));
        assert(trns@ =~= png_trns(cv.take(i + 1), image_data.transparent));
        i += 1;
    }
    assert(cv.take(i as int) =~= cv);
    let data = &image_data.data;
    let len = data.len();
    let n = len / 2;
    let mut packed: Vec<u8> = Vec::new();
    let mut k: usize = 0;
    while k < n
        invariant
            len == data@.len(),
            n == data@.len() / 2,
            k <= n,
            packed@ == packed_pairs(data@).take(k as int),
        decreases n - k,
    {
        assert(2 * k + 1 < data@.len()) by (nonlinear_arith)
            requires
                k < n,
                n == data@.len() / 2,
        ;
        let b = (data[2 * k] << 4u8) | data[2 * k + 1];
        packed.push(b);
        assert(packed@ =~= packed_pairs(data@).take(k + 1));
        k += 1;
    }
    assert(packed_pairs(data@).take(n as int) =~= packed_pairs(data@));
    let width = #[verifier::truncate] (image_data.dimensions.0 as u32);
    let height = #[verifier::truncate] (image_data.dimensions.1 as u32);
    encode_indexed_png(width, height, palette, trns, packed.as_slice())
}

} // verus!
