//! Decoding a PNG file with the `png` crate and turning the pixels of its frame into 8-bit RGB
//! triples.
use vstd::prelude::*;
use crate::error::{Error, ErrorV};

verus! {

/// The color type of a PNG image.
#[derive(Clone, Copy, Debug, PartialEq, Eq, Structural)]
pub enum ColorType {
    Grayscale,
    Rgb,
    Indexed,
    GrayscaleAlpha,
    Rgba,
}

/// The bits per sample of a PNG image.
#[derive(Clone, Copy, Debug, PartialEq, Eq, Structural)]
pub enum BitDepth {
    One,
    Two,
    Four,
    Eight,
    Sixteen,
}

/// The color type a PNG file gives by its code: 0, 2, 3, 4 and 6 stand for grayscale, RGB,
/// indexed, grayscale with alpha and RGBA.
pub open spec fn color_type_of_code(code: u8) -> Option<ColorType> {
    if code == 0 {
        Some(ColorType::Grayscale)
    } else if code == 2 {
        Some(ColorType::Rgb)
    } else if code == 3 {
        Some(ColorType::Indexed)
    } else if code == 4 {
        Some(ColorType::GrayscaleAlpha)
    } else if code == 6 {
        Some(ColorType::Rgba)
    } else {
        None
    }
}

/// The bit depth a PNG file gives by its number of bits: 1, 2, 4, 8 or 16.
pub open spec fn bit_depth_of_code(code: u8) -> Option<BitDepth> {
    if code == 1 {
        Some(BitDepth::One)
    } else if code == 2 {
        Some(BitDepth::Two)
    } else if code == 4 {
        Some(BitDepth::Four)
    } else if code == 8 {
        Some(BitDepth::Eight)
    } else if code == 16 {
        Some(BitDepth::Sixteen)
    } else {
        None
    }
}

/// The color type of a code.
pub fn color_type_from_code(code: u8) -> (c: Option<ColorType>)
    ensures
        c == color_type_of_code(code),
{
    if code == 0 {
        Some(ColorType::Grayscale)
    } else if code == 2 {
        Some(ColorType::Rgb)
    } else if code == 3 {
        Some(ColorType::Indexed)
    } else if code == 4 {
        Some(ColorType::GrayscaleAlpha)
    } else if code == 6 {
        Some(ColorType::Rgba)
    } else {
        None
    }
}

/// The bit depth of a code.
pub fn bit_depth_from_code(code: u8) -> (d: Option<BitDepth>)
    ensures
        d == bit_depth_of_code(code),
{
    if code == 1 {
        Some(BitDepth::One)
    } else if code == 2 {
        Some(BitDepth::Two)
    } else if code == 4 {
        Some(BitDepth::Four)
    } else if code == 8 {
        Some(BitDepth::Eight)
    } else if code == 16 {
        Some(BitDepth::Sixteen)
    } else {
        None
    }
}

/// What the `png` crate makes of a PNG file's bytes: the codes of its color type and bit depth,
/// its palette if it has one, and its first frame as decoded without transformations (rows of
/// packed samples); or the text of the error it reports.
pub uninterp spec fn png_frame(bytes: Seq<u8>) -> Result<(u8, u8, Option<Seq<u8>>, Seq<u8>), Seq<char>>;

/// Decodes a PNG file's bytes with the `png` crate: `Decoder::new(bytes).read_info()`, then
/// `next_frame` into a buffer of `output_buffer_size()` bytes; the color type and bit depth
/// are given by their codes, the palette as bytes, and an error by its `Debug` text. The outcome
/// depends on the bytes alone, and is given by the name `png_frame`.
#[verifier::external_body]
fn decode_png_frame(bytes: &[u8]) -> (r: Result<(u8, u8, Option<Vec<u8>>, Vec<u8>), String>)
    ensures
        match png_frame(bytes@) {
            Ok((c, d, p, f)) => r matches Ok(x) && x.0 == c && x.1 == d && owned_palette_view(x.2) == p && x.3@ == f,
            Err(m) => r matches Err(t) && t@ == m,
        },
{
    let mut reader = match ::png::Decoder::new(bytes).read_info() {
        Ok(reader) => reader,
        Err(e) => return Err(format!("{:?}", e)),
    };
    let mut frame = vec![0u8; reader.output_buffer_size()];
    if let Err(e) = reader.next_frame(&mut frame) {
        return Err(format!("{:?}", e));
    }
    let info = reader.info();
    let palette = match &info.palette {
        Some(p) => Some(p.to_vec()),
        None => None,
    };
    Ok((info.color_type as u8, info.bit_depth as u8, palette, frame))
}

/// A decoded palette, as bytes.
pub open spec fn owned_palette_view(palette: Option<Vec<u8>>) -> Option<Seq<u8>> {
    match palette {
        Some(p) => Some(p@),
        None => None,
    }
}

/// The palette of a frame, as bytes.
pub open spec fn palette_view(palette: Option<&[u8]>) -> Option<Seq<u8>> {
    match palette {
        Some(p) => Some(p@),
        None => None,
    }
}

/// Whether a frame of this color type and depth can be read, with the palette for indexed
/// ones.
pub fn is_readable(color_type: ColorType, bit_depth: BitDepth, palette: Option<&[u8]>, frame: &Vec<u8>) -> (b: bool)
    ensures
        b == readable(color_type, bit_depth, palette_view(palette), frame@),
{
    match color_type {
        ColorType::Rgb => true,
        ColorType::Rgba => true,
        ColorType::Indexed => {
            if bit_depth != BitDepth::Four && bit_depth != BitDepth::Eight {
                return false;
            }
            match palette {
                None => false,
                Some(p) => {
                    let copy = frame.clone();
                    assert(copy@ == frame@);
                    let idx = read_bit_depth(bit_depth, copy);
                    let mut k: usize = 0;
                    while k < idx.len()
                        invariant
                            k <= idx@.len(),
                            idx@ == depth_indexes(bit_depth, frame@),
                            palette == Some(p),
                            color_type == ColorType::Indexed,
                            bit_depth == BitDepth::Four || bit_depth == BitDepth::Eight,
                            forall|i: int| 0 <= i < k ==> 3 * #[trigger] idx@[i] + 3 <= p@.len(),
                        decreases idx@.len() - k,
                    {
                        let len = p.len();
                        let x = idx[k] as usize;
                        if len < 3 || x > (len - 3) / 3 {
                            assert(3 * x + 3 > len) by (nonlinear_arith)
                                requires
                                    len < 3 || x > (len - 3) / 3,
                            ;
                            assert(3 * idx@[k as int] + 3 > p@.len());
                            return false;
                        }
                        assert(3 * x + 3 <= len) by (nonlinear_arith)
                            requires
                                len >= 3,
                                x <= (len - 3) / 3,
                        ;
                        k += 1;
                    }
                    true
                },
            }
        },
        _ => false,
    }
}

/// The 8-bit RGB bytes of every pixel of a PNG file, decoded with the `png` crate: RGB files
/// as they are, RGBA files without alpha, indexed files (4 or 8 bits) looked up in their
/// palette. Fails with the decoder's message when the bytes do not decode, and with the codes of
/// the color type and bit depth when the frame is of another kind or names a palette entry the
/// file does not have.
pub fn read_png_to_rgb_255(bytes: &[u8]) -> (r: Result<Vec<u8>, Error>)
    ensures
        match png_frame(bytes@) {
            Ok((c, d, p, f)) => match (color_type_of_code(c), bit_depth_of_code(d)) {
                (Some(ct), Some(bd)) => if readable(ct, bd, p, f) {
                    r matches Ok(v) && v@ == rgb_of(ct, bd, p, f)
                } else {
                    r matches Err(e) && e@ == ErrorV::PngNotRead { color_type: c, bit_depth: d }
                },
                _ => r matches Err(e) && e@ == ErrorV::PngNotRead { color_type: c, bit_depth: d },
            },
            Err(m) => r matches Err(e) && e@ == ErrorV::ImageDecode(m),
        },
{
    match decode_png_frame(bytes) {
        Err(m) => Err(Error::ImageDecode(m)),
        Ok((c, d, palette, frame)) => {
            match (color_type_from_code(c), bit_depth_from_code(d)) {
                (Some(ct), Some(bd)) => {
                    let pal: Option<&[u8]> = match &palette {
                        Some(p) => Some(p.as_slice()),
                        None => None,
                    };
                    proof {
                        assert(palette_view(pal) == owned_palette_view(palette));
                    }
                    if is_readable(ct, bd, pal, &frame) {
                        Ok(read_to_rgb_255(ct, bd, pal, frame))
                    } else {
                        Err(Error::PngNotRead { color_type: c, bit_depth: d })
                    }
                },
                _ => Err(Error::PngNotRead { color_type: c, bit_depth: d }),
            }
        },
    }
}

/// RGBA bytes without every fourth byte, the alpha.
pub open spec fn without_alpha(s: Seq<u8>) -> Seq<u8> {
    Seq::new(
        (3 * (s.len() / 4) + if s.len() % 4 < 3 { s.len() % 4 } else { 3 }) as nat,
        |j: int| s[(j / 3) * 4 + j % 3],
    )
}

/// Two 4-bit entries per byte, the low nibble first.
pub open spec fn nibbles(s: Seq<u8>) -> Seq<u8> {
    Seq::new(
        2 * s.len(),
        |i: int|
            if i % 2 == 0 {
                (s[i / 2] % 16) as u8
            } else {
                (s[i / 2] / 16) as u8
            },
    )
}

/// The palette entry of every index, 3 bytes each.
pub open spec fn palette_lookup(palette: Seq<u8>, idx: Seq<u8>) -> Seq<u8> {
    Seq::new(3 * idx.len(), |i: int| palette[3 * idx[i / 3] + i % 3])
}

/// The indexes of a frame at a bit depth that is read: 4 or 8 bits.
pub open spec fn depth_indexes(bit_depth: BitDepth, frame: Seq<u8>) -> Seq<u8> {
    if bit_depth == BitDepth::Four {
        nibbles(frame)
    } else {
        frame
    }
}

/// Every index names an entry of the palette.
pub open spec fn indexes_in_palette(palette: Seq<u8>, idx: Seq<u8>) -> bool {
    forall|i: int| 0 <= i < idx.len() ==> 3 * #[trigger] idx[i] + 3 <= palette.len()
}

/// A frame of this color type and depth can be read, with the palette for indexed ones.
pub open spec fn readable(color_type: ColorType, bit_depth: BitDepth, palette: Option<Seq<u8>>, frame: Seq<u8>) -> bool {
    match color_type {
        ColorType::Rgb | ColorType::Rgba => true,
        ColorType::Indexed => {
            &&& bit_depth == BitDepth::Four || bit_depth == BitDepth::Eight
            &&& palette matches Some(p) && indexes_in_palette(p, depth_indexes(bit_depth, frame))
        },
        _ => false,
    }
}

/// The RGB bytes of a frame of a given color type.
pub open spec fn rgb_of(color_type: ColorType, bit_depth: BitDepth, palette: Option<Seq<u8>>, frame: Seq<u8>) -> Seq<u8> {
    match color_type {
        ColorType::Rgb => frame,
        ColorType::Rgba => without_alpha(frame),
        _ => palette_lookup(palette->0, depth_indexes(bit_depth, frame)),
    }
}

/// The 8-bit RGB bytes of every pixel of a decoded frame: RGB frames as they are, RGBA
/// frames without alpha, indexed frames (4 or 8 bits) looked up in the palette.
pub fn read_to_rgb_255(color_type: ColorType, bit_depth: BitDepth, palette: Option<&[u8]>, frame: Vec<u8>) -> (rgb: Vec<u8>)
    requires
        readable(color_type, bit_depth, match palette { Some(p) => Some(p@), None => None }, frame@),
    ensures
        rgb@ == rgb_of(color_type, bit_depth, match palette { Some(p) => Some(p@), None => None }, frame@),
{
    match color_type {
        ColorType::Rgb => read_rgb(frame),
        ColorType::Indexed => read_indexed(palette.unwrap(), bit_depth, frame),
        ColorType::Rgba => read_rgba(frame),
        _ => {
            proof {
                assert(false);
            }
            Vec::new()
        },
    }
}

/// An RGB frame is already RGB.
pub fn read_rgb(frame: Vec<u8>) -> (rgb: Vec<u8>)
    ensures
        rgb@ == frame@,
{
    read_8_bit(frame)
}

/// An RGBA frame without its alpha bytes.
pub fn read_rgba(frame: Vec<u8>) -> (rgb: Vec<u8>)
    ensures
        rgb@ == without_alpha(frame@),
{
    let bytes = read_8_bit(frame);
    let mut out: Vec<u8> = Vec::new();
    let mut i: usize = 0;
    while i < bytes.len()
        invariant
            i <= bytes@.len(),
            out@ == without_alpha(bytes@.take(i as int)),
        decreases bytes@.len() - i,
    {
        if (i + 1) % 4 != 0 {
            out.push(bytes[i]);
        }
        assert(out@ =~= without_alpha(bytes@.take(i + 1)));
        i += 1;
    }
    assert(bytes@.take(i as int) =~= bytes@);
    out
}

/// The palette entry of every index of the frame, 3 bytes each.
pub fn read_indexed(palette: &[u8], bit_depth: BitDepth, frame: Vec<u8>) -> (rgb: Vec<u8>)
    requires
        bit_depth == BitDepth::Four || bit_depth == BitDepth::Eight,
        indexes_in_palette(palette@, depth_indexes(bit_depth, frame@)),
    ensures
        rgb@ == palette_lookup(palette@, depth_indexes(bit_depth, frame@)),
{
    let idx = read_bit_depth(bit_depth, frame);
    let mut out: Vec<u8> = Vec::new();
    let mut k: usize = 0;
    while k < idx.len()
        invariant
            indexes_in_palette(palette@, idx@),
            k <= idx@.len(),
            out@ == palette_lookup(palette@, idx@.take(k as int)),
        decreases idx@.len() - k,
    {
        let base = 3 * (idx[k] as usize);
        assert(3 * idx@[k as int] + 3 <= palette@.len());
        out.push(palette[base]);
        out.push(palette[base + 1]);
        out.push(palette[base + 2]);
        assert(out@ =~= palette_lookup(palette@, idx@.take(k + 1)));
        k += 1;
    }
    assert(idx@.take(k as int) =~= idx@);
    out
}

/// The bytes of an 8-bit frame.
pub fn read_8_bit(frame: Vec<u8>) -> (bytes: Vec<u8>)
    ensures
        bytes@ == frame@,
{
    frame
}

/// The entries of a 4-bit frame, the low nibble of each byte first.
pub fn read_4_bit(frame: Vec<u8>) -> (entries: Vec<u8>)
    ensures
        entries@ == nibbles(frame@),
{
    let mut out: Vec<u8> = Vec::new();
    let mut i: usize = 0;
    while i < frame.len()
        invariant
            i <= frame@.len(),
            out@ == nibbles(frame@.take(i as int)),
        decreases frame@.len() - i,
    {
        let b = frame[i];
        let lo = b & 0x0f;
        let hi = b >> 4u8;
        assert(lo == b % 16 && hi == b / 16) by (bit_vector)
            requires
                lo == b & 0x0f,
                hi == b >> 4u8,
        ;
        out.push(lo);
        out.push(hi);
        assert(out@ =~= nibbles(frame@.take(i + 1)));
        i += 1;
    }
    assert(frame@.take(i as int) =~= frame@);
    out
}

/// The entries of a 4- or 8-bit frame.
pub fn read_bit_depth(bit_depth: BitDepth, frame: Vec<u8>) -> (entries: Vec<u8>)
    requires
        bit_depth == BitDepth::Four || bit_depth == BitDepth::Eight,
    ensures
        entries@ == depth_indexes(bit_depth, frame@),
{
    match bit_depth {
        BitDepth::Four => read_4_bit(frame),
        _ => read_8_bit(frame),
    }
}

} // verus!
