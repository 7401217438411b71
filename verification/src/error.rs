//! What can go wrong while converting a project.
use vstd::prelude::*;
use crate::color::Color;
use crate::text::{append_chars, append_decimal, append_quoted, append_str, decimal, quoted, string_of};

verus! {

/// A failure of the library's own checks. Reading and writing files fail in other ways,
/// which the caller reports.
#[derive(Debug)]
pub enum Error {
    /// A palette image is not 16 by 16 pixels.
    PaletteDimensions { width: u32, height: u32 },
    /// A character image is not 256 by 256 pixels.
    CharacterDataDimensions { width: u32, height: u32 },
    /// A screen image is not 256 by 256 pixels.
    ScreenDataDimensions { width: u32, height: u32 },
    /// A pixel's color (at 5 bits per channel) is not in the palette.
    ColorNotFound(Color),
    /// A tile of a screen image matches no tile of the character data, flipped or not.
    TileNotFound { character_data: String, tile: [u8; 64] },
    /// A file named in the project configuration does not end in `.png`.
    NotPng(String),
    /// A boops file named in the project configuration does not end in `.csv`.
    NotCsv(String),
    /// The first line of a boops file is not `x,y,w,h,callback,args` (spaces aside).
    BoopsHeader,
    /// A line of a boops file does not have the form of a boop record.
    RecordFormat,
    /// A number in a boop record does not fit in a byte.
    ParseInt,
    /// The arguments of a list of boops do not fit in 256 bytes.
    ArgsIndexOverflow,
    /// The length of a boops file is not a multiple of 12.
    BoopsFileSize(usize),
    /// The name of a saved boops file does not end in `_boops.bin`.
    BoopsFileName(String),
    /// The bytes of an image file could not be decoded; the decoder's message.
    ImageDecode(String),
    /// A decoded image does not hold 3 bytes for each of its pixels.
    ImageSize { width: u32, height: u32, len: usize },
    /// A PNG frame of this color type and bit depth (by their codes) cannot be read as RGB, or
    /// names a palette entry its file does not have.
    PngNotRead { color_type: u8, bit_depth: u8 },
}

/// The contents of an error, with names as character sequences and colors as channels.
pub enum ErrorV {
    PaletteDimensions { width: u32, height: u32 },
    CharacterDataDimensions { width: u32, height: u32 },
    ScreenDataDimensions { width: u32, height: u32 },
    ColorNotFound((u8, u8, u8)),
    TileNotFound { character_data: Seq<char>, tile: Seq<u8> },
    NotPng(Seq<char>),
    NotCsv(Seq<char>),
    BoopsHeader,
    RecordFormat,
    ParseInt,
    ArgsIndexOverflow,
    BoopsFileSize(usize),
    BoopsFileName(Seq<char>),
    ImageDecode(Seq<char>),
    ImageSize { width: u32, height: u32, len: nat },
    PngNotRead { color_type: u8, bit_depth: u8 },
}

impl View for Error {
    type V = ErrorV;

    open spec fn view(&self) -> ErrorV {
        match self {
            Error::PaletteDimensions { width, height } => ErrorV::PaletteDimensions {
                width: *width,
                height: *height,
            },
            Error::CharacterDataDimensions { width, height } => ErrorV::CharacterDataDimensions {
                width: *width,
                height: *height,
            },
            Error::ScreenDataDimensions { width, height } => ErrorV::ScreenDataDimensions {
                width: *width,
                height: *height,
            },
            Error::ColorNotFound(c) => ErrorV::ColorNotFound(c@),
            Error::TileNotFound { character_data, tile } => ErrorV::TileNotFound {
                character_data: character_data@,
                tile: tile@,
            },
            Error::NotPng(s) => ErrorV::NotPng(s@),
            Error::NotCsv(s) => ErrorV::NotCsv(s@),
            Error::BoopsHeader => ErrorV::BoopsHeader,
            Error::RecordFormat => ErrorV::RecordFormat,
            Error::ParseInt => ErrorV::ParseInt,
            Error::ArgsIndexOverflow => ErrorV::ArgsIndexOverflow,
            Error::BoopsFileSize(n) => ErrorV::BoopsFileSize(*n),
            Error::BoopsFileName(s) => ErrorV::BoopsFileName(s@),
            Error::ImageDecode(s) => ErrorV::ImageDecode(s@),
            Error::ImageSize { width, height, len } => ErrorV::ImageSize {
                width: *width,
                height: *height,
                len: *len as nat,
            },
            Error::PngNotRead { color_type, bit_depth } => ErrorV::PngNotRead {
                color_type: *color_type,
                bit_depth: *bit_depth,
            },
        }
    }
}

/// The bytes of `s` in decimal, separated by `, `.
pub open spec fn byte_list(s: Seq<u8>) -> Seq<char>
    decreases s.len(),
{
    if s.len() == 0 {
        Seq::empty()
    } else if s.len() == 1 {
        decimal(s[0] as nat)
    } else {
        byte_list(s.drop_last()) + ", "@ + decimal(s.last() as nat)
    }
}

/// Row `k` of a tile's palette indexes as a list: `[a, b, c, d, e, f, g, h]`.
pub open spec fn tile_row_text(tile: Seq<u8>, k: int) -> Seq<char> {
    seq!['['] + byte_list(tile.subrange(8 * k, 8 * k + 8)) + seq![']']
}

/// The first `n` rows of a tile as text: each further row is added, quoted, after the text so
/// far, quoted, and a line feed.
pub open spec fn tile_text(tile: Seq<u8>, n: nat) -> Seq<char>
    decreases n,
{
    if n <= 1 {
        tile_row_text(tile, 0)
    } else {
        quoted(tile_text(tile, (n - 1) as nat)) + seq!['\n'] + quoted(tile_row_text(tile, n - 1))
    }
}

/// `out` with row `k` of `tile` added at the end as a list.
fn append_tile_row(out: &mut Vec<char>, tile: &[u8; 64], k: usize)
    requires
        k < 8,
    ensures
        final(out)@ == old(out)@ + tile_row_text(tile@, k as int),
{
    let ghost start = out@;
    let ghost row = tile@.subrange(8 * k, 8 * k + 8);
    out.push('[');
    let mut j: usize = 0;
    while j < 8
        invariant
            k < 8,
            j <= 8,
            row == tile@.subrange(8 * k, 8 * k + 8),
            out@ == start + seq!['['] + byte_list(row.take(j as int)),
        decreases 8 - j,
    {
        if j > 0 {
            append_str(out, ", ");
        }
        append_decimal(out, tile[8 * k + j] as u64);
        proof {
            assert(row.take(j + 1).drop_last() =~= row.take(j as int));
            assert(row.take(j + 1).last() == tile@[8 * k + j]);
            if j == 0 {
                assert(row.take(j as int) =~= Seq::<u8>::empty());
            }
        }
        j += 1;
    }
    assert(row.take(8) =~= row);
    out.push(']');
    assert(out@ =~= start + tile_row_text(tile@, k as int));
}

/// The text of the rows of a tile that is not found in character data.
fn tile_text_of(tile: &[u8; 64]) -> (t: Vec<char>)
    ensures
        t@ == tile_text(tile@, 8),
{
    let mut text: Vec<char> = Vec::new();
    append_tile_row(&mut text, tile, 0);
    assert(text@ =~= tile_text(tile@, 1));
    let mut k: usize = 1;
    while k < 8
        invariant
            1 <= k <= 8,
            text@ == tile_text(tile@, k as nat),
        decreases 8 - k,
    {
        let mut next: Vec<char> = Vec::new();
        append_quoted(&mut next, &text);
        next.push('\n');
        let mut row: Vec<char> = Vec::new();
        append_tile_row(&mut row, tile, k);
        append_quoted(&mut next, &row);
        assert(next@ =~= tile_text(tile@, (k + 1) as nat));
        text = next;
        k += 1;
    }
    text
}

/// The message of an error.
pub open spec fn error_message(e: ErrorV) -> Seq<char> {
    match e {
        ErrorV::PaletteDimensions { width, height } => "Palette dimensions off ("@ + decimal(width as nat)
            + seq!['x'] + decimal(height as nat) + ") != (16x16)"@,
        ErrorV::CharacterDataDimensions { width, height } => "Character data dimensions off ("@ + decimal(
            width as nat,
        ) + seq!['x'] + decimal(height as nat) + ") != (256x256)"@,
        ErrorV::ScreenDataDimensions { width, height } => "Screen data dimensions off ("@ + decimal(
            width as nat,
        ) + seq!['x'] + decimal(height as nat) + ") != (256x256)"@,
        ErrorV::ColorNotFound(c) => "Palette color ("@ + decimal(c.0 as nat) + ", "@ + decimal(c.1 as nat)
            + ", "@ + decimal(c.2 as nat) + ") not found"@,
        ErrorV::TileNotFound { character_data, tile } => "Tile not found in character data "@
            + character_data + tile_text(tile, 8),
        ErrorV::NotPng(f) => "File `"@ + f + "` is not a png file."@,
        ErrorV::NotCsv(f) => "Expected boops file to be .csv. "@ + f,
        ErrorV::BoopsHeader => "Boops csv header should be \"x,y,w,h,callback,args\" (spaces allowed)."@,
        ErrorV::RecordFormat => "No capture group found"@,
        ErrorV::ParseInt => "A number of a boop record is empty or does not fit in a byte"@,
        ErrorV::ArgsIndexOverflow => "args_index overflowed u8"@,
        ErrorV::BoopsFileSize(n) => "boops file size "@ + decimal(n as nat) + " is not a multiple of 12"@,
        ErrorV::BoopsFileName(f) => "file name "@ + quoted(f) + " does not end with `_boops.bin`"@,
        ErrorV::ImageDecode(m) => m,
        ErrorV::ImageSize { width, height, len } => "Decoded image of "@ + decimal(width as nat) + seq!['x']
            + decimal(height as nat) + " pixels holds "@ + decimal(len) + " bytes, not 3 per pixel"@,
        ErrorV::PngNotRead { color_type, bit_depth } => "PNG frame of color type "@ + decimal(
            color_type as nat,
        ) + " and bit depth "@ + decimal(bit_depth as nat) + " cannot be read as RGB"@,
    }
}

impl Error {
    /// The message that describes the error.
    pub fn message(&self) -> (m: String)
        ensures
            m@ == error_message(self@),
    {
        let mut out: Vec<char> = Vec::new();
        match self {
            Error::PaletteDimensions { width, height } => {
                append_str(&mut out, "Palette dimensions off (");
                append_decimal(&mut out, *width as u64);
                out.push('x');
                append_decimal(&mut out, *height as u64);
                append_str(&mut out, ") != (16x16)");
            },
            Error::CharacterDataDimensions { width, height } => {
                append_str(&mut out, "Character data dimensions off (");
                append_decimal(&mut out, *width as u64);
                out.push('x');
                append_decimal(&mut out, *height as u64);
                append_str(&mut out, ") != (256x256)");
            },
            Error::ScreenDataDimensions { width, height } => {
                append_str(&mut out, "Screen data dimensions off (");
                append_decimal(&mut out, *width as u64);
                out.push('x');
                append_decimal(&mut out, *height as u64);
                append_str(&mut out, ") != (256x256)");
            },
            Error::ColorNotFound(c) => {
                let (r, g, b) = (c.r(), c.g(), c.b());
                append_str(&mut out, "Palette color (");
                append_decimal(&mut out, r as u64);
                append_str(&mut out, ", ");
                append_decimal(&mut out, g as u64);
                append_str(&mut out, ", ");
                append_decimal(&mut out, b as u64);
                append_str(&mut out, ") not found");
            },
            Error::TileNotFound { character_data, tile } => {
                append_str(&mut out, "Tile not found in character data ");
                append_str(&mut out, character_data.as_str());
                let text = tile_text_of(tile);
                append_chars(&mut out, &text);
            },
            Error::NotPng(f) => {
                append_str(&mut out, "File `");
                append_str(&mut out, f.as_str());
                append_str(&mut out, "` is not a png file.");
            },
            Error::NotCsv(f) => {
                append_str(&mut out, "Expected boops file to be .csv. ");
                append_str(&mut out, f.as_str());
            },
            Error::BoopsHeader => {
                append_str(&mut out, "Boops csv header should be \"x,y,w,h,callback,args\" (spaces allowed).");
            },
            Error::RecordFormat => {
                append_str(&mut out, "No capture group found");
            },
            Error::ParseInt => {
                append_str(&mut out, "A number of a boop record is empty or does not fit in a byte");
            },
            Error::ArgsIndexOverflow => {
                append_str(&mut out, "args_index overflowed u8");
            },
            Error::BoopsFileSize(n) => {
                append_str(&mut out, "boops file size ");
                append_decimal(&mut out, *n as u64);
                append_str(&mut out, " is not a multiple of 12");
            },
            Error::BoopsFileName(f) => {
                append_str(&mut out, "file name ");
                let name = crate::text::chars_of(f.as_str());
                append_quoted(&mut out, &name);
                append_str(&mut out, " does not end with `_boops.bin`");
            },
            Error::ImageDecode(m) => {
                append_str(&mut out, m.as_str());
            },
            Error::ImageSize { width, height, len } => {
                append_str(&mut out, "Decoded image of ");
                append_decimal(&mut out, *width as u64);
                out.push('x');
                append_decimal(&mut out, *height as u64);
                append_str(&mut out, " pixels holds ");
                append_decimal(&mut out, *len as u64);
                append_str(&mut out, " bytes, not 3 per pixel");
            },
            Error::PngNotRead { color_type, bit_depth } => {
                append_str(&mut out, "PNG frame of color type ");
                append_decimal(&mut out, *color_type as u64);
                append_str(&mut out, " and bit depth ");
                append_decimal(&mut out, *bit_depth as u64);
                append_str(&mut out, " cannot be read as RGB");
            },
        }
        string_of(&out)
    }
}

} // verus!
