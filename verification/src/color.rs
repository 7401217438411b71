//! A GBA color: three 5-bit channels packed into one little-endian half-word.
use vstd::prelude::*;

verus! {

/// Largest value a 5-bit color channel can hold.
pub const CHANNEL_MAX: u8 = 31;

/// A color with 5 bits per channel.
#[derive(Clone, Copy, Debug, PartialEq, Eq, Structural)]
pub struct Color {
    r: u8,
    g: u8,
    b: u8,
}

impl View for Color {
    type V = (u8, u8, u8);

    closed spec fn view(&self) -> (u8, u8, u8) {
        (self.r, self.g, self.b)
    }
}

/// The half-word that holds a color: red in bits 0-4, green in 5-9, blue in 10-14.
pub open spec fn color_word(r: u8, g: u8, b: u8) -> int {
    r + 32 * g + 1024 * b
}

/// The color with the given channels, each at most 31.
pub closed spec fn color_of(c: (u8, u8, u8)) -> Color {
    Color { r: c.0, g: c.1, b: c.2 }
}

/// A color built from channels of at most 31 has those channels.
pub broadcast proof fn lemma_color_of(c: (u8, u8, u8))
    ensures
        #[trigger] color_of(c)@ == c,
{
}

/// The two little-endian bytes of a color.
pub open spec fn color_bytes(c: (u8, u8, u8)) -> Seq<u8> {
    let w = color_word(c.0, c.1, c.2);
    seq![(w % 256) as u8, (w / 256) as u8]
}

/// The channels read back from two little-endian bytes; bit 15 is ignored.
pub open spec fn color_of_bytes(b0: u8, b1: u8) -> (u8, u8, u8) {
    let w = b0 + 256 * b1;
    ((w % 32) as u8, ((w / 32) % 32) as u8, ((w / 1024) % 32) as u8)
}

impl Color {
    #[verifier::type_invariant]
    spec fn channels_fit(self) -> bool {
        self.r <= 31 && self.g <= 31 && self.b <= 31
    }

    /// Two colors are equal exactly when their channels are.
    pub broadcast proof fn lemma_view_eq(a: Color, b: Color)
        ensures
            #![trigger a@, b@]
            (a@ == b@) <==> a == b,
    {
    }

    /// Builds a color; fails when a channel exceeds 31.
    pub fn new(r: u8, g: u8, b: u8) -> (res: Result<Color, String>)
        ensures
            (r <= 31 && g <= 31 && b <= 31) <==> res is Ok,
            res matches Ok(c) ==> c@ == (r, g, b),
            res matches Err(e) ==> e@ == "Invalid color values"@,
    {
        if r > 31 || g > 31 || b > 31 {
            Err("Invalid color values".to_owned())
        } else {
            Ok(Color { r, g, b })
        }
    }

    /// All channels zero.
    pub fn black() -> (c: Color)
        ensures
            c@ == (0u8, 0u8, 0u8),
    {
        Color { r: 0, g: 0, b: 0 }
    }

    pub fn r(&self) -> (v: u8)
        ensures
            v == self@.0,
            v <= 31,
    {
        proof {
            use_type_invariant(self);
        }
        self.r
    }

    pub fn g(&self) -> (v: u8)
        ensures
            v == self@.1,
            v <= 31,
    {
        proof {
            use_type_invariant(self);
        }
        self.g
    }

    pub fn b(&self) -> (v: u8)
        ensures
            v == self@.2,
            v <= 31,
    {
        proof {
            use_type_invariant(self);
        }
        self.b
    }

    /// The channels scaled to 8 bits per channel.
    pub fn as_png_rgb(&self) -> (rgb: [u8; 3])
        ensures
            rgb@ == seq![(self@.0 * 8) as u8, (self@.1 * 8) as u8, (self@.2 * 8) as u8],
            rgb@[0] == self@.0 * 8,
            rgb@[1] == self@.1 * 8,
            rgb@[2] == self@.2 * 8,
    {
        proof {
            use_type_invariant(self);
        }
        [self.r * 8, self.g * 8, self.b * 8]
    }

    /// The channels scaled to 8 bits; alpha is 0 for black when `transparent`, else 255.
    pub fn as_rgba(&self, transparent: bool) -> (rgba: [u8; 4])
        ensures
            rgba@[0] == self@.0 * 8,
            rgba@[1] == self@.1 * 8,
            rgba@[2] == self@.2 * 8,
            rgba@[3] == (if transparent && self@ == (0u8, 0u8, 0u8) { 0u8 } else { 255u8 }),
            rgba@.len() == 4,
    {
        proof {
            use_type_invariant(self);
        }
        let alpha: u8 = if transparent && self.r == 0 && self.g == 0 && self.b == 0 {
            0
        } else {
            255
        };
        [self.r * 8, self.g * 8, self.b * 8, alpha]
    }

    /// The two bytes that store this color.
    pub fn to_bytes(&self) -> (bytes: [u8; 2])
        ensures
            bytes@ == color_bytes(self@),
    {
        proof {
            use_type_invariant(self);
        }
        let r = self.r as u16;
        let g = self.g as u16;
        let b = self.b as u16;
        let w: u16 = r | (g << 5u16) | (b << 10u16);
        assert(w == r + 32 * g + 1024 * b) by (bit_vector)
            requires
                r <= 31,
                g <= 31,
                b <= 31,
                w == r | (g << 5u16) | (b << 10u16),
        ;
        let lo = (w & 0xff) as u8;
        let hi = (w >> 8u16) as u8;
        assert(lo == w % 256 && hi == w / 256) by (bit_vector)
            requires
                lo == (w & 0xff) as u8,
                hi == (w >> 8u16) as u8,
        ;
        [lo, hi]
    }

    /// Reads a color from two little-endian bytes; the top bit is ignored.
    pub fn from_bytes(bytes: [u8; 2]) -> (c: Color)
        ensures
            c@ == color_of_bytes(bytes@[0], bytes@[1]),
    {
        let b0 = bytes[0];
        let b1 = bytes[1];
        let w: u16 = (b0 as u16) | ((b1 as u16) << 8u16);
        assert(w == b0 + 256 * b1) by (bit_vector)
            requires
                w == (b0 as u16) | ((b1 as u16) << 8u16),
        ;
        let r = (w & 0x001f) as u8;
        let g = ((w & 0x03e0) >> 5u16) as u8;
        let b = ((w & 0x7c00) >> 10u16) as u8;
        assert(r == w % 32 && g == (w / 32) % 32 && b == (w / 1024) % 32 && r <= 31 && g <= 31
            && b <= 31) by (bit_vector)
            requires
                r == (w & 0x001f) as u8,
                g == ((w & 0x03e0) >> 5u16) as u8,
                b == ((w & 0x7c00) >> 10u16) as u8,
        ;
        Color { r, g, b }
    }
}

impl From<&Color> for [u8; 2] {
    fn from(color: &Color) -> (bytes: [u8; 2]) {
        color.to_bytes()
    }
}

impl vstd::std_specs::convert::FromSpecImpl<&Color> for [u8; 2] {
    open spec fn obeys_from_spec() -> bool {
        true
    }

    open spec fn from_spec(color: &Color) -> [u8; 2] {
        let s = color_bytes(color@);
        [s[0], s[1]]
    }
}

impl From<[u8; 2]> for Color {
    fn from(bytes: [u8; 2]) -> (c: Color) {
        Color::from_bytes(bytes)
    }
}

impl vstd::std_specs::convert::FromSpecImpl<[u8; 2]> for Color {
    open spec fn obeys_from_spec() -> bool {
        true
    }

    open spec fn from_spec(bytes: [u8; 2]) -> Color {
        color_of(color_of_bytes(bytes@[0], bytes@[1]))
    }
}

/// Reading back the bytes written for a color gives the same color.
pub proof fn lemma_color_bytes_round_trip(c: (u8, u8, u8))
    requires
        c.0 <= 31,
        c.1 <= 31,
        c.2 <= 31,
    ensures
        color_bytes(c).len() == 2,
        color_of_bytes(color_bytes(c)[0], color_bytes(c)[1]) == c,
{
    let (r, g, b) = (c.0 as u32, c.1 as u32, c.2 as u32);
    let w: u32 = (r + 32 * g + 1024 * b) as u32;
    assert((w % 256) + 256 * (w / 256) == w && w / 256 < 256 && w % 32 == r && (w / 32) % 32 == g
        && (w / 1024) % 32 == b) by (bit_vector)
        requires
            r <= 31,
            g <= 31,
            b <= 31,
            w == r + 32 * g + 1024 * b,
    ;
    assert(color_word(c.0, c.1, c.2) == w);
}

/// Writing the color read from two bytes gives back the bytes, with bit 15 cleared.
#[verifier::rlimit(40)]
pub proof fn lemma_bytes_color_round_trip(b0: u8, b1: u8)
    ensures
        color_bytes(color_of_bytes(b0, b1)) == seq![b0, (b1 % 128) as u8],
{
    let c = color_of_bytes(b0, b1);
    let x: u32 = (b0 + 256 * b1) as u32;
    assert((x % 32) + 32 * ((x / 32) % 32) + 1024 * ((x / 1024) % 32) == x % 32768
        && (x % 32768) % 256 == x % 256 && (x % 32768) / 256 == (x / 256) % 128) by (bit_vector)
        requires
            x < 65536,
    ;
    assert(x % 256 == b0 && x / 256 == b1) by (nonlinear_arith)
        requires
            x == b0 + 256 * b1,
            b0 < 256,
    ;
    assert(color_word(c.0, c.1, c.2) == x % 32768);
    assert(color_bytes(c) =~= seq![b0, (b1 % 128) as u8]);
}

/// A copy of a list of colors.
pub fn copy_colors(colors: &[Color]) -> (c: Vec<Color>)
    ensures
        c@ == colors@,
{
    let mut c: Vec<Color> = Vec::new();
    let mut i: usize = 0;
    while i < colors.len()
        invariant
            i <= colors@.len(),
            c@ == colors@.take(i as int),
        decreases colors@.len() - i,
    {
        c.push(colors[i]);
        assert(c@ =~= colors@.take(i + 1));
        i += 1;
    }
    assert(c@ =~= colors@);
    c
}

} // verus!
