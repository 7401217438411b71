//! An editable palette: a named list of colors, kept as it is entered.
use vstd::prelude::*;
use crate::color::{Color, color_bytes, color_of_bytes, copy_colors, lemma_color_bytes_round_trip};
use crate::palette::colors_bytes;
use crate::render::image::ImageData;
use crate::savable::Savable;

verus! {

/// The file name ending of a saved palette.
pub open spec fn palette_suffix() -> Seq<char> {
    seq!['_', 'p', 'a', 'l', 'e', 't', 't', 'e', '.', 'b', 'i', 'n']
}

broadcast use crate::color::Color::lemma_view_eq;

/// The colors read from `data`, 2 bytes each; an incomplete last byte is ignored.
pub open spec fn colors_of_bytes(data: Seq<u8>) -> Seq<(u8, u8, u8)> {
    Seq::new(data.len() / 2, |k: int| color_of_bytes(data[2 * k], data[2 * k + 1]))
}

/// `colors` padded with black up to `n` entries.
pub open spec fn padded(colors: Seq<(u8, u8, u8)>, n: int) -> Seq<(u8, u8, u8)> {
    if n <= colors.len() {
        colors
    } else {
        colors + Seq::new((n - colors.len()) as nat, |i: int| (0u8, 0u8, 0u8))
    }
}

/// A named palette as edited: its colors in the order they were set.
pub struct Palette {
    name: String,
    colors: Vec<Color>,
}

impl Palette {
    pub closed spec fn name_view(&self) -> Seq<char> {
        self.name@
    }

    pub closed spec fn colors(&self) -> Seq<(u8, u8, u8)> {
        self.colors@.map_values(|c: Color| c@)
    }

    pub closed spec fn color_list(&self) -> Seq<Color> {
        self.colors@
    }

    /// An empty palette.
    pub fn new(name: &str) -> (p: Self)
        ensures
            p.name_view() == name@,
            p.colors() == Seq::<(u8, u8, u8)>::empty(),
    {
        Palette::with_colors(name, Vec::new())
    }

    /// A palette of exactly these colors.
    pub fn with_colors(name: &str, colors: Vec<Color>) -> (p: Self)
        ensures
            p.name_view() == name@,
            p.colors() == colors@.map_values(|c: Color| c@),
    {
        Palette { name: name.to_owned(), colors }
    }

    /// Sets color `index`, first filling the palette up to it with black.
    pub fn set_color(&mut self, index: usize, color: Color)
        ensures
            final(self).name_view() == old(self).name_view(),
            final(self).colors() == padded(old(self).colors(), index + 1).update(index as int, color@),
    {
        let ghost before = self.colors();
        while index >= self.colors.len()
            invariant
                self.name_view() == old(self).name_view(),
                before == old(self).colors(),
                before.len() <= self.colors@.len(),
                self.colors@.len() <= index + 1 || self.colors@.len() == before.len(),
                self.colors() == padded(before, self.colors@.len() as int),
            decreases index + 1 - self.colors@.len(),
        {
            let ghost prev = self.colors();
            self.colors.push(Color::black());
            assert(self.colors() =~= prev.push((0u8, 0u8, 0u8)));
            assert(padded(before, self.colors@.len() as int) =~= padded(before, prev.len() as int).push(
                (0u8, 0u8, 0u8),
            ));
        }
        assert(padded(before, index + 1) == padded(before, self.colors@.len() as int)) by {
            if index + 1 <= before.len() {
                assert(self.colors@.len() == before.len());
            }
        }
        let ghost prev = self.colors();
        self.colors.set(index, color);
        assert(self.colors() =~= prev.update(index as int, color@));
    }

    pub fn len(&self) -> (n: usize)
        ensures
            n == self.colors().len(),
    {
        self.colors.len()
    }

    /// The color at `index`, if there is one.
    pub fn get(&self, index: usize) -> (c: Option<&Color>)
        ensures
            index < self.colors().len() ==> (c matches Some(c) && c@ == self.colors()[index as int]),
            index >= self.colors().len() ==> c is None,
    {
        if index < self.colors.len() {
            Some(&self.colors[index])
        } else {
            None
        }
    }

    /// The colors, in order.
    pub fn as_slice(&self) -> (s: &[Color])
        ensures
            s@ == self.color_list(),
            s@.map_values(|c: Color| c@) == self.colors(),
    {
        self.colors.as_slice()
    }

    /// The file name ending of a saved palette.
    pub fn suffix() -> (s: &'static str)
        ensures
            s@ == palette_suffix(),
    {
        let s = "_palette.bin";
        proof {
            reveal_strlit("_palette.bin");
        }
        s
    }

    /// The palette stored in `data`, 2 bytes per color.
    pub fn create(name: &str, data: &[u8]) -> (p: Self)
        ensures
            p.name_view() == name@,
            p.colors() == colors_of_bytes(data@),
    {
        let len = data.len();
        let n = len / 2;
        let mut colors: Vec<Color> = Vec::new();
        let mut k: usize = 0;
        while k < n
            invariant
                len == data@.len(),
                n == data@.len() / 2,
                k <= n,
                colors@.map_values(|c: Color| c@) == colors_of_bytes(data@).take(k as int),
            decreases n - k,
        {
            assert(2 * k + 1 < data@.len()) by (nonlinear_arith)
                requires
                    k < n,
                    n == data@.len() / 2,
            ;
            let c = Color::from_bytes([data[2 * k], data[2 * k + 1]]);
            let ghost before = colors@.map_values(|c: Color| c@);
            colors.push(c);
            assert(colors@.map_values(|c: Color| c@) =~= before.push(c@));
            assert(colors@.map_values(|c: Color| c@) =~= colors_of_bytes(data@).take(k + 1));
            k += 1;
        }
        assert(colors_of_bytes(data@).take(n as int) =~= colors_of_bytes(data@));
        Palette::with_colors(name, colors)
    }
}

impl Palette {
    /// The palette as an image of `dimensions`: pixel `i` shows entry `i` while the palette has
    /// it, else entry 0.
    pub fn render_with_dimensions(&self, dimensions: (usize, usize)) -> (img: ImageData)
        requires
            dimensions.0 * dimensions.1 <= usize::MAX,
        ensures
            img.palette@ == self.color_list(),
            img.dimensions == dimensions,
            !img.transparent,
            img.data@ == Seq::new(
                (dimensions.0 * dimensions.1) as nat,
                |i: int| if i < self.colors().len() { i as u8 } else { 0u8 },
            ),
    {
        let n = dimensions.0 * dimensions.1;
        let len = self.colors.len();
        let mut data: Vec<u8> = Vec::new();
        let mut i: usize = 0;
        while i < n
            invariant
                len == self.colors().len(),
                i <= n,
                data@ == Seq::new(i as nat, |k: int| if k < len { k as u8 } else { 0u8 }),
            decreases n - i,
        {
            let v = if i < len { #[verifier::truncate] (i as u8) } else { 0u8 };
            data.push(v);
            assert(data@ =~= Seq::new((i + 1) as nat, |k: int| if k < len { k as u8 } else { 0u8 }));
            i += 1;
        }
        ImageData { palette: copy_colors(self.colors.as_slice()), data, dimensions, transparent: false }
    }

    /// The palette as a 16 by 16 image.
    pub fn render_square(&self) -> (img: ImageData)
        ensures
            img.palette@ == self.color_list(),
            img.dimensions == (16usize, 16usize),
            !img.transparent,
            img.data@ == Seq::new(256, |i: int| if i < self.colors().len() { i as u8 } else { 0u8 }),
    {
        self.render_with_dimensions((16, 16))
    }

    /// Each color as a 1 by 1 image.
    pub fn render_colors(&self) -> (imgs: Vec<ImageData>)
        ensures
            imgs@.len() == self.colors().len(),
            forall|k: int|
                0 <= k < imgs@.len() ==> {
                    &&& (#[trigger] imgs@[k]).palette@ == self.color_list()
                    &&& imgs@[k].data@ == seq![k as u8]
                    &&& imgs@[k].dimensions == (1usize, 1usize)
                    &&& !imgs@[k].transparent
                },
    {
        let mut imgs: Vec<ImageData> = Vec::new();
        let mut k: usize = 0;
        while k < self.colors.len()
            invariant
                k <= self.colors@.len(),
                imgs@.len() == k,
                forall|j: int|
                    0 <= j < k ==> {
                        &&& (#[trigger] imgs@[j]).palette@ == self.color_list()
                        &&& imgs@[j].data@ == seq![j as u8]
                        &&& imgs@[j].dimensions == (1usize, 1usize)
                        &&& !imgs@[j].transparent
                    },
            decreases self.colors@.len() - k,
        {
            let mut data: Vec<u8> = Vec::new();
            data.push(#[verifier::truncate] (k as u8));
            assert(data@ =~= seq![k as u8]);
            imgs.push(ImageData { palette: copy_colors(self.colors.as_slice()), data, dimensions: (1, 1), transparent: false });
            k += 1;
        }
        imgs
    }
}

impl Savable for Palette {
    open spec fn spec_name(&self) -> Seq<char> {
        self.name_view()
    }

    fn name(&self) -> (n: &str) {
        self.name.as_str()
    }

    /// Two bytes per color, in order.
    fn as_data(&self) -> (data: Vec<u8>)
        ensures
            data@ == colors_bytes(self.color_list()),
    {
        let mut out: Vec<u8> = Vec::new();
        let mut i: usize = 0;
        while i < self.colors.len()
            invariant
                i <= self.colors@.len(),
                out@ == colors_bytes(self.colors@.take(i as int)),
            decreases self.colors@.len() - i,
        {
            let b = self.colors[i].to_bytes();
            out.push(b[0]);
            out.push(b[1]);
            proof {
                let t = self.colors@.take(i + 1);
                assert(t.drop_last() =~= self.colors@.take(i as int));
                assert(b@ =~= seq![b[0], b[1]]);
            }
            i += 1;
        }
        assert(self.colors@.take(i as int) =~= self.colors@);
        out
    }
}

/// The bytes of a list of colors hold each color's two bytes at its place.
pub proof fn lemma_colors_bytes_index(cs: Seq<Color>)
    ensures
        colors_bytes(cs).len() == 2 * cs.len(),
        forall|k: int|
            0 <= k < cs.len() ==> #[trigger] colors_bytes(cs)[2 * k] == color_bytes(cs[k]@)[0]
                && colors_bytes(cs)[2 * k + 1] == color_bytes(cs[k]@)[1],
    decreases cs.len(),
{
    if cs.len() > 0 {
        let d = cs.drop_last();
        lemma_colors_bytes_index(d);
        assert forall|k: int| 0 <= k < cs.len() implies #[trigger] colors_bytes(cs)[2 * k] == color_bytes(
            cs[k]@,
        )[0] && colors_bytes(cs)[2 * k + 1] == color_bytes(cs[k]@)[1] by {
            if k < d.len() {
                assert(cs[k] == d[k]);
            }
        }
    }
}

/// Reading back the bytes a palette is saved as gives the same colors.
pub proof fn lemma_palette_round_trip(cs: Seq<Color>)
    requires
        forall|k: int| 0 <= k < cs.len() ==> #[trigger] cs[k]@.0 <= 31 && cs[k]@.1 <= 31 && cs[k]@.2 <= 31,
    ensures
        colors_of_bytes(colors_bytes(cs)) == cs.map_values(|c: Color| c@),
{
    lemma_colors_bytes_index(cs);
    let b = colors_bytes(cs);
    assert forall|k: int| 0 <= k < cs.len() implies #[trigger] colors_of_bytes(b)[k] == cs[k]@ by {
        lemma_color_bytes_round_trip(cs[k]@);
    }
    assert(colors_of_bytes(b) =~= cs.map_values(|c: Color| c@));
}

/// Reading back the bytes a palette is saved as gives its colors, as long as every channel is
/// at most 31.
pub proof fn lemma_saved_palette_colors(q: Palette)
    requires
        forall|k: int|
            0 <= k < q.color_list().len() ==> #[trigger] q.color_list()[k]@.0 <= 31 && q.color_list()[k]@.1 <= 31
                && q.color_list()[k]@.2 <= 31,
    ensures
        colors_of_bytes(colors_bytes(q.color_list())) == q.colors(),
{
    lemma_palette_round_trip(q.color_list());
}

} // verus!
