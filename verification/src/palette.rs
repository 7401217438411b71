//! A named list of colors, as written to a `.bin` palette.
use vstd::prelude::*;
use crate::color::{Color, color_bytes};
use crate::trim::trim_trailing;
use crate::savable::Savable;

verus! {

/// Black, the color that trailing palette entries may be dropped for.
pub open spec fn is_black(c: Color) -> bool {
    c@ == (0u8, 0u8, 0u8)
}

/// The blank test used when trimming palettes.
pub open spec fn black_blank() -> spec_fn(Color) -> bool {
    |c: Color| is_black(c)
}

/// The bytes of a sequence of colors, two per color, in order.
pub open spec fn colors_bytes(colors: Seq<Color>) -> Seq<u8>
    decreases colors.len(),
{
    if colors.len() == 0 {
        Seq::empty()
    } else {
        colors_bytes(colors.drop_last()) + color_bytes(colors.last()@)
    }
}

pub struct Palette {
    name: String,
    colors: Vec<Color>,
}

impl Palette {
    pub closed spec fn name_view(&self) -> Seq<char> {
        self.name@
    }

    pub closed spec fn colors(&self) -> Seq<Color> {
        self.colors@
    }

    /// A palette of `colors`, without the black entries at its end.
    pub fn with_colors(name: &str, colors: Vec<Color>) -> (p: Self)
        ensures
            p.name_view() == name@,
            p.colors() == trim_trailing(colors@, black_blank()),
    {
        let ghost blank = black_blank();
        let ghost orig = colors@;
        let mut colors = colors;
        loop
            invariant
                blank == black_blank(),
                colors@ == orig.take(colors@.len() as int),
                colors@.len() <= orig.len(),
                trim_trailing(orig, blank) == trim_trailing(colors@, blank),
            ensures
                colors@.len() == 0 || !blank(colors@.last()),
            decreases colors@.len(),
        {
            let n = colors.len();
            if n == 0 {
                break ;
            }
            let last = colors[n - 1];
            if last.r() != 0 || last.g() != 0 || last.b() != 0 {
                assert(!blank(colors@.last()));
                break ;
            }
            let ghost before = colors@;
            proof {
                assert(last == before.last());
                assert(is_black(last));
                crate::trim::lemma_trim_drop_blank(before, blank);
            }
            colors.pop();
            assert(colors@ == before.drop_last());
            assert(colors@ =~= orig.take(colors@.len() as int));
        }
        proof {
            crate::trim::lemma_trim_untrimmed(colors@, blank);
        }
        Palette { name: name.to_owned(), colors }
    }

    pub fn len(&self) -> (n: usize)
        ensures
            n == self.colors().len(),
    {
        self.colors.len()
    }

    /// The color at `index`, if the palette has one there.
    pub fn get(&self, index: usize) -> (c: Option<&Color>)
        ensures
            index < self.colors().len() ==> c == Some(&self.colors()[index as int]),
            index >= self.colors().len() ==> c is None,
    {
        if index < self.colors.len() {
            Some(&self.colors[index])
        } else {
            None
        }
    }

    /// The first color, if any.
    pub fn first(&self) -> (c: Option<&Color>)
        ensures
            self.colors().len() > 0 ==> c == Some(&self.colors()[0]),
            self.colors().len() == 0 ==> c is None,
    {
        self.get(0)
    }

    /// The colors, in order.
    pub fn as_slice(&self) -> (s: &[Color])
        ensures
            s@ == self.colors(),
    {
        self.colors.as_slice()
    }
}

impl Savable for Palette {
    open spec fn spec_name(&self) -> Seq<char> {
        self.name_view()
    }

    fn name(&self) -> (n: &str) {
        self.name.as_str()
    }

    /// Two bytes per color, in order.
    fn as_data(&self) -> (data: Vec<u8>)
        ensures
            data@ == colors_bytes(self.colors()),
    {
        let mut out: Vec<u8> = Vec::new();
        let mut i: usize = 0;
        while i < self.colors.len()
            invariant
                i <= self.colors().len(),
                out@ == colors_bytes(self.colors().take(i as int)),
            decreases self.colors().len() - i,
        {
            let b = self.colors[i].to_bytes();
            let ghost before = out@;
            out.push(b[0]);
            out.push(b[1]);
            proof {
                let t = self.colors().take(i + 1);
                assert(t.drop_last() =~= self.colors().take(i as int));
                assert(out@ =~= before + b@);
            }
            i += 1;
        }
        assert(self.colors().take(i as int) =~= self.colors());
        out
    }
}

} // verus!
