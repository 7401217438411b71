//! Reordering of a 256-pixel-wide image, given row by row, into consecutive 8x8 tiles.
use vstd::prelude::*;

verus! {

pub const IMAGE_WIDTH: usize = 256;

pub const TILE_WIDTH: usize = 8;

pub const TILE_HEIGHT: usize = 8;

#[verifier::opaque]
/// The position in the row-major image of the `i`-th pixel in tile order: tiles run left to
/// right, then top to bottom; pixels within a tile run row by row.
pub open spec fn tiled_source(i: int) -> int {
    let tile_idx = i / 64;
    let pixel_in_tile = i % 64;
    let tile_col = (tile_idx % 32) * 8;
    let tile_row = (tile_idx / 32) * 8;
    let px = pixel_in_tile % 8;
    let py = pixel_in_tile / 8;
    (tile_row + py) * 256 + (tile_col + px)
}

/// How many pixels tile order yields from an image of `len` pixels: it stops at the first
/// position, counting from `i`, whose source lies outside the image.
pub open spec fn tiled_len_from(len: int, i: int) -> int
    decreases len - i,
{
    if i >= len {
        i
    } else if tiled_source(i) >= len {
        i
    } else {
        tiled_len_from(len, i + 1)
    }
}

pub open spec fn tiled_len(len: int) -> int {
    if len <= 0 {
        0
    } else {
        tiled_len_from(len, 0)
    }
}

/// `t` holds the first pixels of `s` in tile order.
pub open spec fn tiled_prefix(t: Seq<u8>, s: Seq<u8>) -> bool {
    forall|k: int|
        0 <= k < t.len() ==> #[trigger] t[k] == s[tiled_source(k)] && 0 <= tiled_source(k) < s.len()
}

/// Positions in tile order map to positions in the image.
pub proof fn lemma_tiled_source_nonneg(i: int)
    requires
        i >= 0,
    ensures
        tiled_source(i) >= 0,
{
    reveal(tiled_source);
}

proof fn lemma_tiled_prefix_push(t: Seq<u8>, s: Seq<u8>, p: u8)
    requires
        tiled_prefix(t, s),
        0 <= tiled_source(t.len() as int) < s.len(),
        p == s[tiled_source(t.len() as int)],
    ensures
        tiled_prefix(t.push(p), s),
{
    let u = t.push(p);
    assert forall|k: int| 0 <= k < u.len() implies #[trigger] u[k] == s[tiled_source(k)]
        && 0 <= tiled_source(k) < s.len() by {
        if k < t.len() {
            assert(u[k] == t[k]);
        }
    }
}

/// The pixels of a row-major image in tile order.
pub open spec fn tiled_seq(s: Seq<u8>) -> Seq<u8> {
    Seq::new(tiled_len(s.len() as int) as nat, |k: int| s[tiled_source(k)])
}

/// The consecutive 64-pixel chunks of a sequence.
pub open spec fn chunk_of(s: Seq<u8>, k: int) -> Seq<u8> {
    s.subrange(64 * k, 64 * k + 64)
}

/// A cursor that yields the pixels of a row-major image in tile order.
pub struct TiledIter {
    data: Vec<u8>,
    i: usize,
}

impl TiledIter {
    pub closed spec fn pixels(&self) -> Seq<u8> {
        self.data@
    }

    pub closed spec fn position(&self) -> int {
        self.i as int
    }

    pub fn new(data: Vec<u8>) -> (it: Self)
        ensures
            it.pixels() == data@,
            it.position() == 0,
    {
        TiledIter { data, i: 0 }
    }

    /// The next pixel in tile order; `None` once the image is exhausted or the source of the
    /// current position lies outside the image.
    pub fn next(&mut self) -> (p: Option<u8>)
        ensures
            final(self).pixels() == old(self).pixels(),
            old(self).position() >= old(self).pixels().len() ==> p is None && final(self).position()
                == old(self).position(),
            old(self).position() < old(self).pixels().len() ==> {
                &&& final(self).position() == old(self).position() + 1
                &&& p == (if tiled_source(old(self).position()) < old(self).pixels().len() {
                    Some(old(self).pixels()[tiled_source(old(self).position())])
                } else {
                    None::<u8>
                })
            },
    {
        if self.i >= self.data.len() {
            return None;
        }
        let i = self.i as u128;
        let tiles_per_row = (IMAGE_WIDTH / TILE_WIDTH) as u128;
        let tile_size = (TILE_WIDTH * TILE_HEIGHT) as u128;
        let tile_idx = i / tile_size;
        let pixel_in_tile = i % tile_size;
        let tile_col = (tile_idx % tiles_per_row) * (TILE_WIDTH as u128);
        let tile_row = (tile_idx / tiles_per_row) * (TILE_HEIGHT as u128);
        let px = pixel_in_tile % (TILE_WIDTH as u128);
        let py = pixel_in_tile / (TILE_WIDTH as u128);
        assert(i <= 0xffff_ffff_ffff_ffffu128);
        assert(tile_row <= i / 8 && py < 8 && tile_col < 256 && px < 8) by (nonlinear_arith)
            requires
                tile_idx == i / 64,
                pixel_in_tile == i % 64,
                tile_col == (tile_idx % 32) * 8,
                tile_row == (tile_idx / 32) * 8,
                px == pixel_in_tile % 8,
                py == pixel_in_tile / 8,
        ;
        let src_idx = (tile_row + py) * 256u128 + (tile_col + px);
        assert(src_idx == tiled_source(self.i as int)) by {
            reveal(tiled_source);
        }
        self.i += 1;
        if src_idx < self.data.len() as u128 {
            Some(self.data[src_idx as usize])
        } else {
            None
        }
    }
}

/// Tile order of a sequence of pixels, and its cut into 64-pixel tiles.
pub trait TiledIterExt: Sized {
    spec fn pixels(&self) -> Seq<u8>;

    fn tiled(self) -> (r: Vec<u8>)
        ensures
            r@ == tiled_seq(self.pixels()),
    ;

    fn tile_chunked(self) -> (r: Vec<[u8; 64]>)
        requires
            self.pixels().len() % 64 == 0,
        ensures
            r@.len() == self.pixels().len() / 64,
            forall|k: int| 0 <= k < r@.len() ==> #[trigger] r@[k]@ == chunk_of(self.pixels(), k),
    ;
}

impl TiledIterExt for Vec<u8> {
    open spec fn pixels(&self) -> Seq<u8> {
        self@
    }

    #[verifier::rlimit(60)]
    fn tiled(self) -> (r: Vec<u8>) {
        let ghost s = self@;
        let len = self.len();
        let mut it = TiledIter::new(self);
        let mut out: Vec<u8> = Vec::new();
        loop
            invariant_except_break
                out@.len() == it.position(),
                0 <= it.position() <= len,
                tiled_prefix(out@, s),
                tiled_len(len as int) == tiled_len_from(len as int, it.position()),
            invariant
                it.pixels() == s,
                len == s.len(),
            ensures
                out@ == tiled_seq(s),
            decreases len - it.position(),
        {
            let ghost pos = it.position();
            let next = it.next();
            if next.is_none() {
                assert(tiled_len_from(len as int, pos) == pos);
                assert(out@ =~= tiled_seq(s));
                break ;
            }
            let p = next.unwrap();
            proof {
                assert(pos < len && tiled_source(pos) < len);
                assert(tiled_len_from(len as int, pos) == tiled_len_from(len as int, pos + 1));
            }
            proof {
                lemma_tiled_source_nonneg(pos);
                lemma_tiled_prefix_push(out@, s, p);
            }
            out.push(p);
            assert(tiled_prefix(out@, s));
            assert(out@.len() == it.position());
            assert(tiled_len(len as int) == tiled_len_from(len as int, it.position()));
        }
        out
    }

    fn tile_chunked(self) -> (r: Vec<[u8; 64]>) {
        let len = self.len();
        let n = len / 64;
        let mut out: Vec<[u8; 64]> = Vec::new();
        let mut k: usize = 0;
        while k < n
            invariant
                n == self@.len() / 64,
                len == self@.len(),
                self@.len() % 64 == 0,
                k <= n,
                out@.len() == k,
                forall|j: int| 0 <= j < k ==> #[trigger] out@[j]@ == chunk_of(self@, j),
            decreases n - k,
        {
            let mut chunk = [0u8; 64];
            let mut j: usize = 0;
            while j < 64
                invariant
                    k < n,
                    n == self@.len() / 64,
                    len == self@.len(),
                    j <= 64,
                    chunk@.len() == 64,
                    forall|t: int| 0 <= t < j ==> chunk@[t] == self@[64 * k + t],
                decreases 64 - j,
            {
                assert(64 * k + j < self@.len()) by (nonlinear_arith)
                    requires
                        k < n,
                        n == self@.len() / 64,
                        j < 64,
                ;
                let idx = 64 * k + j;
                chunk[j] = self[idx];
                j += 1;
            }
            assert(chunk@ =~= chunk_of(self@, k as int));
            out.push(chunk);
            k += 1;
        }
        out
    }
}

/// Tile order never yields more pixels than the image has.
pub proof fn lemma_tiled_len_bounds(len: int)
    ensures
        0 <= tiled_len(len),
        len >= 0 ==> tiled_len(len) <= len,
{
    if len > 0 {
        lemma_tiled_len_from_bounds(len, 0);
    }
}

proof fn lemma_tiled_len_from_bounds(len: int, i: int)
    requires
        0 <= i <= len,
    ensures
        i <= tiled_len_from(len, i) <= len,
    decreases len - i,
{
    if i < len && tiled_source(i) < len {
        lemma_tiled_len_from_bounds(len, i + 1);
    }
}

/// Within one band of 8 image rows (2048 pixels), tile order is a bijection.
proof fn lemma_band(r: u32)
    requires
        r < 2048,
    ensures
        ((r % 64) / 8) * 256 + (r / 64) * 8 + r % 8 < 2048,
        ({
            let f = ((r % 64) / 8) * 256 + (r / 64) * 8 + r % 8;
            ((f % 256) / 8) * 64 + (f / 256) * 8 + f % 8 == r
        }),
{
    assert(((r % 64) / 8) * 256 + (r / 64) * 8 + r % 8 < 2048) by (bit_vector)
        requires
            r < 2048,
    ;
    assert(({
        let f = ((r % 64) / 8) * 256 + (r / 64) * 8 + r % 8;
        ((f % 256) / 8) * 64 + (f / 256) * 8 + f % 8 == r
    })) by (bit_vector)
        requires
            r < 2048,
    ;
}

proof fn lemma_tiled_source_band(i: int)
    requires
        i >= 0,
    ensures
        i % 2048 < 2048,
        tiled_source(i) == 2048 * (i / 2048) + ((i % 2048 % 64) / 8) * 256 + (i % 2048 / 64) * 8 + (
        i % 2048) % 8,
{
    reveal(tiled_source);
    let q = i / 2048;
    let r = i % 2048;
    assert(i == 2048 * q + r);
    assert(i / 64 == 32 * q + r / 64);
    assert((i / 64) % 32 == r / 64);
    assert((i / 64) / 32 == q);
    assert(i % 64 == r % 64);
}

proof fn lemma_tiled_len_full(len: int, i: int)
    requires
        0 <= i <= len,
        forall|k: int| 0 <= k < len ==> #[trigger] tiled_source(k) < len,
    ensures
        tiled_len_from(len, i) == len,
    decreases len - i,
{
    if i < len {
        lemma_tiled_len_full(len, i + 1);
    }
}

/// For an image 256 pixels wide whose height is a multiple of 8, tile order visits every
/// pixel exactly once: it yields as many pixels as the image has, each from inside the image,
/// and no two positions share a source.
pub proof fn lemma_tiled_permutation(len: int)
    requires
        len >= 0,
        len % 2048 == 0,
    ensures
        tiled_len(len) == len,
        forall|i: int| 0 <= i < len ==> 0 <= #[trigger] tiled_source(i) < len,
        forall|i: int, j: int|
            0 <= i < len && 0 <= j < len && i != j ==> #[trigger] tiled_source(i) != #[trigger] tiled_source(j),
{
    assert forall|i: int| 0 <= i < len implies 0 <= #[trigger] tiled_source(i) < len by {
        lemma_tiled_source_band(i);
        lemma_band((i % 2048) as u32);
        assert(i / 2048 < len / 2048) by (nonlinear_arith)
            requires
                0 <= i < len,
                len % 2048 == 0,
        ;
    }
    lemma_tiled_len_full(len, 0);
    assert forall|i: int, j: int|
        0 <= i < len && 0 <= j < len && i != j implies #[trigger] tiled_source(i) != #[trigger] tiled_source(j) by {
        lemma_tiled_source_band(i);
        lemma_tiled_source_band(j);
        lemma_band((i % 2048) as u32);
        lemma_band((j % 2048) as u32);
        if tiled_source(i) == tiled_source(j) {
            let fi = ((i % 2048 % 64) / 8) * 256 + (i % 2048 / 64) * 8 + (i % 2048) % 8;
            let fj = ((j % 2048 % 64) / 8) * 256 + (j % 2048 / 64) * 8 + (j % 2048) % 8;
            assert(i / 2048 == j / 2048);
            assert(fi == fj);
            assert(i % 2048 == j % 2048);
        }
    }
}

} // verus!
