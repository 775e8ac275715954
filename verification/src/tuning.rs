//! Access to the tuning data.
//!
//! The LSC gain grids are a flat blob of single-precision numbers, little-endian,
//! laid out `[ls][ch][gh][gw]`, values already gain (raw / scale). Bayer channel
//! order is Gr, R, B, Gb. Grids are handed out as bit patterns, one `u32` per
//! number.

use vstd::prelude::*;

verus! {

/// Rows of an LSC gain grid.
pub const LSC_GH: usize = 47;

/// Columns of an LSC gain grid.
pub const LSC_GW: usize = 63;

/// Cells of an LSC gain grid.
pub const LSC_CELLS: usize = LSC_GH * LSC_GW;

/// Bayer channels per light source.
pub const LSC_NCH: usize = 4;

/// Calibrated light sources.
pub const LSC_NLS: usize = 5;

/// Bytes of the whole LSC blob.
pub const LSC_BYTES: usize = LSC_NLS * LSC_NCH * LSC_CELLS * 4;

/// The `k`-th number of a blob, as its bit pattern.
pub open spec fn word_at(blob: Seq<u8>, k: int) -> int {
    blob[4 * k] + 0x100 * blob[4 * k + 1] + 0x1_0000 * blob[4 * k + 2] + 0x100_0000 * blob[4 * k + 3]
}

/// `words` are the `count` numbers of `blob` from number `first` on.
pub open spec fn is_words(blob: Seq<u8>, first: int, count: int, words: Seq<u32>) -> bool {
    &&& words.len() == count
    &&& forall|k: int| 0 <= k < count ==> #[trigger] words[k] == word_at(blob, first + k)
}

/// Read `count` numbers of `blob`, from number `first` on.
pub fn words(blob: &[u8], first: usize, count: usize) -> (out: Vec<u32>)
    requires
        4 * (first + count) <= blob.len(),
    ensures
        is_words(blob@, first as int, count as int, out@),
{
    let mut out: Vec<u32> = Vec::with_capacity(count);
    let mut k: usize = 0;
    while k < count
        invariant
            k <= count,
            4 * (first + count) <= blob.len(),
            is_words(blob@, first as int, k as int, out@),
        decreases count - k,
    {
        let i: usize = 4 * (first + k);
        let word: u32 = blob[i] as u32 + 0x100 * blob[i + 1] as u32 + 0x1_0000 * blob[i + 2] as u32
            + 0x100_0000 * blob[i + 3] as u32;
        out.push(word);
        k += 1;
    }
    out
}

/// Number of the first cell of the grid for light source `ls`, channel `ch`.
pub open spec fn lsc_first(ls: int, ch: int) -> int {
    (ls * LSC_NCH + ch) * LSC_CELLS
}

/// The `gh*gw` gain grid for light source `ls`, Bayer channel `ch` (0=Gr, 1=R,
/// 2=B, 3=Gb), row-major.
pub fn lsc_grid(blob: &[u8], ls: usize, ch: usize) -> (grid: Vec<u32>)
    requires
        blob.len() >= LSC_BYTES,
        ls < LSC_NLS,
        ch < LSC_NCH,
    ensures
        is_words(blob@, lsc_first(ls as int, ch as int), LSC_CELLS as int, grid@),
{
    words(blob, (ls * LSC_NCH + ch) * LSC_CELLS, LSC_CELLS)
}

/// The `cells` numbers of lateral-chromatic-aberration shift grid `k` (0=blue_x,
/// 1=blue_y, 2=red_x, 3=red_y); the four grids follow each other in the blob.
pub fn lca_grid(blob: &[u8], cells: usize, k: usize) -> (grid: Vec<u32>)
    requires
        k < 4,
        16 * cells <= blob.len(),
    ensures
        is_words(blob@, k * cells, cells as int, grid@),
{
    proof {
        assert(k * cells + cells <= 4 * cells) by (nonlinear_arith)
            requires
                k < 4,
        ;
    }
    words(blob, k * cells, cells)
}

} // verus!
