//! The GRBG mosaic: sites, half-resolution planes and the unpacking that fills
//! them straight from a capture buffer.

use vstd::prelude::*;

use crate::raw::{blc_at, blc_sample, is_blc_frame, RawFrame, H, RAW_BYTES, W};
use crate::rows::{at, grid, lemma_cell, lemma_grids_equal};

verus! {

/// The colour filter over a sensor position: `(even,even)=Gr`, `(even,odd)=R`,
/// `(odd,even)=B`, `(odd,odd)=Gb`.
#[derive(Debug, Clone, Copy, PartialEq, Eq, Structural)]
pub enum Site {
    Gr,
    R,
    B,
    Gb,
}

/// The filter over row `y`, column `x`.
pub open spec fn site_at(y: int, x: int) -> Site {
    if y % 2 == 0 {
        if x % 2 == 0 {
            Site::Gr
        } else {
            Site::R
        }
    } else {
        if x % 2 == 0 {
            Site::B
        } else {
            Site::Gb
        }
    }
}

/// The filter over row `y`, column `x`.
pub fn site(y: usize, x: usize) -> (s: Site)
    ensures
        s == site_at(y as int, x as int),
{
    if y % 2 == 0 {
        if x % 2 == 0 {
            Site::Gr
        } else {
            Site::R
        }
    } else {
        if x % 2 == 0 {
            Site::B
        } else {
            Site::Gb
        }
    }
}

/// Half-resolution Bayer channel planes (GRBG). Each is `hh*ww`, row-major.
#[derive(Debug, Clone, PartialEq, Eq)]
pub struct Planes<T> {
    pub hh: usize,
    pub ww: usize,
    pub gr: Vec<T>,
    pub r: Vec<T>,
    pub b: Vec<T>,
    pub gb: Vec<T>,
}

impl<T> Planes<T> {
    /// All four planes fill the stated geometry.
    pub open spec fn wf(&self) -> bool {
        &&& self.gr.len() == self.hh * self.ww
        &&& self.r.len() == self.hh * self.ww
        &&& self.b.len() == self.hh * self.ww
        &&& self.gb.len() == self.hh * self.ww
    }

    /// The plane behind one filter.
    pub open spec fn plane(&self, s: Site) -> Seq<T> {
        match s {
            Site::Gr => self.gr@,
            Site::R => self.r@,
            Site::B => self.b@,
            Site::Gb => self.gb@,
        }
    }

    /// The sample behind filter `s` in tile row `y`, tile column `x`.
    pub open spec fn tile(&self, s: Site, y: int, x: int) -> T {
        at(self.plane(s), self.ww as int, y, x)
    }
}

/// Row of a filter inside its 2x2 tile.
pub open spec fn site_row(s: Site) -> int {
    match s {
        Site::Gr | Site::R => 0,
        Site::B | Site::Gb => 1,
    }
}

/// Column of a filter inside its 2x2 tile.
pub open spec fn site_col(s: Site) -> int {
    match s {
        Site::Gr | Site::B => 0,
        Site::R | Site::Gb => 1,
    }
}

/// `p` is the mosaic of `raw` taken apart: tile `(y, x)` of the plane behind a
/// filter holds the sample of that filter in the 2x2 tile at `(2y, 2x)`.
pub open spec fn is_split<T>(raw: RawFrame<T>, p: Planes<T>) -> bool {
    &&& p.hh == raw.h / 2
    &&& p.ww == raw.w / 2
    &&& p.wf()
    &&& forall|s: Site, y: int, x: int|
        0 <= y < p.hh && 0 <= x < p.ww ==> #[trigger] p.tile(s, y, x) == raw.sample(
            2 * y + site_row(s),
            2 * x + site_col(s),
        )
}

/// One plane of a frame: every second sample of every second row, from
/// `(dy, dx)` on.
fn subsample<T: Copy + Send + Sync>(raw: &RawFrame<T>, dy: usize, dx: usize) -> (plane: Vec<T>)
    requires
        raw.wf(),
        dy <= 1,
        dx <= 1,
    ensures
        plane.len() == (raw.h / 2) * (raw.w / 2),
        forall|y: int, x: int|
            0 <= y < raw.h / 2 && 0 <= x < raw.w / 2 ==> #[trigger] at(
                plane@,
                (raw.w / 2) as int,
                y,
                x,
            ) == raw.sample(2 * y + dy, 2 * x + dx),
{
    let (hh, ww): (usize, usize) = (raw.h / 2, raw.w / 2);
    proof {
        assert(hh * ww <= raw.h * raw.w) by (nonlinear_arith)
            requires
                hh <= raw.h,
                ww <= raw.w,
        ;
    }
    let cell = |y: usize, x: usize| -> (t: T)
        requires
            y < raw.h / 2,
            x < raw.w / 2,
        ensures
            t == raw.sample(2 * y + dy, 2 * x + dx),
        {
            proof {
                lemma_cell(raw.h as int, raw.w as int, 2 * y + dy, 2 * x + dx);
            }
            raw.data[(2 * y + dy) * raw.w + 2 * x + dx]
        };
    let plane: Vec<T> = grid(hh, ww, &cell);
    assert forall|y: int, x: int| 0 <= y < hh && 0 <= x < ww implies #[trigger] at(
        plane@,
        ww as int,
        y,
        x,
    ) == raw.sample(2 * y + dy, 2 * x + dx) by {
        assert(call_ensures(cell, (y as usize, x as usize), at(plane@, ww as int, y, x)));
    }
    plane
}

/// Split a black-level-corrected frame into half-res GRBG planes.
pub fn bayer_planes<T: Copy + Send + Sync>(raw: &RawFrame<T>) -> (p: Planes<T>)
    requires
        raw.wf(),
    ensures
        is_split(*raw, p),
{
    Planes {
        hh: raw.h / 2,
        ww: raw.w / 2,
        gr: subsample(raw, 0, 0),
        r: subsample(raw, 0, 1),
        b: subsample(raw, 1, 0),
        gb: subsample(raw, 1, 1),
    }
}

/// `p` holds the half-res planes of a capture buffer after black level.
pub open spec fn is_blc_split(bytes: Seq<u8>, p: Planes<u16>) -> bool {
    &&& p.hh == H / 2
    &&& p.ww == W / 2
    &&& p.wf()
    &&& forall|s: Site, y: int, x: int|
        0 <= y < p.hh && 0 <= x < p.ww ==> #[trigger] p.tile(s, y, x) == blc_at(
            bytes,
            2 * y + site_row(s),
            2 * x + site_col(s),
        )
}

/// One plane straight from the capture bytes.
fn unpack_plane(bytes: &[u8], dy: usize, dx: usize) -> (plane: Vec<u16>)
    requires
        bytes.len() >= RAW_BYTES,
        dy <= 1,
        dx <= 1,
    ensures
        plane.len() == (H / 2) * (W / 2),
        forall|y: int, x: int|
            0 <= y < H / 2 && 0 <= x < W / 2 ==> #[trigger] at(plane@, (W / 2) as int, y, x)
                == blc_at(bytes@, 2 * y + dy, 2 * x + dx),
{
    let cell = |y: usize, x: usize| -> (v: u16)
        requires
            y < H / 2,
            x < W / 2,
        ensures
            v == blc_at(bytes@, 2 * y + dy, 2 * x + dx),
        { blc_sample(bytes, 2 * y + dy, 2 * x + dx) };
    let plane: Vec<u16> = grid(H / 2, W / 2, &cell);
    assert forall|y: int, x: int| 0 <= y < H / 2 && 0 <= x < W / 2 implies #[trigger] at(
        plane@,
        (W / 2) as int,
        y,
        x,
    ) == blc_at(bytes@, 2 * y + dy, 2 * x + dx) by {
        assert(call_ensures(cell, (y as usize, x as usize), at(plane@, (W / 2) as int, y, x)));
    }
    plane
}

/// Fused raw unpack + black level + GRBG split, straight from the capture bytes
/// into the four half-res planes, row-parallel, with no intermediate full-res
/// frame and no second pass. [`law_fused_split_is_split_of_frame`] relates it to
/// [`bayer_planes`].
pub fn fill_planes_blc_from_bytes(bytes: &[u8]) -> (p: Planes<u16>)
    requires
        bytes.len() >= RAW_BYTES,
    ensures
        is_blc_split(bytes@, p),
{
    Planes {
        hh: H / 2,
        ww: W / 2,
        gr: unpack_plane(bytes, 0, 0),
        r: unpack_plane(bytes, 0, 1),
        b: unpack_plane(bytes, 1, 0),
        gb: unpack_plane(bytes, 1, 1),
    }
}

/// Filling the planes straight from a capture buffer gives the planes that
/// splitting the unpacked frame gives, sample for sample.
pub proof fn law_fused_split_is_split_of_frame(
    bytes: Seq<u8>,
    frame: RawFrame<u16>,
    split: Planes<u16>,
    fused: Planes<u16>,
)
    requires
        bytes.len() >= RAW_BYTES,
        is_blc_frame(bytes, frame),
        is_split(frame, split),
        is_blc_split(bytes, fused),
    ensures
        split.hh == fused.hh,
        split.ww == fused.ww,
        forall|s: Site| #[trigger] split.plane(s) == fused.plane(s),
{
    assert forall|s: Site| #[trigger] split.plane(s) == fused.plane(s) by {
        assert forall|y: int, x: int| 0 <= y < H / 2 && 0 <= x < W / 2 implies #[trigger] at(
            split.plane(s),
            (W / 2) as int,
            y,
            x,
        ) == at(fused.plane(s), (W / 2) as int, y, x) by {
            assert(split.tile(s, y, x) == frame.sample(2 * y + site_row(s), 2 * x + site_col(s)));
            assert(fused.tile(s, y, x) == blc_at(bytes, 2 * y + site_row(s), 2 * x + site_col(s)));
        }
        lemma_grids_equal(split.plane(s), fused.plane(s), (H / 2) as int, (W / 2) as int);
    }
}

/// Every sample of a frame whose sides are even lands in exactly one plane: the
/// one behind its filter, in the tile that covers it.
pub proof fn law_split_loses_nothing<T>(raw: RawFrame<T>, p: Planes<T>, y: int, x: int)
    requires
        raw.wf(),
        raw.w % 2 == 0,
        raw.h % 2 == 0,
        is_split(raw, p),
        0 <= y < raw.h,
        0 <= x < raw.w,
    ensures
        p.tile(site_at(y, x), y / 2, x / 2) == raw.sample(y, x),
{
}

/// The top-left tile of a mosaic is green and red over blue and green, and so is every
/// other: the planes hold the four samples of each.
pub proof fn law_tiles_are_green_red_blue_green<T>(raw: RawFrame<T>, p: Planes<T>, y: int, x: int)
    requires
        raw.wf(),
        is_split(raw, p),
        0 <= y < raw.h / 2,
        0 <= x < raw.w / 2,
    ensures
        ({
            let i = y * (raw.w as int / 2) + x;
            &&& p.gr@[i] == raw.data@[2 * y * raw.w + 2 * x]
            &&& p.r@[i] == raw.data@[2 * y * raw.w + 2 * x + 1]
            &&& p.b@[i] == raw.data@[(2 * y + 1) * raw.w + 2 * x]
            &&& p.gb@[i] == raw.data@[(2 * y + 1) * raw.w + 2 * x + 1]
        }),
{
    assert(p.tile(Site::Gr, y, x) == raw.sample(2 * y, 2 * x));
    assert(p.tile(Site::R, y, x) == raw.sample(2 * y, 2 * x + 1));
    assert(p.tile(Site::B, y, x) == raw.sample(2 * y + 1, 2 * x));
    assert(p.tile(Site::Gb, y, x) == raw.sample(2 * y + 1, 2 * x + 1));
}

} // verus!
