//! Rendering: from shaded samples to interleaved RGB bytes.
//!
//! What stands here is which samples, gains and positions each output pixel is made
//! from; the arithmetic on them is the [`Kernels`]'s.

use vstd::prelude::*;

use crate::pipeline::bayer::{Planes, Site};
use crate::pipeline::colour::{coloured, is_coloured};
use crate::pipeline::kernels::Kernels;
use crate::pipeline::lca::Lca;
use crate::pipeline::mhc::{clamped, is_mhc, is_planar, mhc_rgb, Planar};
use crate::pipeline::scene::Look;
use crate::pipeline::shading::{following, quad, quad_at, Grids, Quad};
use crate::rows::{at, grid, lemma_cell};

verus! {

/// One output pixel.
#[derive(Debug, Clone, Copy, PartialEq, Eq, Structural)]
pub struct Rgb8 {
    pub r: u8,
    pub g: u8,
    pub b: u8,
}

/// One value per filter of a 2x2 tile.
#[derive(Debug, Clone, Copy, PartialEq, Eq)]
pub struct Tile<T> {
    pub gr: T,
    pub r: T,
    pub b: T,
    pub gb: T,
}

/// The pixel in row `y`, column `x` of an interleaved RGB buffer of width `w`.
pub open spec fn pixel(rgb: Seq<u8>, w: int, y: int, x: int) -> Rgb8 {
    Rgb8 { r: rgb[3 * (y * w + x)], g: rgb[3 * (y * w + x) + 1], b: rgb[3 * (y * w + x) + 2] }
}

/// Lay pixels out as interleaved bytes.
fn interleave(px: &[Rgb8]) -> (rgb: Vec<u8>)
    requires
        3 * px.len() <= usize::MAX,
    ensures
        rgb.len() == 3 * px.len(),
        forall|i: int|
            #![trigger px@[i]]
            0 <= i < px.len() ==> rgb[3 * i] == px[i].r && rgb[3 * i + 1] == px[i].g && rgb[3 * i + 2]
                == px[i].b,
{
    let mut rgb: Vec<u8> = Vec::with_capacity(3 * px.len());
    let mut i: usize = 0;
    while i < px.len()
        invariant
            i <= px.len(),
            3 * px.len() <= usize::MAX,
            rgb.len() == 3 * i,
            forall|k: int|
                #![trigger px@[k]]
                0 <= k < i ==> rgb[3 * k] == px[k].r && rgb[3 * k + 1] == px[k].g && rgb[3 * k + 2]
                    == px[k].b,
        decreases px.len() - i,
    {
        rgb.push(px[i].r);
        rgb.push(px[i].g);
        rgb.push(px[i].b);
        i += 1;
    }
    rgb
}

/// Evaluate `f` for every pixel of an `h` by `w` image, row-parallel, into an
/// interleaved RGB buffer.
fn image<F: Fn(usize, usize) -> Rgb8 + Sync>(h: usize, w: usize, f: &F) -> (rgb: Vec<u8>)
    requires
        3 * (h * w) <= usize::MAX,
        forall|y: usize, x: usize| y < h && x < w ==> #[trigger] call_requires(*f, (y, x)),
    ensures
        rgb.len() == 3 * (h * w),
        forall|y: int, x: int|
            0 <= y < h && 0 <= x < w ==> call_ensures(
                *f,
                (y as usize, x as usize),
                #[trigger] pixel(rgb@, w as int, y, x),
            ),
{
    let px: Vec<Rgb8> = grid(h, w, f);
    let rgb: Vec<u8> = interleave(&px);
    assert forall|y: int, x: int| 0 <= y < h && 0 <= x < w implies call_ensures(
        *f,
        (y as usize, x as usize),
        #[trigger] pixel(rgb@, w as int, y, x),
    ) by {
        lemma_cell(h as int, w as int, y, x);
        assert(px@[y * w + x] == at(px@, w as int, y, x));
        assert(pixel(rgb@, w as int, y, x) == at(px@, w as int, y, x));
    }
    rgb
}

/// The four samples of tile `(y, x)`.
pub open spec fn samples_at(p: Planes<u16>, y: int, x: int) -> Tile<u16> {
    Tile {
        gr: p.tile(Site::Gr, y, x),
        r: p.tile(Site::R, y, x),
        b: p.tile(Site::B, y, x),
        gb: p.tile(Site::Gb, y, x),
    }
}

/// The four shading gains of tile `(y, x)`.
pub open spec fn gains_at<G>(g: Grids<G>, y: int, x: int) -> Tile<G> {
    Tile {
        gr: g.gain(Site::Gr, y, x),
        r: g.gain(Site::R, y, x),
        b: g.gain(Site::B, y, x),
        gb: g.gain(Site::Gb, y, x),
    }
}

/// `px` is the colour of a tile's samples and shading gains.
pub open spec fn is_half_pixel<K: Kernels>(
    k: K,
    look: Look<K::S, K::D>,
    t: Tile<u16>,
    g: Tile<K::G>,
    px: Rgb8,
) -> bool {
    exists|lin: K::P, out: K::P|
        {
            &&& #[trigger] call_ensures(<K as Kernels>::tile, (&k, &look.est.gains, t, g), lin)
            &&& #[trigger] is_coloured(k, look, lin, out)
            &&& call_ensures(<K as Kernels>::encode, (&k, out), px)
        }
}

/// One pixel of the half-resolution render.
fn half_pixel<K: Kernels>(look: &Look<K::S, K::D>, t: Tile<u16>, g: Tile<K::G>, k: &K) -> (px: Rgb8)
    requires
        look.wf(),
    ensures
        is_half_pixel(*k, *look, t, g, px),
{
    let lin: K::P = k.tile(&look.est.gains, t, g);
    let out: K::P = coloured(lin, look, k);
    k.encode(out)
}

/// `rgb` is the half-resolution render: each pixel is the colour of the samples
/// and the shading gains of its 2x2 tile.
pub open spec fn is_half_render<K: Kernels>(
    k: K,
    look: Look<K::S, K::D>,
    p: Planes<u16>,
    grids: Grids<K::G>,
    rgb: Seq<u8>,
) -> bool {
    &&& rgb.len() == 3 * (p.hh * p.ww)
    &&& forall|y: int, x: int|
        0 <= y < p.hh && 0 <= x < p.ww ==> is_half_pixel(
            k,
            look,
            samples_at(p, y, x),
            gains_at(grids, y, x),
            #[trigger] pixel(rgb, p.ww as int, y, x),
        )
}

/// Core half-res render using pre-resized grids: each 2x2 tile becomes one pixel.
pub fn render_half<K: Kernels>(
    p: &Planes<u16>,
    grids: &Grids<K::G>,
    look: &Look<K::S, K::D>,
    k: &K,
) -> (rgb: Vec<u8>)
    requires
        look.wf(),
        p.wf(),
        grids.wf(),
        grids.hh == p.hh,
        grids.ww == p.ww,
        3 * (p.hh * p.ww) <= usize::MAX,
    ensures
        is_half_render(*k, *look, *p, *grids, rgb@),
{
    let cell = |y: usize, x: usize| -> (px: Rgb8)
        requires
            y < p.hh,
            x < p.ww,
        ensures
            is_half_pixel(
                *k,
                *look,
                samples_at(*p, y as int, x as int),
                gains_at(*grids, y as int, x as int),
                px,
            ),
        {
            proof {
                lemma_cell(p.hh as int, p.ww as int, y as int, x as int);
            }
            let i: usize = y * p.ww + x;
            half_pixel(
                look,
                Tile { gr: p.gr[i], r: p.r[i], b: p.b[i], gb: p.gb[i] },
                Tile { gr: grids.g_gr[i], r: grids.g_r[i], b: grids.g_b[i], gb: grids.g_gb[i] },
                k,
            )
        };
    let rgb: Vec<u8> = image(p.hh, p.ww, &cell);
    assert forall|y: int, x: int| 0 <= y < p.hh && 0 <= x < p.ww implies is_half_pixel(
        *k,
        *look,
        samples_at(*p, y, x),
        gains_at(*grids, y, x),
        #[trigger] pixel(rgb@, p.ww as int, y, x),
    ) by {
        assert(call_ensures(cell, (y as usize, x as usize), pixel(rgb@, p.ww as int, y, x)));
    }
    rgb
}

/// `px` is the colour of a debayered triple.
pub open spec fn is_full_pixel<K: Kernels>(
    k: K,
    look: Look<K::S, K::D>,
    r: K::S,
    g: K::S,
    b: K::S,
    px: Rgb8,
) -> bool {
    exists|lin: K::P, out: K::P|
        {
            &&& #[trigger] call_ensures(<K as Kernels>::linear, (&k, r, g, b), lin)
            &&& #[trigger] is_coloured(k, look, lin, out)
            &&& call_ensures(<K as Kernels>::encode_fast, (&k, out), px)
        }
}

/// One pixel of the full-resolution render.
fn full_pixel<K: Kernels>(look: &Look<K::S, K::D>, r: K::S, g: K::S, b: K::S, k: &K) -> (px: Rgb8)
    requires
        look.wf(),
    ensures
        is_full_pixel(*k, *look, r, g, b, px),
{
    let lin: K::P = k.linear(r, g, b);
    let out: K::P = coloured(lin, look, k);
    k.encode_fast(out)
}

/// `px` is the colour of the debayered triple at `(y, x)`.
pub open spec fn is_mhc_pixel<K: Kernels>(
    k: K,
    look: Look<K::S, K::D>,
    cfa: Seq<K::S>,
    w: int,
    h: int,
    y: int,
    x: int,
    px: Rgb8,
) -> bool {
    exists|rgb: (K::S, K::S, K::S)|
        is_mhc::<K::S, K::S, K>(k, cfa, w, h, y, x, rgb) && #[trigger] is_full_pixel(
            k,
            look,
            rgb.0,
            rgb.1,
            rgb.2,
            px,
        )
}

/// `rgb` is the full-resolution render without aberration correction.
pub open spec fn is_mhc_render<K: Kernels>(
    k: K,
    look: Look<K::S, K::D>,
    cfa: Seq<K::S>,
    w: int,
    h: int,
    rgb: Seq<u8>,
) -> bool {
    &&& rgb.len() == 3 * (h * w)
    &&& forall|y: int, x: int|
        0 <= y < h && 0 <= x < w ==> is_mhc_pixel(
            k,
            look,
            cfa,
            w,
            h,
            y,
            x,
            #[trigger] pixel(rgb, w, y, x),
        )
}

/// Fused full-res render: MHC debayer and colour straight from an
/// (LSC+WB-applied) CFA, row-parallel, with no planar intermediate. Interior
/// pixels take the unclamped fast path; the 2-pixel border the clamped one.
pub fn render_mhc_fused<K: Kernels>(
    cfa: &[K::S],
    w: usize,
    h: usize,
    look: &Look<K::S, K::D>,
    k: &K,
) -> (rgb: Vec<u8>)
    requires
        look.wf(),
        cfa.len() == h * w,
        3 * (h * w) <= usize::MAX,
    ensures
        is_mhc_render(*k, *look, cfa@, w as int, h as int, rgb@),
{
    let cell = |y: usize, x: usize| -> (px: Rgb8)
        requires
            y < h,
            x < w,
        ensures
            is_mhc_pixel(*k, *look, cfa@, w as int, h as int, y as int, x as int, px),
        {
            let rgb: (K::S, K::S, K::S) = mhc_rgb(cfa, w, h, y, x, k);
            full_pixel(look, rgb.0, rgb.1, rgb.2, k)
        };
    let rgb: Vec<u8> = image(h, w, &cell);
    assert forall|y: int, x: int| 0 <= y < h && 0 <= x < w implies is_mhc_pixel(
        *k,
        *look,
        cfa@,
        w as int,
        h as int,
        y,
        x,
        #[trigger] pixel(rgb@, w as int, y, x),
    ) by {
        assert(call_ensures(cell, (y as usize, x as usize), pixel(rgb@, w as int, y, x)));
    }
    rgb
}

/// A position on a plane: the sample above and left of it, and the weights of
/// the blend there. A row or column past the last one means the last one.
#[derive(Debug, Clone, Copy, PartialEq, Eq)]
pub struct Spot<Q> {
    pub y: usize,
    pub x: usize,
    pub weights: Q,
}

/// Where the red and the blue value of a pixel are to be sampled so that they
/// align with its green.
#[derive(Debug, Clone, Copy, PartialEq, Eq)]
pub struct Shift<Q> {
    pub red: Spot<Q>,
    pub blue: Spot<Q>,
}

/// `v` lies between the four samples around a position.
pub open spec fn is_sampled<K: Kernels>(
    k: K,
    plane: Seq<K::S>,
    w: int,
    h: int,
    spot: Spot<K::W>,
    v: K::S,
) -> bool {
    call_ensures(
        <K as Kernels>::resample,
        (
            &k,
            quad_at(plane, w, h, clamped(spot.y as int, h), clamped(spot.x as int, w)),
            spot.weights,
        ),
        v,
    )
}

/// The value of a plane at a position.
fn sample<K: Kernels>(plane: &[K::S], w: usize, h: usize, spot: Spot<K::W>, k: &K) -> (v: K::S)
    requires
        plane.len() == h * w,
        0 < h,
        0 < w,
    ensures
        is_sampled(*k, plane@, w as int, h as int, spot, v),
{
    let y: usize = if spot.y < h {
        spot.y
    } else {
        h - 1
    };
    let x: usize = if spot.x < w {
        spot.x
    } else {
        w - 1
    };
    k.resample(quad(plane, w, h, y, x), spot.weights)
}

/// `v` is the shift that a grid holds for a position on it.
pub open spec fn is_offset<K: Kernels>(
    k: K,
    grid: Seq<u32>,
    gw: int,
    gh: int,
    cell: Spot<K::W>,
    v: K::S,
) -> bool {
    call_ensures(
        <K as Kernels>::offset,
        (
            &k,
            quad_at(grid, gw, gh, clamped(cell.y as int, gh), clamped(cell.x as int, gw)),
            cell.weights,
        ),
        v,
    )
}

/// The shift that a grid holds for a position on it.
fn offset<K: Kernels>(grid: &[u32], gw: usize, gh: usize, cell: &Spot<K::W>, k: &K) -> (v: K::S)
    requires
        grid.len() == gh * gw,
        0 < gh,
        0 < gw,
    ensures
        is_offset(*k, grid@, gw as int, gh as int, *cell, v),
{
    let y: usize = if cell.y < gh {
        cell.y
    } else {
        gh - 1
    };
    let x: usize = if cell.x < gw {
        cell.x
    } else {
        gw - 1
    };
    k.offset(quad(grid, gw, gh, y, x), cell.weights)
}

/// `spot` is pixel `(y, x)` moved across by what the first grid holds for its
/// place, and down by what the second does.
pub open spec fn is_displaced<K: Kernels>(
    k: K,
    across: Seq<u32>,
    down: Seq<u32>,
    gw: int,
    gh: int,
    cell: Spot<K::W>,
    y: int,
    x: int,
    spot: Spot<K::W>,
) -> bool {
    exists|dx: K::S, dy: K::S|
        {
            &&& #[trigger] is_offset(k, across, gw, gh, cell, dx)
            &&& #[trigger] is_offset(k, down, gw, gh, cell, dy)
            &&& call_ensures(<K as Kernels>::displace, (&k, y as usize, x as usize, dx, dy), spot)
        }
}

/// `shift` is where the calibrated aberration puts red and blue of pixel `(y, x)`.
pub open spec fn is_shift<K: Kernels>(k: K, lca: Lca, y: int, x: int, shift: Shift<K::W>) -> bool {
    let (gw, gh) = (lca.gw as int, lca.gh as int);
    exists|cell: Spot<K::W>| #[trigger]
        call_ensures(<K as Kernels>::cell, (&k, y as usize, x as usize), cell) && is_displaced(
            k,
            lca.rx@,
            lca.ry@,
            gw,
            gh,
            cell,
            y,
            x,
            shift.red,
        ) && is_displaced(k, lca.bx@, lca.by@, gw, gh, cell, y, x, shift.blue)
}

/// Where the calibrated aberration puts red and blue of a pixel.
pub fn locate<K: Kernels>(lca: &Lca, y: usize, x: usize, k: &K) -> (shift: Shift<K::W>)
    requires
        lca.wf(),
    ensures
        is_shift(*k, *lca, y as int, x as int, shift),
{
    let (gw, gh): (usize, usize) = (lca.gw, lca.gh);
    let cell: Spot<K::W> = k.cell(y, x);
    let rx: K::S = offset(&lca.rx, gw, gh, &cell, k);
    let ry: K::S = offset(&lca.ry, gw, gh, &cell, k);
    let bx: K::S = offset(&lca.bx, gw, gh, &cell, k);
    let by: K::S = offset(&lca.by, gw, gh, &cell, k);
    Shift { red: k.displace(y, x, rx, ry), blue: k.displace(y, x, bx, by) }
}

/// `px` is the colour of pixel `(y, x)` with green taken in place and red and
/// blue resampled where they align with it.
pub open spec fn is_lca_pixel<K: Kernels>(
    k: K,
    look: Look<K::S, K::D>,
    lca: Lca,
    planar: Planar<K::S>,
    y: int,
    x: int,
    px: Rgb8,
) -> bool {
    let (w, h) = (planar.w as int, planar.h as int);
    exists|shift: Shift<K::W>, r: K::S, b: K::S|
        {
            &&& #[trigger] is_shift(k, lca, y, x, shift)
            &&& is_sampled(k, planar.r@, w, h, shift.red, r)
            &&& is_sampled(k, planar.b@, w, h, shift.blue, b)
            &&& #[trigger] is_full_pixel(k, look, r, at(planar.g@, w, y, x), b, px)
        }
}

/// `rgb` is the full-resolution render with aberration correction.
pub open spec fn is_lca_render<K: Kernels>(
    k: K,
    look: Look<K::S, K::D>,
    lca: Lca,
    planar: Planar<K::S>,
    rgb: Seq<u8>,
) -> bool {
    &&& rgb.len() == 3 * (planar.h * planar.w)
    &&& forall|y: int, x: int|
        0 <= y < planar.h && 0 <= x < planar.w ==> is_lca_pixel(
            k,
            look,
            lca,
            planar,
            y,
            x,
            #[trigger] pixel(rgb, planar.w as int, y, x),
        )
}

/// One pixel of the aberration-corrected render.
fn lca_pixel<K: Kernels>(
    planar: &Planar<K::S>,
    lca: &Lca,
    look: &Look<K::S, K::D>,
    k: &K,
    y: usize,
    x: usize,
) -> (px: Rgb8)
    requires
        look.wf(),
        lca.wf(),
        planar.wf(),
        y < planar.h,
        x < planar.w,
    ensures
        is_lca_pixel(*k, *look, *lca, *planar, y as int, x as int, px),
{
    let (w, h): (usize, usize) = (planar.w, planar.h);
    proof {
        lemma_cell(h as int, w as int, y as int, x as int);
    }
    let g: K::S = planar.g[y * w + x];
    assert(g == at(planar.g@, w as int, y as int, x as int));
    let shift: Shift<K::W> = locate(lca, y, x, k);
    let r: K::S = sample(&planar.r, w, h, shift.red, k);
    let b: K::S = sample(&planar.b, w, h, shift.blue, k);
    full_pixel(look, r, g, b, k)
}

/// Second stage of the full-res render: per output pixel, take green from the
/// planar buffer, resample red and blue at their green-aligned positions, then
/// colour. The lens shifts red and blue sub-pixel relative to green; resampling
/// needs the demosaiced neighbours, hence the planar intermediate.
pub fn render_lca_color<K: Kernels>(
    planar: &Planar<K::S>,
    lca: &Lca,
    look: &Look<K::S, K::D>,
    k: &K,
) -> (rgb: Vec<u8>)
    requires
        look.wf(),
        lca.wf(),
        planar.wf(),
        3 * (planar.h * planar.w) <= usize::MAX,
    ensures
        is_lca_render(*k, *look, *lca, *planar, rgb@),
{
    let cell = |y: usize, x: usize| -> (px: Rgb8)
        requires
            y < planar.h,
            x < planar.w,
        ensures
            is_lca_pixel(*k, *look, *lca, *planar, y as int, x as int, px),
        { lca_pixel(planar, lca, look, k, y, x) };
    let rgb: Vec<u8> = image(planar.h, planar.w, &cell);
    assert forall|y: int, x: int| 0 <= y < planar.h && 0 <= x < planar.w implies is_lca_pixel(
        *k,
        *look,
        *lca,
        *planar,
        y,
        x,
        #[trigger] pixel(rgb@, planar.w as int, y, x),
    ) by {
        assert(call_ensures(cell, (y as usize, x as usize), pixel(rgb@, planar.w as int, y, x)));
    }
    rgb
}

/// Resampling with these weights gives the sample at the position itself.
pub open spec fn stays<K: Kernels>(k: K, weights: K::W) -> bool {
    forall|q: Quad<K::S>, v: K::S| #[trigger]
        call_ensures(<K as Kernels>::resample, (&k, q, weights), v) ==> v == q.p00
}

/// Aberration grids of zeros change nothing: a render with them is a render without
/// aberration correction. This is of arithmetic for which the shift between four
/// zeros is zero, a pixel moved by nothing lies where it was, and resampling there
/// gives the sample.
pub proof fn law_zero_shift_changes_nothing<K: Kernels>(
    k: K,
    look: Look<K::S, K::D>,
    lca: Lca,
    zero: K::S,
    cfa: Seq<K::S>,
    w: int,
    h: int,
    planar: Planar<K::S>,
    rgb: Seq<u8>,
)
    requires
        lca.wf(),
        forall|i: int| 0 <= i < lca.rx.len() ==> #[trigger] lca.rx@[i] == 0,
        forall|i: int| 0 <= i < lca.ry.len() ==> #[trigger] lca.ry@[i] == 0,
        forall|i: int| 0 <= i < lca.bx.len() ==> #[trigger] lca.bx@[i] == 0,
        forall|i: int| 0 <= i < lca.by.len() ==> #[trigger] lca.by@[i] == 0,
        forall|weights: K::W, v: K::S| #[trigger]
            call_ensures(<K as Kernels>::offset, (&k, zeros(), weights), v) ==> v == zero,
        forall|y: usize, x: usize, spot: Spot<K::W>| #[trigger]
            call_ensures(<K as Kernels>::displace, (&k, y, x, zero, zero), spot) && y < h && x < w
                ==> spot.y == y && spot.x == x && stays(k, spot.weights),
        is_planar::<K::S, K::S, K>(k, cfa, w, h, planar),
        is_lca_render(k, look, lca, planar, rgb),
    ensures
        is_mhc_render(k, look, cfa, w, h, rgb),
{
    assert forall|y: int, x: int| 0 <= y < h && 0 <= x < w implies is_mhc_pixel(
        k,
        look,
        cfa,
        w,
        h,
        y,
        x,
        #[trigger] pixel(rgb, w, y, x),
    ) by {
        let px = pixel(rgb, planar.w as int, y, x);
        assert(is_lca_pixel(k, look, lca, planar, y, x, px));
        let (shift, r, b) = choose|shift: Shift<K::W>, r: K::S, b: K::S|
            {
                &&& #[trigger] is_shift(k, lca, y, x, shift)
                &&& is_sampled(k, planar.r@, w, h, shift.red, r)
                &&& is_sampled(k, planar.b@, w, h, shift.blue, b)
                &&& #[trigger] is_full_pixel(k, look, r, at(planar.g@, w, y, x), b, px)
            };
        let (gw, gh) = (lca.gw as int, lca.gh as int);
        let cell = choose|cell: Spot<K::W>| #[trigger]
            call_ensures(<K as Kernels>::cell, (&k, y as usize, x as usize), cell) && is_displaced(
                k,
                lca.rx@,
                lca.ry@,
                gw,
                gh,
                cell,
                y,
                x,
                shift.red,
            ) && is_displaced(k, lca.bx@, lca.by@, gw, gh, cell, y, x, shift.blue);
        lemma_zero_displacement(k, lca.rx@, lca.ry@, gw, gh, cell, zero, y, x, shift.red);
        lemma_zero_displacement(k, lca.bx@, lca.by@, gw, gh, cell, zero, y, x, shift.blue);
        assert(shift.red.y == y && shift.red.x == x && stays(k, shift.red.weights));
        assert(shift.blue.y == y && shift.blue.x == x && stays(k, shift.blue.weights));
        assert(r == at(planar.r@, w, y, x));
        assert(b == at(planar.b@, w, y, x));
        let triple = planar.rgb(y, x);
        assert(is_mhc::<K::S, K::S, K>(k, cfa, w, h, y, x, triple));
        assert(is_full_pixel(k, look, triple.0, triple.1, triple.2, px));
    }
}

/// Four zeros.
pub open spec fn zeros() -> Quad<u32> {
    Quad { p00: 0, p01: 0, p10: 0, p11: 0 }
}

/// Grids of zeros displace by zero.
proof fn lemma_zero_displacement<K: Kernels>(
    k: K,
    across: Seq<u32>,
    down: Seq<u32>,
    gw: int,
    gh: int,
    cell: Spot<K::W>,
    zero: K::S,
    y: int,
    x: int,
    spot: Spot<K::W>,
)
    requires
        1 <= gw,
        1 <= gh,
        across.len() == gh * gw,
        down.len() == gh * gw,
        forall|i: int| 0 <= i < across.len() ==> #[trigger] across[i] == 0,
        forall|i: int| 0 <= i < down.len() ==> #[trigger] down[i] == 0,
        forall|weights: K::W, v: K::S| #[trigger]
            call_ensures(<K as Kernels>::offset, (&k, zeros(), weights), v) ==> v == zero,
        is_displaced(k, across, down, gw, gh, cell, y, x, spot),
    ensures
        call_ensures(<K as Kernels>::displace, (&k, y as usize, x as usize, zero, zero), spot),
{
    let (cy, cx) = (clamped(cell.y as int, gh), clamped(cell.x as int, gw));
    lemma_cell(gh, gw, cy, cx);
    lemma_cell(gh, gw, cy, following(cx, gw));
    lemma_cell(gh, gw, following(cy, gh), cx);
    lemma_cell(gh, gw, following(cy, gh), following(cx, gw));
    assert(quad_at(across, gw, gh, cy, cx) == zeros());
    assert(quad_at(down, gw, gh, cy, cx) == zeros());
}

} // verus!
