//! Lens shading: resizing the calibrated gain grids and applying them, with the
//! per-channel white balance, to the mosaic.
//!
//! The arithmetic on real-valued gains is the [`Kernels`]'s; what stands here is
//! which grid cells, which channel and which gain every sample meets.

use vstd::prelude::*;

use crate::pipeline::bayer::{is_blc_split, site, site_at, Planes, Site};
use crate::pipeline::kernels::Kernels;
use crate::raw::{blc_at, blc_sample, is_blc_frame, Fraction, RawFrame, H, RAW_BYTES, W};
use crate::rows::{at, grid, lemma_cell};
use crate::tuning::{lsc_grid, LSC_BYTES, LSC_CELLS, LSC_GH, LSC_GW, LSC_NLS};

verus! {

/// The four grid values around a position, by row then column.
#[derive(Debug, Clone, Copy, PartialEq, Eq)]
pub struct Quad<T> {
    pub p00: T,
    pub p01: T,
    pub p10: T,
    pub p11: T,
}

/// The cell after `i`, or the last one.
pub open spec fn following(i: int, n: int) -> int {
    if i + 1 < n {
        i + 1
    } else {
        n - 1
    }
}

/// The values at `(y, x)` and at the next row and column, the last ones repeated.
pub open spec fn quad_at<T>(s: Seq<T>, w: int, h: int, y: int, x: int) -> Quad<T> {
    Quad {
        p00: at(s, w, y, x),
        p01: at(s, w, y, following(x, w)),
        p10: at(s, w, following(y, h), x),
        p11: at(s, w, following(y, h), following(x, w)),
    }
}

/// Gather the four values a bilinear sample at `(y, x)` blends.
pub fn quad<T: Copy>(s: &[T], w: usize, h: usize, y: usize, x: usize) -> (q: Quad<T>)
    requires
        s.len() == h * w,
        y < h,
        x < w,
    ensures
        q == quad_at(s@, w as int, h as int, y as int, x as int),
{
    let y1: usize = if h - y > 1 {
        y + 1
    } else {
        h - 1
    };
    let x1: usize = if w - x > 1 {
        x + 1
    } else {
        w - 1
    };
    proof {
        lemma_cell(h as int, w as int, y as int, x as int);
        lemma_cell(h as int, w as int, y as int, x1 as int);
        lemma_cell(h as int, w as int, y1 as int, x as int);
        lemma_cell(h as int, w as int, y1 as int, x1 as int);
    }
    Quad { p00: s[y * w + x], p01: s[y * w + x1], p10: s[y1 * w + x], p11: s[y1 * w + x1] }
}

/// A position between two grid lines: the line before it, and how far the
/// position lies from that line towards the next.
#[derive(Debug, Clone, Copy, PartialEq, Eq, Structural)]
pub struct Tap {
    pub cell: usize,
    pub frac: Fraction,
}

/// Where output line `o` of `out` lies among `g` grid lines, when the first and
/// the last lines of both coincide and lines are evenly spaced: at
/// `o * (g - 1) / (out - 1)`.
pub open spec fn tap_spec(o: int, out: int, g: int) -> (int, int, int) {
    if out > 1 {
        (o * (g - 1) / (out - 1), o * (g - 1) % (out - 1), out - 1)
    } else {
        (0, 0, 1)
    }
}

/// The tap holds the mathematical position.
pub open spec fn tap_is(t: Tap, o: int, out: int, g: int) -> bool {
    &&& t.cell == tap_spec(o, out, g).0
    &&& t.frac.num == tap_spec(o, out, g).1
    &&& t.frac.den == tap_spec(o, out, g).2
}

/// The tap of an output line.
pub open spec fn tap_of(o: int, out: int, g: int) -> Tap {
    let (cell, num, den) = tap_spec(o, out, g);
    Tap { cell: cell as usize, frac: (Fraction { num: num as u64, den: den as u64 }) }
}

/// Positions stay on the grid.
proof fn lemma_tap_in_range(o: int, out: int, g: int)
    requires
        0 <= o < out,
        1 <= g,
    ensures
        0 <= tap_spec(o, out, g).0 < g,
        0 <= tap_spec(o, out, g).1 < tap_spec(o, out, g).2,
        0 <= o * (g - 1),
{
    assert(0 <= o * (g - 1)) by (nonlinear_arith)
        requires
            0 <= o,
            1 <= g,
    ;
    if out > 1 {
        let den = out - 1;
        vstd::arithmetic::div_mod::lemma_mod_bound(o * (g - 1), den);
        vstd::arithmetic::div_mod::lemma_div_pos_is_pos(o * (g - 1), den);
        assert(o * (g - 1) <= den * (g - 1)) by (nonlinear_arith)
            requires
                o <= den,
                1 <= g,
        ;
        vstd::arithmetic::div_mod::lemma_div_is_ordered(o * (g - 1), den * (g - 1), den);
        vstd::arithmetic::div_mod::lemma_div_multiples_vanish(g - 1, den);
    }
}

/// Where output line `o` of `out` lies among `g` grid lines.
pub fn tap(o: usize, out: usize, g: usize) -> (t: Tap)
    requires
        o < out,
        1 <= g,
        out * g <= usize::MAX,
    ensures
        tap_is(t, o as int, out as int, g as int),
        t == tap_of(o as int, out as int, g as int),
        t.cell < g,
        t.frac.num < t.frac.den,
{
    proof {
        lemma_tap_in_range(o as int, out as int, g as int);
        assert(o * (g - 1) <= out * g) by (nonlinear_arith)
            requires
                o < out,
                1 <= g,
        ;
        assert(out <= out * g) by (nonlinear_arith)
            requires
                1 <= g,
                0 <= out,
        ;
    }
    if out > 1 {
        let num: usize = o * (g - 1);
        let den: usize = out - 1;
        Tap { cell: num / den, frac: Fraction { num: (num % den) as u64, den: den as u64 } }
    } else {
        Tap { cell: 0, frac: Fraction { num: 0, den: 1 } }
    }
}

/// Resizing keeps the corners: the first output line lies on the first grid line
/// and the last output line on the last grid line.
pub proof fn law_ends_coincide(out: int, g: int)
    requires
        2 <= out,
        1 <= g,
    ensures
        tap_spec(0, out, g) == (0int, 0int, out - 1),
        tap_spec(out - 1, out, g) == (g - 1, 0int, out - 1),
{
    assert(0 * (g - 1) == 0) by (nonlinear_arith);
    vstd::arithmetic::div_mod::lemma_div_multiples_vanish(g - 1, out - 1);
    vstd::arithmetic::div_mod::lemma_mod_multiples_basic(g - 1, out - 1);
    assert((out - 1) * (g - 1) == (g - 1) * (out - 1)) by (nonlinear_arith);
    assert(0int / (out - 1) == 0 && 0int % (out - 1) == 0) by {
        vstd::arithmetic::div_mod::lemma_small_mod(0nat, (out - 1) as nat);
        vstd::arithmetic::div_mod::lemma_basic_div(0, out - 1);
    }
}

/// `out` is `src` resized: each output cell lies between the four values around its
/// position.
pub open spec fn is_resized<K: Kernels>(
    k: K,
    src: Seq<u32>,
    gh: int,
    gw: int,
    out_h: int,
    out_w: int,
    out: Seq<K::G>,
) -> bool {
    &&& out.len() == out_h * out_w
    &&& forall|y: int, x: int|
        0 <= y < out_h && 0 <= x < out_w ==> call_ensures(
            <K as Kernels>::bilinear,
            (
                &k,
                quad_at(src, gw, gh, tap_spec(y, out_h, gh).0, tap_spec(x, out_w, gw).0),
                tap_of(y, out_h, gh).frac,
                tap_of(x, out_w, gw).frac,
            ),
            #[trigger] at(out, out_w, y, x),
        )
}

/// Bilinear resize of a `gh*gw` grid to `out_h*out_w`, corners on corners.
pub fn resize_grid<K: Kernels>(
    src: &[u32],
    gh: usize,
    gw: usize,
    out_h: usize,
    out_w: usize,
    k: &K,
) -> (out: Vec<K::G>)
    requires
        1 <= gh,
        1 <= gw,
        src.len() == gh * gw,
        out_h * gh <= usize::MAX,
        out_w * gw <= usize::MAX,
        out_h * out_w <= usize::MAX,
    ensures
        is_resized(
            *k,
            src@,
            gh as int,
            gw as int,
            out_h as int,
            out_w as int,
            out@,
        ),
{
    let cell = |y: usize, x: usize| -> (v: K::G)
        requires
            y < out_h,
            x < out_w,
        ensures
            call_ensures(
                <K as Kernels>::bilinear,
                (
                    k,
                    quad_at(
                        src@,
                        gw as int,
                        gh as int,
                        tap_spec(y as int, out_h as int, gh as int).0,
                        tap_spec(x as int, out_w as int, gw as int).0,
                    ),
                    tap_of(y as int, out_h as int, gh as int).frac,
                    tap_of(x as int, out_w as int, gw as int).frac,
                ),
                v,
            ),
        {
            let ty: Tap = tap(y, out_h, gh);
            let tx: Tap = tap(x, out_w, gw);
            k.bilinear(quad(src, gw, gh, ty.cell, tx.cell), ty.frac, tx.frac)
        };
    let out: Vec<K::G> = grid(out_h, out_w, &cell);
    assert forall|y: int, x: int| 0 <= y < out_h && 0 <= x < out_w implies call_ensures(
        <K as Kernels>::bilinear,
        (
            k,
            quad_at(
                src@,
                gw as int,
                gh as int,
                tap_spec(y, out_h as int, gh as int).0,
                tap_spec(x, out_w as int, gw as int).0,
            ),
            tap_of(y, out_h as int, gh as int).frac,
            tap_of(x, out_w as int, gw as int).frac,
        ),
        #[trigger] at(out@, out_w as int, y, x),
    ) by {
        assert(call_ensures(cell, (y as usize, x as usize), at(out@, out_w as int, y, x)));
    }
    out
}

/// Pre-resized per-Bayer-channel LSC gain grids (`hh*ww` each) for one light
/// source. They depend only on the chosen light source, so the live processor
/// caches them and rebuilds only when the selected source changes.
#[derive(Debug, Clone, PartialEq, Eq)]
pub struct Grids<G> {
    pub ls: usize,
    pub hh: usize,
    pub ww: usize,
    pub g_gr: Vec<G>,
    pub g_r: Vec<G>,
    pub g_b: Vec<G>,
    pub g_gb: Vec<G>,
}

impl<G> Grids<G> {
    /// All four grids fill the stated geometry.
    pub open spec fn wf(&self) -> bool {
        &&& self.g_gr.len() == self.hh * self.ww
        &&& self.g_r.len() == self.hh * self.ww
        &&& self.g_b.len() == self.hh * self.ww
        &&& self.g_gb.len() == self.hh * self.ww
    }

    /// The grid behind one filter.
    pub open spec fn plane(&self, s: Site) -> Seq<G> {
        match s {
            Site::Gr => self.g_gr@,
            Site::R => self.g_r@,
            Site::B => self.g_b@,
            Site::Gb => self.g_gb@,
        }
    }

    /// The shading gain behind filter `s` in tile row `y`, tile column `x`.
    pub open spec fn gain(&self, s: Site, y: int, x: int) -> G {
        at(self.plane(s), self.ww as int, y, x)
    }
}

/// Place of a filter in the calibration's channel order.
pub open spec fn channel(s: Site) -> int {
    match s {
        Site::Gr => 0,
        Site::R => 1,
        Site::B => 2,
        Site::Gb => 3,
    }
}

/// The calibrated grid of a light source behind one filter.
pub open spec fn calibrated(blob: Seq<u8>, ls: int, s: Site) -> Seq<u32> {
    Seq::new(
        LSC_CELLS as nat,
        |k: int| crate::tuning::word_at(blob, crate::tuning::lsc_first(ls, channel(s)) + k) as u32,
    )
}

/// `grids` are the calibrated grids of light source `ls`, each resized to
/// `hh*ww`.
pub open spec fn is_grids<K: Kernels>(
    k: K,
    blob: Seq<u8>,
    ls: int,
    hh: int,
    ww: int,
    grids: Grids<K::G>,
) -> bool {
    &&& grids.ls == ls
    &&& grids.hh == hh
    &&& grids.ww == ww
    &&& forall|s: Site|
        is_resized(
            k,
            calibrated(blob, ls, s),
            LSC_GH as int,
            LSC_GW as int,
            hh,
            ww,
            #[trigger] grids.plane(s),
        )
}

/// Resize one calibrated grid.
fn build_grid<K: Kernels>(
    blob: &[u8],
    ls: usize,
    ch: usize,
    hh: usize,
    ww: usize,
    k: &K,
    Ghost(s): Ghost<Site>,
) -> (out: Vec<K::G>)
    requires
        blob.len() >= LSC_BYTES,
        ls < LSC_NLS,
        ch == channel(s),
        hh * LSC_GH <= usize::MAX,
        ww * LSC_GW <= usize::MAX,
        hh * ww <= usize::MAX,
    ensures
        is_resized(
            *k,
            calibrated(blob@, ls as int, s),
            LSC_GH as int,
            LSC_GW as int,
            hh as int,
            ww as int,
            out@,
        ),
{
    let src: Vec<u32> = lsc_grid(blob, ls, ch);
    proof {
        assert(src@ =~= calibrated(blob@, ls as int, s));
    }
    resize_grid(&src, LSC_GH, LSC_GW, hh, ww, k)
}

/// Resize the four LSC grids for light source `ls` to `hh*ww`.
pub fn build_grids<K: Kernels>(
    blob: &[u8],
    ls: usize,
    hh: usize,
    ww: usize,
    k: &K,
) -> (grids: Grids<K::G>)
    requires
        blob.len() >= LSC_BYTES,
        ls < LSC_NLS,
        hh * LSC_GH <= usize::MAX,
        ww * LSC_GW <= usize::MAX,
        hh * ww <= usize::MAX,
    ensures
        grids.wf(),
        is_grids(*k, blob@, ls as int, hh as int, ww as int, grids),
{
    let grids = Grids {
        ls,
        hh,
        ww,
        g_gr: build_grid(blob, ls, 0, hh, ww, k, Ghost(Site::Gr)),
        g_r: build_grid(blob, ls, 1, hh, ww, k, Ghost(Site::R)),
        g_b: build_grid(blob, ls, 2, hh, ww, k, Ghost(Site::B)),
        g_gb: build_grid(blob, ls, 3, hh, ww, k, Ghost(Site::Gb)),
    };
    assert forall|s: Site|
        is_resized(
            *k,
            calibrated(blob@, ls as int, s),
            LSC_GH as int,
            LSC_GW as int,
            hh as int,
            ww as int,
            #[trigger] grids.plane(s),
        ) by {}
    grids
}

/// Place of a filter's gain among the gains for red, green and blue.
pub open spec fn gain_index(s: Site) -> int {
    match s {
        Site::R => 0,
        Site::Gr | Site::Gb => 1,
        Site::B => 2,
    }
}

/// What lens shading and white balance make of one sample: some result of
/// shading the sample with the shading gain of its filter in its tile and
/// the white-balance gain of its colour.
pub open spec fn is_shaded<K: Kernels>(
    k: K,
    grids: Grids<K::G>,
    gains: [K::D; 3],
    y: int,
    x: int,
    v: u16,
    out: K::S,
) -> bool {
    call_ensures(
        <K as Kernels>::shade,
        (&k, v, grids.gain(site_at(y, x), y / 2, x / 2), gains[gain_index(site_at(y, x))]),
        out,
    )
}

/// Apply lens shading and white balance to one sample.
fn shade_sample<K: Kernels>(
    k: &K,
    grids: &Grids<K::G>,
    gains: &[K::D; 3],
    y: usize,
    x: usize,
    v: u16,
) -> (out: K::S)
    requires
        grids.wf(),
        y / 2 < grids.hh,
        x / 2 < grids.ww,
    ensures
        is_shaded(*k, *grids, *gains, y as int, x as int, v, out),
{
    proof {
        lemma_cell(grids.hh as int, grids.ww as int, y as int / 2, x as int / 2);
    }
    let i: usize = (y / 2) * grids.ww + x / 2;
    match site(y, x) {
        Site::Gr => k.shade(v, grids.g_gr[i], gains[1]),
        Site::R => k.shade(v, grids.g_r[i], gains[0]),
        Site::B => k.shade(v, grids.g_b[i], gains[2]),
        Site::Gb => k.shade(v, grids.g_gb[i], gains[1]),
    }
}

/// `cfa` is `raw` with lens shading and white balance applied to every sample.
pub open spec fn is_cfa_of_frame<K: Kernels>(
    k: K,
    raw: RawFrame<u16>,
    grids: Grids<K::G>,
    gains: [K::D; 3],
    cfa: Seq<K::S>,
) -> bool {
    &&& cfa.len() == raw.h * raw.w
    &&& forall|y: int, x: int|
        0 <= y < raw.h && 0 <= x < raw.w ==> is_shaded(
            k,
            grids,
            gains,
            y,
            x,
            raw.sample(y, x),
            #[trigger] at(cfa, raw.w as int, y, x),
        )
}

/// `cfa` is a capture buffer's mosaic with black level, lens shading and white
/// balance applied to every sample.
pub open spec fn is_cfa_of_bytes<K: Kernels>(
    k: K,
    bytes: Seq<u8>,
    grids: Grids<K::G>,
    gains: [K::D; 3],
    cfa: Seq<K::S>,
) -> bool {
    &&& cfa.len() == H * W
    &&& forall|y: int, x: int|
        0 <= y < H && 0 <= x < W ==> is_shaded(
            k,
            grids,
            gains,
            y,
            x,
            blc_at(bytes, y, x) as u16,
            #[trigger] at(cfa, W as int, y, x),
        )
}

/// Apply LSC and white balance on the Bayer frame, per channel (GRBG),
/// row-parallel.
pub fn cfa_lscwb<K: Kernels>(
    raw: &RawFrame<u16>,
    grids: &Grids<K::G>,
    gains: &[K::D; 3],
    k: &K,
) -> (cfa: Vec<K::S>)
    requires
        raw.wf(),
        raw.w % 2 == 0,
        raw.h % 2 == 0,
        grids.wf(),
        grids.hh == raw.h / 2,
        grids.ww == raw.w / 2,
    ensures
        is_cfa_of_frame(*k, *raw, *grids, *gains, cfa@),
{
    let cell = |y: usize, x: usize| -> (s: K::S)
        requires
            y < raw.h,
            x < raw.w,
        ensures
            is_shaded(
                *k,
                *grids,
                *gains,
                y as int,
                x as int,
                raw.sample(y as int, x as int),
                s,
            ),
        {
            proof {
                lemma_cell(raw.h as int, raw.w as int, y as int, x as int);
            }
            let v: u16 = raw.data[y * raw.w + x];
            shade_sample(k, grids, gains, y, x, v)
        };
    let cfa: Vec<K::S> = grid(raw.h, raw.w, &cell);
    assert forall|y: int, x: int| 0 <= y < raw.h && 0 <= x < raw.w implies is_shaded(
        *k,
        *grids,
        *gains,
        y,
        x,
        raw.sample(y, x),
        #[trigger] at(cfa@, raw.w as int, y, x),
    ) by {
        assert(call_ensures(cell, (y as usize, x as usize), at(cfa@, raw.w as int, y, x)));
    }
    cfa
}

/// Fused raw unpack + black level + LSC + per-channel white balance, straight
/// from the capture bytes into a full-res CFA (`W*H`, GRBG), row-parallel. This
/// is the MHC front-end; [`law_fused_cfa_is_cfa_of_frame`] relates it to
/// [`cfa_lscwb`].
pub fn fill_cfa_lscwb_from_bytes<K: Kernels>(
    bytes: &[u8],
    grids: &Grids<K::G>,
    gains: &[K::D; 3],
    k: &K,
) -> (cfa: Vec<K::S>)
    requires
        bytes.len() >= RAW_BYTES,
        grids.wf(),
        grids.hh == H / 2,
        grids.ww == W / 2,
    ensures
        is_cfa_of_bytes(*k, bytes@, *grids, *gains, cfa@),
{
    let cell = |y: usize, x: usize| -> (s: K::S)
        requires
            y < H,
            x < W,
        ensures
            is_shaded(
                *k,
                *grids,
                *gains,
                y as int,
                x as int,
                blc_at(bytes@, y as int, x as int) as u16,
                s,
            ),
        {
            let v: u16 = blc_sample(bytes, y, x);
            shade_sample(k, grids, gains, y, x, v)
        };
    let cfa: Vec<K::S> = grid(H, W, &cell);
    assert forall|y: int, x: int| 0 <= y < H && 0 <= x < W implies is_shaded(
        *k,
        *grids,
        *gains,
        y,
        x,
        blc_at(bytes@, y, x) as u16,
        #[trigger] at(cfa@, W as int, y, x),
    ) by {
        assert(call_ensures(cell, (y as usize, x as usize), at(cfa@, W as int, y, x)));
    }
    cfa
}

/// The mosaic built straight from a capture buffer is one that the unpacked
/// frame gives, and the other way round: fusing the unpacking changes nothing.
pub proof fn law_fused_cfa_is_cfa_of_frame<K: Kernels>(
    k: K,
    bytes: Seq<u8>,
    frame: RawFrame<u16>,
    grids: Grids<K::G>,
    gains: [K::D; 3],
    cfa: Seq<K::S>,
)
    requires
        bytes.len() >= RAW_BYTES,
        is_blc_frame(bytes, frame),
    ensures
        is_cfa_of_bytes(k, bytes, grids, gains, cfa) <==> is_cfa_of_frame(
            k,
            frame,
            grids,
            gains,
            cfa,
        ),
{
    assert forall|y: int, x: int| 0 <= y < H && 0 <= x < W implies #[trigger] frame.sample(y, x)
        == blc_at(bytes, y, x) as u16 by {
        assert(frame.sample(y, x) == blc_at(bytes, y, x));
    }
    if is_cfa_of_bytes(k, bytes, grids, gains, cfa) {
        assert forall|y: int, x: int| 0 <= y < frame.h && 0 <= x < frame.w implies is_shaded(
            k,
            grids,
            gains,
            y,
            x,
            frame.sample(y, x),
            #[trigger] at(cfa, frame.w as int, y, x),
        ) by {
            assert(at(cfa, W as int, y, x) == at(cfa, frame.w as int, y, x));
        }
    }
    if is_cfa_of_frame(k, frame, grids, gains, cfa) {
        assert forall|y: int, x: int| 0 <= y < H && 0 <= x < W implies is_shaded(
            k,
            grids,
            gains,
            y,
            x,
            blc_at(bytes, y, x) as u16,
            #[trigger] at(cfa, W as int, y, x),
        ) by {
            assert(at(cfa, W as int, y, x) == at(cfa, frame.w as int, y, x));
            assert(frame.sample(y, x) == blc_at(bytes, y, x) as u16);
        }
    }
}

/// A field that falls off as the inverse of the shading comes out flat. Where each
/// sample times the shading gain of its own filter in its own 2x2 tile is `level`, and
/// shading is the product of sample and gains (as read by `sg`, `wb` and `out`), every
/// shaded sample is `level` times the white-balance gain of its colour: red in even
/// rows and odd columns, blue in odd rows and even columns, green elsewhere.
pub proof fn law_inverse_field_comes_out_flat<K: Kernels>(
    k: K,
    sg: spec_fn(K::G) -> int,
    wb: spec_fn(K::D) -> int,
    out: spec_fn(K::S) -> int,
    raw: RawFrame<u16>,
    grids: Grids<K::G>,
    gains: [K::D; 3],
    cfa: Seq<K::S>,
    level: int,
    y: int,
    x: int,
)
    requires
        forall|v: u16, g: K::G, d: K::D, s: K::S| #[trigger]
            call_ensures(<K as Kernels>::shade, (&k, v, g, d), s) ==> out(s) == (v * sg(g)) * wb(d),
        raw.wf(),
        grids.wf(),
        grids.hh == raw.h / 2,
        grids.ww == raw.w / 2,
        raw.w % 2 == 0,
        raw.h % 2 == 0,
        is_cfa_of_frame(k, raw, grids, gains, cfa),
        0 <= y < raw.h,
        0 <= x < raw.w,
        raw.data@[y * raw.w + x] * sg(
            if y % 2 == 0 && x % 2 == 0 {
                grids.g_gr@[(y / 2) * grids.ww + x / 2]
            } else if y % 2 == 0 {
                grids.g_r@[(y / 2) * grids.ww + x / 2]
            } else if x % 2 == 0 {
                grids.g_b@[(y / 2) * grids.ww + x / 2]
            } else {
                grids.g_gb@[(y / 2) * grids.ww + x / 2]
            },
        ) == level,
    ensures
        out(cfa[y * raw.w + x]) == level * wb(
            if y % 2 == 0 && x % 2 == 1 {
                gains@[0]
            } else if y % 2 == 1 && x % 2 == 0 {
                gains@[2]
            } else {
                gains@[1]
            },
        ),
{
    let s = at(cfa, raw.w as int, y, x);
    assert(is_shaded(k, grids, gains, y, x, raw.sample(y, x), s));
}

/// The two resolutions shade alike: each sample of the full-resolution mosaic meets the
/// very gain that stands beside it in its tile's half-resolution gains.
pub proof fn law_resolutions_shade_alike<K: Kernels>(
    k: K,
    bytes: Seq<u8>,
    grids: Grids<K::G>,
    gains: [K::D; 3],
    cfa: Seq<K::S>,
    p: Planes<u16>,
    y: int,
    x: int,
)
    requires
        is_cfa_of_bytes(k, bytes, grids, gains, cfa),
        is_blc_split(bytes, p),
        grids.ww == p.ww,
        0 <= y < p.hh,
        0 <= x < p.ww,
    ensures
        ({
            let t = crate::pipeline::render::samples_at(p, y, x);
            let g = crate::pipeline::render::gains_at(grids, y, x);
            let top = 2 * y * W + 2 * x;
            let below = (2 * y + 1) * W + 2 * x;
            &&& call_ensures(<K as Kernels>::shade, (&k, t.gr, g.gr, gains@[1]), cfa[top])
            &&& call_ensures(<K as Kernels>::shade, (&k, t.r, g.r, gains@[0]), cfa[top + 1])
            &&& call_ensures(<K as Kernels>::shade, (&k, t.b, g.b, gains@[2]), cfa[below])
            &&& call_ensures(<K as Kernels>::shade, (&k, t.gb, g.gb, gains@[1]), cfa[below + 1])
        }),
{
    let w = W as int;
    assert(p.tile(Site::Gr, y, x) == blc_at(bytes, 2 * y, 2 * x));
    assert(p.tile(Site::R, y, x) == blc_at(bytes, 2 * y, 2 * x + 1));
    assert(p.tile(Site::B, y, x) == blc_at(bytes, 2 * y + 1, 2 * x));
    assert(p.tile(Site::Gb, y, x) == blc_at(bytes, 2 * y + 1, 2 * x + 1));
    let (a, b) = (at(cfa, w, 2 * y, 2 * x), at(cfa, w, 2 * y, 2 * x + 1));
    let (c, d) = (at(cfa, w, 2 * y + 1, 2 * x), at(cfa, w, 2 * y + 1, 2 * x + 1));
    assert(a == cfa[2 * y * W + 2 * x] && b == cfa[2 * y * W + 2 * x + 1]);
    assert(c == cfa[(2 * y + 1) * W + 2 * x] && d == cfa[(2 * y + 1) * W + 2 * x + 1]);
}

/// Output lines are evenly spaced over the grid: line `o` of `out` lies at
/// `o * (g - 1) / (out - 1)`, part of the way from its cell to the next.
pub proof fn law_lines_are_evenly_spaced(o: int, out: int, g: int)
    requires
        2 <= out,
        1 <= g,
        0 <= o < out,
    ensures
        ({
            let (cell, num, den) = tap_spec(o, out, g);
            &&& (out - 1) * (cell * den + num) == den * (o * (g - 1))
            &&& 0 <= num < den
            &&& 0 <= cell < g
        }),
{
    lemma_tap_in_range(o, out, g);
    let (cell, num, den) = tap_spec(o, out, g);
    vstd::arithmetic::div_mod::lemma_fundamental_div_mod(o * (g - 1), out - 1);
    assert(cell * den + num == o * (g - 1)) by (nonlinear_arith)
        requires
            o * (g - 1) == den * cell + num,
    ;
}

/// A grid that rises evenly keeps rising evenly: resized, cell `(y, x)` of a grid with
/// `base + down * row + across * column` in its cells is that of its place between
/// the lines. This is of a blend that is bilinear (read by `val`, in parts of the two
/// denominators).
pub proof fn law_even_rise_is_kept<K: Kernels>(
    k: K,
    val: spec_fn(K::G) -> int,
    src: Seq<u32>,
    gh: int,
    gw: int,
    out_h: int,
    out_w: int,
    out: Seq<K::G>,
    base: int,
    down: int,
    across: int,
    y: int,
    x: int,
)
    requires
        2 <= out_h <= u64::MAX,
        2 <= out_w <= u64::MAX,
        1 <= gh,
        1 <= gw,
        src.len() == gh * gw,
        gh <= usize::MAX,
        gw <= usize::MAX,
        forall|i: int, j: int|
            0 <= i < gh && 0 <= j < gw ==> #[trigger] at(src, gw, i, j) == base + down * i + across
                * j,
        forall|q: Quad<u32>, fy: Fraction, fx: Fraction, g: K::G| #[trigger]
            call_ensures(<K as Kernels>::bilinear, (&k, q, fy, fx), g) ==> val(g) == (fy.den
                - fy.num) * ((fx.den - fx.num) * q.p00 + fx.num * q.p01) + fy.num * ((fx.den
                - fx.num) * q.p10 + fx.num * q.p11),
        is_resized(k, src, gh, gw, out_h, out_w, out),
        0 <= y < out_h,
        0 <= x < out_w,
    ensures
        val(out[y * out_w + x]) == (out_h - 1) * (out_w - 1) * base + (out_w - 1) * (down * (y * (gh
            - 1))) + (out_h - 1) * (across * (x * (gw - 1))),
{
    lemma_tap_in_range(y, out_h, gh);
    lemma_tap_in_range(x, out_w, gw);
    let (cy, ny, dy) = tap_spec(y, out_h, gh);
    let (cx, nx, dx) = tap_spec(x, out_w, gw);
    vstd::arithmetic::div_mod::lemma_fundamental_div_mod(y * (gh - 1), out_h - 1);
    vstd::arithmetic::div_mod::lemma_fundamental_div_mod(x * (gw - 1), out_w - 1);
    let (fy, fx) = (tap_of(y, out_h, gh).frac, tap_of(x, out_w, gw).frac);
    let q = quad_at(src, gw, gh, cy, cx);
    let g = at(out, out_w, y, x);
    assert(call_ensures(<K as Kernels>::bilinear, (&k, q, fy, fx), g));
    // Past the last line there is no next one, and no part of the way to it.
    if cy + 1 >= gh {
        assert(cy == gh - 1);
        lemma_last_line(y, out_h, gh);
    }
    if cx + 1 >= gw {
        assert(cx == gw - 1);
        lemma_last_line(x, out_w, gw);
    }
    let (ry, rx) = (following(cy, gh), following(cx, gw));
    let p = base + down * cy + across * cx;
    assert(q.p00 == p);
    assert(ny * (q.p10 - q.p00) == ny * down) by (nonlinear_arith)
        requires
            q.p00 == base + down * cy + across * cx,
            q.p10 == base + down * ry + across * cx,
            ry == cy + 1 || ny == 0,
    ;
    assert(nx * (q.p01 - q.p00) == nx * across) by (nonlinear_arith)
        requires
            q.p00 == base + down * cy + across * cx,
            q.p01 == base + down * cy + across * rx,
            rx == cx + 1 || nx == 0,
    ;
    let (a, b, c, d) = (q.p00 as int, q.p01 as int, q.p10 as int, q.p11 as int);
    assert(d - c == b - a);
    let (top, bottom) = ((dx - nx) * a + nx * b, (dx - nx) * c + nx * d);
    assert(top == dx * a + nx * (b - a)) by (nonlinear_arith)
        requires
            top == (dx - nx) * a + nx * b,
    ;
    assert(bottom == dx * c + nx * (d - c)) by (nonlinear_arith)
        requires
            bottom == (dx - nx) * c + nx * d,
    ;
    assert(dx * c - dx * a == dx * (c - a)) by (nonlinear_arith);
    assert(bottom - top == dx * (c - a));
    let v = (dy - ny) * top + ny * bottom;
    assert(v == dy * top + ny * (bottom - top)) by (nonlinear_arith)
        requires
            v == (dy - ny) * top + ny * bottom,
    ;
    assert(ny * (dx * (c - a)) == dx * (ny * (c - a))) by (nonlinear_arith);
    assert(v == dy * top + dx * (ny * down));
    assert(top == dx * p + nx * across);
    let (gy, gx) = (y * (gh - 1), x * (gw - 1));
    assert(gy == dy * cy + ny && gx == dx * cx + nx);
    assert(top == dx * (base + down * cy) + across * gx) by (nonlinear_arith)
        requires
            top == dx * (base + down * cy + across * cx) + nx * across,
            gx == dx * cx + nx,
    ;
    assert(dy * top == dy * (dx * (base + down * cy)) + dy * (across * gx)) by (nonlinear_arith)
        requires
            top == dx * (base + down * cy) + across * gx,
    ;
    assert(dy * (dx * (base + down * cy)) == dy * dx * base + dx * (down * (dy * cy)))
        by (nonlinear_arith);
    assert(dx * (down * (dy * cy)) + dx * (ny * down) == dx * (down * gy)) by (nonlinear_arith)
        requires
            gy == dy * cy + ny,
    ;
}

/// The last grid line is reached at the last output line only, in full.
proof fn lemma_last_line(o: int, out: int, g: int)
    requires
        2 <= out,
        1 <= g,
        0 <= o < out,
        tap_spec(o, out, g).0 == g - 1,
    ensures
        tap_spec(o, out, g).1 == 0,
{
    let (cell, num, den) = tap_spec(o, out, g);
    lemma_tap_in_range(o, out, g);
    vstd::arithmetic::div_mod::lemma_fundamental_div_mod(o * (g - 1), den);
    assert(o * (g - 1) <= den * (g - 1)) by (nonlinear_arith)
        requires
            o <= den,
            1 <= g,
    ;
}

/// Each filter's grid comes from its own stretch of the calibration: light source after
/// light source, and within one Gr, R, B, Gb, of 47 by 63 numbers each, four bytes a
/// number, lowest first. The corners of the resized grids show which. This is of a
/// blend that gives the first of four numbers at no distance from it.
pub proof fn law_grids_come_from_their_stretch<K: Kernels>(
    k: K,
    val: spec_fn(K::G) -> int,
    blob: Seq<u8>,
    ls: int,
    hh: int,
    ww: int,
    grids: Grids<K::G>,
    ch: int,
    corner: int,
)
    requires
        blob.len() >= LSC_BYTES,
        0 <= ls < 5,
        0 <= ch < 4,
        2 <= hh <= u64::MAX,
        2 <= ww <= u64::MAX,
        forall|q: Quad<u32>, fy: Fraction, fx: Fraction, g: K::G| #[trigger]
            call_ensures(<K as Kernels>::bilinear, (&k, q, fy, fx), g) && fy.num == 0 && fx.num == 0
                ==> val(g) == q.p00,
        is_grids(k, blob, ls, hh, ww, grids),
        0 <= corner < 4,
    ensures
        ({
            let plane = if ch == 0 {
                grids.g_gr@
            } else if ch == 1 {
                grids.g_r@
            } else if ch == 2 {
                grids.g_b@
            } else {
                grids.g_gb@
            };
            let (y, gy) = if corner < 2 {
                (0int, 0int)
            } else {
                (hh - 1, 46int)
            };
            let (x, gx) = if corner % 2 == 0 {
                (0int, 0int)
            } else {
                (ww - 1, 62int)
            };
            let b = 4 * (2961 * (4 * ls + ch) + 63 * gy + gx);
            val(plane[y * ww + x]) == blob[b] + 256 * (blob[b + 1] + 256 * (blob[b + 2] + 256 * blob[b
                + 3]))
        }),
{
    let s = if ch == 0 {
        Site::Gr
    } else if ch == 1 {
        Site::R
    } else if ch == 2 {
        Site::B
    } else {
        Site::Gb
    };
    law_ends_coincide(hh, LSC_GH as int);
    law_ends_coincide(ww, LSC_GW as int);
    let (y, gy) = if corner < 2 {
        (0int, 0int)
    } else {
        (hh - 1, 46int)
    };
    let (x, gx) = if corner % 2 == 0 {
        (0int, 0int)
    } else {
        (ww - 1, 62int)
    };
    let plane = grids.plane(s);
    let src = calibrated(blob, ls, s);
    let g = at(plane, ww, y, x);
    let q = quad_at(src, 63, 47, gy, gx);
    assert(call_ensures(
        <K as Kernels>::bilinear,
        (&k, q, tap_of(y, hh, 47).frac, tap_of(x, ww, 63).frac),
        g,
    ));
    assert(q.p00 == src[gy * 63 + gx]);
    let n = crate::tuning::lsc_first(ls, channel(s)) + gy * 63 + gx;
    assert(n == 2961 * (4 * ls + ch) + 63 * gy + gx);
    assert(src[gy * 63 + gx] == crate::tuning::word_at(blob, n) as u32);
    assert(0 <= crate::tuning::word_at(blob, n) <= u32::MAX);
}

} // verus!
