//! Full-resolution Malvar-He-Cutler debayer: which samples each filter reads,
//! where the borders replicate, and which filter yields which channel.
//!
//! Implements the five 5x5 gradient-corrected filters from Malvar, He & Cutler
//! (2004) over the GRBG mosaic. The filter arithmetic is a parameter, because the
//! live path filters samples that real-valued gains have scaled; [`Sixteenths`]
//! is that arithmetic on integer samples, exact in sixteenths.

use vstd::prelude::*;

use crate::pipeline::bayer::{site, site_at, Site};
use crate::rows::{at, grid, lemma_cell, lemma_cell_of_index, tabulate};

verus! {

/// The samples the filters read around one centre, by direction: one and two
/// steps along each axis, and the four diagonals.
#[derive(Debug, Clone, Copy, PartialEq, Eq)]
pub struct Taps<T> {
    pub c: T,
    pub up: T,
    pub dn: T,
    pub lf: T,
    pub rt: T,
    pub uu: T,
    pub dd: T,
    pub ll: T,
    pub rr: T,
    pub ul: T,
    pub ur: T,
    pub dl: T,
    pub dr: T,
}

/// What the filters yield at one centre.
#[derive(Debug, Clone, Copy, PartialEq, Eq)]
pub struct Filtered<U> {
    /// The centre sample itself.
    pub c: U,
    /// Green at a red or blue centre.
    pub g_at_rb: U,
    /// The colour that shares the row with a green centre.
    pub at_g_hrow: U,
    /// The colour that shares the column with a green centre.
    pub at_g_vcol: U,
    /// Red at a blue centre, or blue at a red one.
    pub at_diag: U,
}

/// The arithmetic of the five filters, from samples `T` to channel values `U`.
pub trait Debayer<T, U>: Sync {
    /// Apply the filters to the taps around one centre.
    fn filters(&self, t: Taps<T>) -> Filtered<U>;
}

/// `i` moved into `0..n`.
pub open spec fn clamped(i: int, n: int) -> int {
    if i < 0 {
        0
    } else if i >= n {
        n - 1
    } else {
        i
    }
}

/// Clamped CFA sample access (edge replication at borders).
pub open spec fn cfa_sample<T>(cfa: Seq<T>, w: int, h: int, y: int, x: int) -> T {
    at(cfa, w, clamped(y, h), clamped(x, w))
}

/// The taps around `(y, x)`, borders replicated.
pub open spec fn taps_at<T>(cfa: Seq<T>, w: int, h: int, y: int, x: int) -> Taps<T> {
    Taps {
        c: cfa_sample(cfa, w, h, y, x),
        up: cfa_sample(cfa, w, h, y - 1, x),
        dn: cfa_sample(cfa, w, h, y + 1, x),
        lf: cfa_sample(cfa, w, h, y, x - 1),
        rt: cfa_sample(cfa, w, h, y, x + 1),
        uu: cfa_sample(cfa, w, h, y - 2, x),
        dd: cfa_sample(cfa, w, h, y + 2, x),
        ll: cfa_sample(cfa, w, h, y, x - 2),
        rr: cfa_sample(cfa, w, h, y, x + 2),
        ul: cfa_sample(cfa, w, h, y - 1, x - 1),
        ur: cfa_sample(cfa, w, h, y - 1, x + 1),
        dl: cfa_sample(cfa, w, h, y + 1, x - 1),
        dr: cfa_sample(cfa, w, h, y + 1, x + 1),
    }
}

/// The channels `(R, G, B)` at a centre behind filter `s`.
pub open spec fn channels<U>(s: Site, f: Filtered<U>) -> (U, U, U) {
    match s {
        Site::Gr => (f.at_g_hrow, f.c, f.at_g_vcol),
        Site::R => (f.c, f.g_at_rb, f.at_diag),
        Site::B => (f.at_diag, f.g_at_rb, f.c),
        Site::Gb => (f.at_g_vcol, f.c, f.at_g_hrow),
    }
}

/// `rgb` is the debayered triple at `(y, x)`: some result of the filters on the
/// taps there, assigned to channels by the colour filter over the centre.
pub open spec fn is_mhc<T, U, K: Debayer<T, U>>(
    k: K,
    cfa: Seq<T>,
    w: int,
    h: int,
    y: int,
    x: int,
    rgb: (U, U, U),
) -> bool {
    exists|f: Filtered<U>| #[trigger]
        call_ensures(<K as Debayer<T, U>>::filters, (&k, taps_at(cfa, w, h, y, x)), f) && rgb
            == channels(site_at(y, x), f)
}

/// `i + d` moved into `0..n`.
fn step(i: usize, d: isize, n: usize) -> (r: usize)
    requires
        i < n,
        -2 <= d <= 2,
    ensures
        r == clamped(i + d, n as int),
{
    if d < 0 {
        let back: usize = (-d) as usize;
        if i < back {
            0
        } else {
            i - back
        }
    } else {
        let ahead: usize = d as usize;
        if ahead >= n - i {
            n - 1
        } else {
            i + ahead
        }
    }
}

/// Clamped CFA sample access (edge replication at borders): the sample `(dy, dx)`
/// away from `(y, x)`.
fn cfa_at<T: Copy>(cfa: &[T], w: usize, h: usize, y: usize, x: usize, dy: isize, dx: isize) -> (t: T)
    requires
        cfa.len() == h * w,
        y < h,
        x < w,
        -2 <= dy <= 2,
        -2 <= dx <= 2,
    ensures
        t == cfa_sample(cfa@, w as int, h as int, y + dy, x + dx),
{
    let yy: usize = step(y, dy, h);
    let xx: usize = step(x, dx, w);
    proof {
        lemma_cell(h as int, w as int, yy as int, xx as int);
    }
    cfa[yy * w + xx]
}

/// Gather the taps around any pixel, replicating at the borders.
fn gather<T: Copy>(cfa: &[T], w: usize, h: usize, y: usize, x: usize) -> (t: Taps<T>)
    requires
        cfa.len() == h * w,
        y < h,
        x < w,
    ensures
        t == taps_at(cfa@, w as int, h as int, y as int, x as int),
{
    Taps {
        c: cfa_at(cfa, w, h, y, x, 0, 0),
        up: cfa_at(cfa, w, h, y, x, -1, 0),
        dn: cfa_at(cfa, w, h, y, x, 1, 0),
        lf: cfa_at(cfa, w, h, y, x, 0, -1),
        rt: cfa_at(cfa, w, h, y, x, 0, 1),
        uu: cfa_at(cfa, w, h, y, x, -2, 0),
        dd: cfa_at(cfa, w, h, y, x, 2, 0),
        ll: cfa_at(cfa, w, h, y, x, 0, -2),
        rr: cfa_at(cfa, w, h, y, x, 0, 2),
        ul: cfa_at(cfa, w, h, y, x, -1, -1),
        ur: cfa_at(cfa, w, h, y, x, -1, 1),
        dl: cfa_at(cfa, w, h, y, x, 1, -1),
        dr: cfa_at(cfa, w, h, y, x, 1, 1),
    }
}

/// Gather the taps around an interior pixel (at least two from every edge), by
/// direct offsets from the centre index with no bounds clamping. This is the hot
/// path; it reads exactly what [`gather`] reads there.
fn gather_interior<T: Copy>(cfa: &[T], w: usize, h: usize, y: usize, x: usize) -> (t: Taps<T>)
    requires
        cfa.len() == h * w,
        2 <= y,
        y + 2 < h,
        2 <= x,
        x + 2 < w,
    ensures
        t == taps_at(cfa@, w as int, h as int, y as int, x as int),
{
    proof {
        let (hi, wi, yi, xi) = (h as int, w as int, y as int, x as int);
        lemma_cell(hi, wi, yi, xi);
        lemma_cell(hi, wi, yi - 2, xi);
        lemma_cell(hi, wi, yi - 1, xi);
        lemma_cell(hi, wi, yi + 1, xi);
        lemma_cell(hi, wi, yi + 2, xi);
        assert((yi - 1) * wi == yi * wi - wi) by (nonlinear_arith);
        assert((yi + 1) * wi == yi * wi + wi) by (nonlinear_arith);
        assert((yi - 2) * wi == yi * wi - 2 * wi) by (nonlinear_arith);
        assert((yi + 2) * wi == yi * wi + 2 * wi) by (nonlinear_arith);
    }
    let i: usize = y * w + x;
    Taps {
        c: cfa[i],
        up: cfa[i - w],
        dn: cfa[i + w],
        lf: cfa[i - 1],
        rt: cfa[i + 1],
        uu: cfa[i - 2 * w],
        dd: cfa[i + 2 * w],
        ll: cfa[i - 2],
        rr: cfa[i + 2],
        ul: cfa[i - w - 1],
        ur: cfa[i - w + 1],
        dl: cfa[i + w - 1],
        dr: cfa[i + w + 1],
    }
}

/// The channels `(R, G, B)` at a centre behind filter `s`.
fn assign<U>(s: Site, f: Filtered<U>) -> (rgb: (U, U, U))
    ensures
        rgb == channels(s, f),
{
    match s {
        Site::Gr => (f.at_g_hrow, f.c, f.at_g_vcol),
        Site::R => (f.c, f.g_at_rb, f.at_diag),
        Site::B => (f.at_diag, f.g_at_rb, f.c),
        Site::Gb => (f.at_g_vcol, f.c, f.at_g_hrow),
    }
}

/// Malvar-He-Cutler interpolation of the full RGB triple at `(y, x)`, borders
/// replicated.
pub fn mhc_rgb_at<T: Copy, U, K: Debayer<T, U>>(
    cfa: &[T],
    w: usize,
    h: usize,
    y: usize,
    x: usize,
    k: &K,
) -> (rgb: (U, U, U))
    requires
        cfa.len() == h * w,
        y < h,
        x < w,
    ensures
        is_mhc(*k, cfa@, w as int, h as int, y as int, x as int, rgb),
{
    let t: Taps<T> = gather(cfa, w, h, y, x);
    let f: Filtered<U> = k.filters(t);
    assign(site(y, x), f)
}

/// Malvar-He-Cutler interpolation for an interior pixel (at least two from every
/// edge), by direct offsets with no bounds clamping.
pub fn mhc_rgb_interior<T: Copy, U, K: Debayer<T, U>>(
    cfa: &[T],
    w: usize,
    h: usize,
    y: usize,
    x: usize,
    k: &K,
) -> (rgb: (U, U, U))
    requires
        cfa.len() == h * w,
        2 <= y,
        y + 2 < h,
        2 <= x,
        x + 2 < w,
    ensures
        is_mhc(*k, cfa@, w as int, h as int, y as int, x as int, rgb),
{
    let t: Taps<T> = gather_interior(cfa, w, h, y, x);
    let f: Filtered<U> = k.filters(t);
    assign(site(y, x), f)
}

/// The triple at any pixel: interior pixels take the unclamped fast path, the
/// two-pixel border the clamped one.
pub fn mhc_rgb<T: Copy, U, K: Debayer<T, U>>(
    cfa: &[T],
    w: usize,
    h: usize,
    y: usize,
    x: usize,
    k: &K,
) -> (rgb: (U, U, U))
    requires
        cfa.len() == h * w,
        y < h,
        x < w,
    ensures
        is_mhc(*k, cfa@, w as int, h as int, y as int, x as int, rgb),
{
    if y >= 2 && h - y > 2 && x >= 2 && w - x > 2 {
        mhc_rgb_interior(cfa, w, h, y, x, k)
    } else {
        mhc_rgb_at(cfa, w, h, y, x, k)
    }
}

/// A full-resolution image as three planes of `w*h` each.
#[derive(Debug, Clone, PartialEq, Eq)]
pub struct Planar<U> {
    pub w: usize,
    pub h: usize,
    pub r: Vec<U>,
    pub g: Vec<U>,
    pub b: Vec<U>,
}

impl<U> Planar<U> {
    /// The planes fill the stated geometry.
    pub open spec fn wf(&self) -> bool {
        &&& self.r.len() == self.h * self.w
        &&& self.g.len() == self.h * self.w
        &&& self.b.len() == self.h * self.w
    }

    /// The triple in row `y`, column `x`.
    pub open spec fn rgb(&self, y: int, x: int) -> (U, U, U) {
        (
            at(self.r@, self.w as int, y, x),
            at(self.g@, self.w as int, y, x),
            at(self.b@, self.w as int, y, x),
        )
    }
}

/// `out` is the debayered image: every triple is the one interpolated there.
pub open spec fn is_planar<T, U, K: Debayer<T, U>>(
    k: K,
    cfa: Seq<T>,
    w: int,
    h: int,
    out: Planar<U>,
) -> bool {
    &&& out.w == w
    &&& out.h == h
    &&& out.wf()
    &&& forall|y: int, x: int|
        0 <= y < h && 0 <= x < w ==> is_mhc(k, cfa, w, h, y, x, #[trigger] out.rgb(y, x))
}

/// MHC debayer of `cfa` into planar RGB, row-parallel.
pub fn mhc_to_planar<T: Copy + Send + Sync, U: Copy + Send + Sync, K: Debayer<T, U>>(
    cfa: &[T],
    w: usize,
    h: usize,
    k: &K,
) -> (out: Planar<U>)
    requires
        cfa.len() == h * w,
    ensures
        is_planar(*k, cfa@, w as int, h as int, out),
{
    let cell = |y: usize, x: usize| -> (rgb: (U, U, U))
        requires
            y < h,
            x < w,
        ensures
            is_mhc(*k, cfa@, w as int, h as int, y as int, x as int, rgb),
        { mhc_rgb(cfa, w, h, y, x, k) };
    let px: Vec<(U, U, U)> = grid(h, w, &cell);
    let n: usize = px.len();
    let red = |i: usize| -> (u: U)
        requires
            i < px.len(),
        ensures
            u == px[i as int].0,
        { px[i].0 };
    let green = |i: usize| -> (u: U)
        requires
            i < px.len(),
        ensures
            u == px[i as int].1,
        { px[i].1 };
    let blue = |i: usize| -> (u: U)
        requires
            i < px.len(),
        ensures
            u == px[i as int].2,
        { px[i].2 };
    let out = Planar {
        w,
        h,
        r: tabulate(n, &red),
        g: tabulate(n, &green),
        b: tabulate(n, &blue),
    };
    assert forall|y: int, x: int| 0 <= y < h && 0 <= x < w implies is_mhc(
        *k,
        cfa@,
        w as int,
        h as int,
        y,
        x,
        #[trigger] out.rgb(y, x),
    ) by {
        lemma_cell(h as int, w as int, y, x);
        assert(call_ensures(cell, (y as usize, x as usize), at(px@, w as int, y, x)));
        assert(out.rgb(y, x) == at(px@, w as int, y, x));
    }
    out
}

/// The filters on integer samples, in sixteenths of a sample.
pub open spec fn filters16_spec(t: Taps<u16>) -> Filtered<int> {
    let axis = t.uu + t.dd + t.ll + t.rr;
    let diag = t.ul + t.ur + t.dl + t.dr;
    Filtered {
        c: 16 * t.c,
        g_at_rb: 8 * t.c + 4 * (t.up + t.dn + t.lf + t.rt) - 2 * axis,
        at_g_hrow: 10 * t.c + 8 * (t.lf + t.rt) - 2 * (t.ll + t.rr) - 2 * diag + (t.uu + t.dd),
        at_g_vcol: 10 * t.c + 8 * (t.up + t.dn) - 2 * (t.uu + t.dd) - 2 * diag + (t.ll + t.rr),
        at_diag: 12 * t.c + 4 * diag - 3 * axis,
    }
}

/// The machine-integer result holds the mathematical one.
pub open spec fn filtered_as_int(f: Filtered<i32>) -> Filtered<int> {
    Filtered {
        c: f.c as int,
        g_at_rb: f.g_at_rb as int,
        at_g_hrow: f.at_g_hrow as int,
        at_g_vcol: f.at_g_vcol as int,
        at_diag: f.at_diag as int,
    }
}

/// The filters on integer samples, in sixteenths of a sample: the canonical 1/8
/// normalisation with its half-integer coefficients, exact.
#[derive(Debug, Clone, Copy, PartialEq, Eq)]
pub struct Sixteenths;

impl Debayer<u16, i32> for Sixteenths {
    fn filters(&self, t: Taps<u16>) -> (f: Filtered<i32>)
        ensures
            filtered_as_int(f) == filters16_spec(t),
    {
        let c: i32 = t.c as i32;
        let vert: i32 = t.up as i32 + t.dn as i32;
        let horz: i32 = t.lf as i32 + t.rt as i32;
        let vert2: i32 = t.uu as i32 + t.dd as i32;
        let horz2: i32 = t.ll as i32 + t.rr as i32;
        let diag: i32 = t.ul as i32 + t.ur as i32 + t.dl as i32 + t.dr as i32;
        Filtered {
            c: 16 * c,
            g_at_rb: 8 * c + 4 * (vert + horz) - 2 * (vert2 + horz2),
            at_g_hrow: 10 * c + 8 * horz - 2 * horz2 - 2 * diag + vert2,
            at_g_vcol: 10 * c + 8 * vert - 2 * vert2 - 2 * diag + horz2,
            at_diag: 12 * c + 4 * diag - 3 * (vert2 + horz2),
        }
    }
}

/// The debayered triple of an integer mosaic at `(y, x)`, in sixteenths.
pub open spec fn mhc16(cfa: Seq<u16>, w: int, h: int, y: int, x: int) -> (int, int, int) {
    channels(site_at(y, x), filters16_spec(taps_at(cfa, w, h, y, x)))
}

/// In sixteenths the debayered triple is exact.
pub proof fn law_sixteenths_are_exact(
    cfa: Seq<u16>,
    w: int,
    h: int,
    y: int,
    x: int,
    rgb: (i32, i32, i32),
)
    requires
        is_mhc(Sixteenths, cfa, w, h, y, x, rgb),
    ensures
        rgb.0 == mhc16(cfa, w, h, y, x).0,
        rgb.1 == mhc16(cfa, w, h, y, x).1,
        rgb.2 == mhc16(cfa, w, h, y, x).2,
{
}

/// The triple in row `y`, column `x` of a planar `[R | G | B]` buffer.
pub open spec fn planar_rgb<U>(out: Seq<U>, w: int, h: int, y: int, x: int) -> (U, U, U) {
    (out[y * w + x], out[h * w + y * w + x], out[2 * (h * w) + y * w + x])
}

/// `out` is the debayered image as one planar `[R | G | B]` buffer.
pub open spec fn is_debayered<T, U, K: Debayer<T, U>>(
    k: K,
    cfa: Seq<T>,
    w: int,
    h: int,
    out: Seq<U>,
) -> bool {
    &&& out.len() == 3 * (h * w)
    &&& forall|y: int, x: int|
        0 <= y < h && 0 <= x < w ==> is_mhc(
            k,
            cfa,
            w,
            h,
            y,
            x,
            #[trigger] planar_rgb(out, w, h, y, x),
        )
}

/// MHC debayer of a CFA into a planar `[R | G | B]` buffer (`3*w*h`), pixel by pixel
/// with clamped access throughout. Used to validate the debayer against a reference;
/// the runtime paths take the fast ones ([`mhc_to_planar`]).
pub fn mhc_debayer<T: Copy, U, K: Debayer<T, U>>(cfa: &[T], w: usize, h: usize, k: &K) -> (planar:
    Vec<U>)
    requires
        cfa.len() == h * w,
        3 * (h * w) <= usize::MAX,
    ensures
        is_debayered(*k, cfa@, w as int, h as int, planar@),
{
    let n: usize = cfa.len();
    let mut r: Vec<U> = Vec::with_capacity(3 * n);
    let mut g: Vec<U> = Vec::with_capacity(n);
    let mut b: Vec<U> = Vec::with_capacity(n);
    let mut i: usize = 0;
    while i < n
        invariant
            n == cfa.len(),
            cfa.len() == h * w,
            i <= n,
            r.len() == i,
            g.len() == i,
            b.len() == i,
            forall|j: int|
                0 <= j < i ==> is_mhc(
                    *k,
                    cfa@,
                    w as int,
                    h as int,
                    j / (w as int),
                    j % (w as int),
                    (#[trigger] r@[j], g@[j], b@[j]),
                ),
        decreases n - i,
    {
        proof {
            lemma_cell_of_index(h as int, w as int, i as int);
        }
        let (cr, cg, cb): (U, U, U) = mhc_rgb_at(cfa, w, h, i / w, i % w, k);
        r.push(cr);
        g.push(cg);
        b.push(cb);
        i += 1;
    }
    let ghost (r0, g0, b0) = (r@, g@, b@);
    r.append(&mut g);
    r.append(&mut b);
    assert forall|y: int, x: int| 0 <= y < h && 0 <= x < w implies is_mhc(
        *k,
        cfa@,
        w as int,
        h as int,
        y,
        x,
        #[trigger] planar_rgb(r@, w as int, h as int, y, x),
    ) by {
        lemma_cell(h as int, w as int, y, x);
        let j = y * w + x;
        vstd::arithmetic::div_mod::lemma_fundamental_div_mod_converse(j, w as int, y, x);
        assert(r@[j] == r0[j] && r@[h * w + j] == g0[j] && r@[2 * (h * w) + j] == b0[j]);
    }
    r
}

/// On a flat field every channel of every pixel is the field's level: the
/// filters have unit gain, borders included.
pub proof fn law_flat_field(cfa: Seq<u16>, w: int, h: int, level: u16, y: int, x: int)
    requires
        cfa.len() == h * w,
        0 <= y < h,
        0 <= x < w,
        forall|i: int| 0 <= i < cfa.len() ==> cfa[i] == level,
    ensures
        mhc16(cfa, w, h, y, x) == (16 * level, 16 * level, 16 * level),
{
    assert forall|yy: int, xx: int| #[trigger] cfa_sample(cfa, w, h, yy, xx) == level by {
        lemma_cell(h, w, clamped(yy, h), clamped(xx, w));
    }
}

/// On a luminance ramp (every sample an affine function of its position, whatever
/// its filter) an interior pixel gets its own sample in all three channels: the
/// gradient correction is exact.
pub proof fn law_ramp_is_reproduced(
    cfa: Seq<u16>,
    w: int,
    h: int,
    base: int,
    down: int,
    right: int,
    y: int,
    x: int,
)
    requires
        cfa.len() == h * w,
        2 <= y < h - 2,
        2 <= x < w - 2,
        forall|yy: int, xx: int|
            0 <= yy < h && 0 <= xx < w ==> #[trigger] at(cfa, w, yy, xx) == base + down * yy + right
                * xx,
    ensures
        mhc16(cfa, w, h, y, x) == (
            16 * at(cfa, w, y, x) as int,
            16 * at(cfa, w, y, x) as int,
            16 * at(cfa, w, y, x) as int,
        ),
{
    let c = base + down * y + right * x;
    assert forall|dy: int, dx: int|
        -2 <= dy <= 2 && -2 <= dx <= 2 implies #[trigger] cfa_sample(cfa, w, h, y + dy, x + dx) == c
        + down * dy + right * dx by {
        assert(down * (y + dy) == down * y + down * dy) by (nonlinear_arith);
        assert(right * (x + dx) == right * x + right * dx) by (nonlinear_arith);
        assert(at(cfa, w, y + dy, x + dx) == base + down * (y + dy) + right * (x + dx));
    }
    let t = taps_at(cfa, w, h, y, x);
    assert(t.c == cfa_sample(cfa, w, h, y + 0, x + 0));
    assert(t.up == cfa_sample(cfa, w, h, y + -1, x + 0));
    assert(t.dn == cfa_sample(cfa, w, h, y + 1, x + 0));
    assert(t.lf == cfa_sample(cfa, w, h, y + 0, x + -1));
    assert(t.rt == cfa_sample(cfa, w, h, y + 0, x + 1));
    assert(t.uu == cfa_sample(cfa, w, h, y + -2, x + 0));
    assert(t.dd == cfa_sample(cfa, w, h, y + 2, x + 0));
    assert(t.ll == cfa_sample(cfa, w, h, y + 0, x + -2));
    assert(t.rr == cfa_sample(cfa, w, h, y + 0, x + 2));
    assert(t.ul == cfa_sample(cfa, w, h, y + -1, x + -1));
    assert(t.ur == cfa_sample(cfa, w, h, y + -1, x + 1));
    assert(t.dl == cfa_sample(cfa, w, h, y + 1, x + -1));
    assert(t.dr == cfa_sample(cfa, w, h, y + 1, x + 1));
    assert(at(cfa, w, y, x) == c);
}

/// The level of the colour over row `y`, column `x`: green where both are even or both are
/// odd, red in the other places of even rows, blue in those of odd ones.
pub open spec fn level_over(red: int, green: int, blue: int, y: int, x: int) -> int {
    if y % 2 == x % 2 {
        green
    } else if y % 2 == 0 {
        red
    } else {
        blue
    }
}

/// A coloured ramp is reproduced: where each colour has its own level and all rise
/// alike down and across, an interior pixel gets the level of red, of green and of blue
/// at its own place, two of them interpolated whatever its filter.
pub proof fn law_coloured_ramp_is_reproduced(
    cfa: Seq<u16>,
    w: int,
    h: int,
    red: int,
    green: int,
    blue: int,
    down: int,
    right: int,
    y: int,
    x: int,
    rgb: (i32, i32, i32),
)
    requires
        is_mhc(Sixteenths, cfa, w, h, y, x, rgb),
        cfa.len() == h * w,
        2 <= y < h - 2,
        2 <= x < w - 2,
        forall|yy: int, xx: int|
            0 <= yy < h && 0 <= xx < w ==> #[trigger] cfa[yy * w + xx] == level_over(
                red,
                green,
                blue,
                yy,
                xx,
            ) + down * yy + right * xx,
    ensures
        rgb.0 == 16 * (red + down * y + right * x),
        rgb.1 == 16 * (green + down * y + right * x),
        rgb.2 == 16 * (blue + down * y + right * x),
{
    let c = down * y + right * x;
    assert forall|dy: int, dx: int|
        -2 <= dy <= 2 && -2 <= dx <= 2 implies #[trigger] cfa_sample(cfa, w, h, y + dy, x + dx)
        == level_over(red, green, blue, y + dy, x + dx) + c + down * dy + right * dx by {
        assert(down * (y + dy) == down * y + down * dy) by (nonlinear_arith);
        assert(right * (x + dx) == right * x + right * dx) by (nonlinear_arith);
        let v = cfa[(y + dy) * w + (x + dx)];
    }
    let t = taps_at(cfa, w, h, y, x);
    assert(t.c == cfa_sample(cfa, w, h, y + 0, x + 0));
    assert(t.up == cfa_sample(cfa, w, h, y + -1, x + 0));
    assert(t.dn == cfa_sample(cfa, w, h, y + 1, x + 0));
    assert(t.lf == cfa_sample(cfa, w, h, y + 0, x + -1));
    assert(t.rt == cfa_sample(cfa, w, h, y + 0, x + 1));
    assert(t.uu == cfa_sample(cfa, w, h, y + -2, x + 0));
    assert(t.dd == cfa_sample(cfa, w, h, y + 2, x + 0));
    assert(t.ll == cfa_sample(cfa, w, h, y + 0, x + -2));
    assert(t.rr == cfa_sample(cfa, w, h, y + 0, x + 2));
    assert(t.ul == cfa_sample(cfa, w, h, y + -1, x + -1));
    assert(t.ur == cfa_sample(cfa, w, h, y + -1, x + 1));
    assert(t.dl == cfa_sample(cfa, w, h, y + 1, x + -1));
    assert(t.dr == cfa_sample(cfa, w, h, y + 1, x + 1));
    let over = level_over(red, green, blue, y, x);
    let beside = level_over(red, green, blue, y, x + 1);
    let above = level_over(red, green, blue, y + 1, x);
    let across = level_over(red, green, blue, y + 1, x + 1);
    assert((y - 1) % 2 == (y + 1) % 2 && (x - 1) % 2 == (x + 1) % 2);
    assert((y - 2) % 2 == y % 2 && (y + 2) % 2 == y % 2);
    assert((x - 2) % 2 == x % 2 && (x + 2) % 2 == x % 2);
    lemma_coloured_taps(t, over, beside, above, across, c, down, right);
    law_sixteenths_are_exact(cfa, w, h, y, x, rgb);
}

/// The filters on the taps of a coloured ramp, by the colours over, beside, above and
/// diagonally across from the centre.
proof fn lemma_coloured_taps(
    t: Taps<u16>,
    over: int,
    beside: int,
    above: int,
    across: int,
    c: int,
    down: int,
    right: int,
)
    requires
        t.c == over + c,
        t.up == above + c - down,
        t.dn == above + c + down,
        t.lf == beside + c - right,
        t.rt == beside + c + right,
        t.uu == over + c - 2 * down,
        t.dd == over + c + 2 * down,
        t.ll == over + c - 2 * right,
        t.rr == over + c + 2 * right,
        t.ul == across + c - down - right,
        t.ur == across + c - down + right,
        t.dl == across + c + down - right,
        t.dr == across + c + down + right,
    ensures
        ({
            let f = filters16_spec(t);
            &&& f.c == 16 * (over + c)
            &&& beside == above ==> f.g_at_rb == 16 * (beside + c)
            &&& across == over ==> f.at_g_hrow == 16 * (beside + c)
            &&& across == over ==> f.at_g_vcol == 16 * (above + c)
            &&& f.at_diag == 16 * (across + c)
        }),
{
}

/// Borders replicate: what a pixel gets is what it gets in a mosaic that carries two more
/// rows and columns on every side, copies of the outermost ones.
pub proof fn law_borders_replicate<T, U, K: Debayer<T, U>>(
    k: K,
    cfa: Seq<T>,
    w: int,
    h: int,
    wide: Seq<T>,
    y: int,
    x: int,
    rgb: (U, U, U),
)
    requires
        0 <= y < h,
        0 <= x < w,
        forall|yy: int, xx: int|
            0 <= yy < h + 4 && 0 <= xx < w + 4 ==> #[trigger] wide[yy * (w + 4) + xx] == cfa[(
            if yy < 2 {
                0
            } else if yy < h + 2 {
                yy - 2
            } else {
                h - 1
            }) * w + (if xx < 2 {
                0
            } else if xx < w + 2 {
                xx - 2
            } else {
                w - 1
            })],
    ensures
        is_mhc(k, cfa, w, h, y, x, rgb) == is_mhc(k, wide, w + 4, h + 4, y + 2, x + 2, rgb),
{
    assert forall|dy: int, dx: int| -2 <= dy <= 2 && -2 <= dx <= 2 implies #[trigger] cfa_sample(
        cfa,
        w,
        h,
        y + dy,
        x + dx,
    ) == cfa_sample(wide, w + 4, h + 4, y + 2 + dy, x + 2 + dx) by {
        let v = wide[(y + 2 + dy) * (w + 4) + (x + 2 + dx)];
    }
    let t = taps_at(cfa, w, h, y, x);
    assert(t.c == cfa_sample(cfa, w, h, y + 0, x + 0));
    assert(t.up == cfa_sample(cfa, w, h, y + -1, x + 0));
    assert(t.dn == cfa_sample(cfa, w, h, y + 1, x + 0));
    assert(t.lf == cfa_sample(cfa, w, h, y + 0, x + -1));
    assert(t.rt == cfa_sample(cfa, w, h, y + 0, x + 1));
    assert(t.uu == cfa_sample(cfa, w, h, y + -2, x + 0));
    assert(t.dd == cfa_sample(cfa, w, h, y + 2, x + 0));
    assert(t.ll == cfa_sample(cfa, w, h, y + 0, x + -2));
    assert(t.rr == cfa_sample(cfa, w, h, y + 0, x + 2));
    assert(t.ul == cfa_sample(cfa, w, h, y + -1, x + -1));
    assert(t.ur == cfa_sample(cfa, w, h, y + -1, x + 1));
    assert(t.dl == cfa_sample(cfa, w, h, y + 1, x + -1));
    assert(t.dr == cfa_sample(cfa, w, h, y + 1, x + 1));
    assert(t == taps_at(wide, w + 4, h + 4, y + 2, x + 2));
}

/// How far a sample `dy` rows and `dx` columns away counts, in sixteenths, for a channel
/// at a centre behind a filter.
pub open spec fn tap_weight(s: Site, channel: int, dy: int, dx: int) -> int {
    let own = match s {
        Site::R => channel == 0,
        Site::B => channel == 2,
        Site::Gr | Site::Gb => channel == 1,
    };
    let ay = if dy < 0 {
        -dy
    } else {
        dy
    };
    let ax = if dx < 0 {
        -dx
    } else {
        dx
    };
    let (far, near) = if ay > ax {
        (ay, ax)
    } else {
        (ax, ay)
    };
    if own {
        if far == 0 {
            16
        } else {
            0
        }
    } else if channel == 1 {
        // Green at red or blue: the four beside it, corrected by the centre's colour.
        if far == 0 {
            8
        } else if far == 1 && near == 0 {
            4
        } else if far == 2 && near == 0 {
            -2
        } else {
            0
        }
    } else if s == Site::R || s == Site::B {
        // Across the diagonal.
        if far == 0 {
            12
        } else if far == 1 && near == 1 {
            4
        } else if far == 2 && near == 0 {
            -3
        } else {
            0
        }
    } else {
        // At green, along the row of its colour, or along the column of the other.
        let along = if (s == Site::Gr) == (channel == 0) {
            ax
        } else {
            ay
        };
        if far == 0 {
            10
        } else if far == 1 && near == 1 {
            -2
        } else if far == 1 && near == 0 {
            if along == 1 {
                8
            } else {
                0
            }
        } else if far == 2 && near == 0 {
            if along == 2 {
                -2
            } else {
                1
            }
        } else {
            0
        }
    }
}

/// A single sample spreads by the filters: where two mosaics differ in one sample, up to
/// two rows and columns away from an interior pixel, each of its channels differs by that
/// sample's weight times the difference.
pub proof fn law_sample_spreads_by_its_weight(
    a: Seq<u16>,
    b: Seq<u16>,
    w: int,
    h: int,
    y: int,
    x: int,
    dy: int,
    dx: int,
    v: u16,
    ra: (i32, i32, i32),
    rb: (i32, i32, i32),
)
    requires
        a.len() == h * w,
        2 <= y < h - 2,
        2 <= x < w - 2,
        -2 <= dy <= 2,
        -2 <= dx <= 2,
        b == a.update((y + dy) * w + (x + dx), v),
        is_mhc(Sixteenths, a, w, h, y, x, ra),
        is_mhc(Sixteenths, b, w, h, y, x, rb),
    ensures
        ({
            let s = site_at(y, x);
            let d = v - a[(y + dy) * w + (x + dx)];
            &&& rb.0 - ra.0 == tap_weight(s, 0, dy, dx) * d
            &&& rb.1 - ra.1 == tap_weight(s, 1, dy, dx) * d
            &&& rb.2 - ra.2 == tap_weight(s, 2, dy, dx) * d
        }),
{
    let i = (y + dy) * w + (x + dx);
    let d = v - a[i];
    lemma_cell(h, w, y + dy, x + dx);
    assert forall|ey: int, ex: int| -2 <= ey <= 2 && -2 <= ex <= 2 implies #[trigger] cfa_sample(
        b,
        w,
        h,
        y + ey,
        x + ex,
    ) == cfa_sample(a, w, h, y + ey, x + ex) + one_at(dy, dx, ey, ex, d) by {
        lemma_cell(h, w, y + ey, x + ex);
        let j = (y + ey) * w + (x + ex);
        if i == j {
            vstd::arithmetic::div_mod::lemma_fundamental_div_mod_converse(i, w, y + dy, x + dx);
            vstd::arithmetic::div_mod::lemma_fundamental_div_mod_converse(j, w, y + ey, x + ex);
        }
    }
    let (ta, tb) = (taps_at(a, w, h, y, x), taps_at(b, w, h, y, x));
    assert(tb.c == cfa_sample(b, w, h, y + 0, x + 0));
    assert(tb.up == cfa_sample(b, w, h, y + -1, x + 0));
    assert(tb.dn == cfa_sample(b, w, h, y + 1, x + 0));
    assert(tb.lf == cfa_sample(b, w, h, y + 0, x + -1));
    assert(tb.rt == cfa_sample(b, w, h, y + 0, x + 1));
    assert(tb.uu == cfa_sample(b, w, h, y + -2, x + 0));
    assert(tb.dd == cfa_sample(b, w, h, y + 2, x + 0));
    assert(tb.ll == cfa_sample(b, w, h, y + 0, x + -2));
    assert(tb.rr == cfa_sample(b, w, h, y + 0, x + 2));
    assert(tb.ul == cfa_sample(b, w, h, y + -1, x + -1));
    assert(tb.ur == cfa_sample(b, w, h, y + -1, x + 1));
    assert(tb.dl == cfa_sample(b, w, h, y + 1, x + -1));
    assert(tb.dr == cfa_sample(b, w, h, y + 1, x + 1));
    law_sixteenths_are_exact(a, w, h, y, x, ra);
    law_sixteenths_are_exact(b, w, h, y, x, rb);
    lemma_tap_spreads(site_at(y, x), ta, tb, dy, dx, d);
}

/// Where the taps differ in the one at `(dy, dx)`, the channels differ by its weight.
proof fn lemma_tap_spreads(s: Site, ta: Taps<u16>, tb: Taps<u16>, dy: int, dx: int, d: int)
    requires
        -2 <= dy <= 2,
        -2 <= dx <= 2,
        tb.c - ta.c == one_at(dy, dx, 0, 0, d),
        tb.up - ta.up == one_at(dy, dx, -1, 0, d),
        tb.dn - ta.dn == one_at(dy, dx, 1, 0, d),
        tb.lf - ta.lf == one_at(dy, dx, 0, -1, d),
        tb.rt - ta.rt == one_at(dy, dx, 0, 1, d),
        tb.uu - ta.uu == one_at(dy, dx, -2, 0, d),
        tb.dd - ta.dd == one_at(dy, dx, 2, 0, d),
        tb.ll - ta.ll == one_at(dy, dx, 0, -2, d),
        tb.rr - ta.rr == one_at(dy, dx, 0, 2, d),
        tb.ul - ta.ul == one_at(dy, dx, -1, -1, d),
        tb.ur - ta.ur == one_at(dy, dx, -1, 1, d),
        tb.dl - ta.dl == one_at(dy, dx, 1, -1, d),
        tb.dr - ta.dr == one_at(dy, dx, 1, 1, d),
    ensures
        ({
            let ca = channels(s, filters16_spec(ta));
            let cb = channels(s, filters16_spec(tb));
            &&& cb.0 - ca.0 == tap_weight(s, 0, dy, dx) * d
            &&& cb.1 - ca.1 == tap_weight(s, 1, dy, dx) * d
            &&& cb.2 - ca.2 == tap_weight(s, 2, dy, dx) * d
        }),
{
    let (fa, fb) = (filters16_spec(ta), filters16_spec(tb));
    let centre = one_at(dy, dx, 0, 0, d);
    let col = one_at(dy, dx, -1, 0, d) + one_at(dy, dx, 1, 0, d);
    let row = one_at(dy, dx, 0, -1, d) + one_at(dy, dx, 0, 1, d);
    let col2 = one_at(dy, dx, -2, 0, d) + one_at(dy, dx, 2, 0, d);
    let row2 = one_at(dy, dx, 0, -2, d) + one_at(dy, dx, 0, 2, d);
    let diag = one_at(dy, dx, -1, -1, d) + one_at(dy, dx, -1, 1, d) + one_at(dy, dx, 1, -1, d)
        + one_at(dy, dx, 1, 1, d);
    assert(fb.c - fa.c == 16 * centre);
    assert(fb.g_at_rb - fa.g_at_rb == 8 * centre + 4 * col + 4 * row - 2 * col2 - 2 * row2);
    assert(fb.at_g_hrow - fa.at_g_hrow == 10 * centre + 8 * row - 2 * row2 - 2 * diag + col2);
    assert(fb.at_g_vcol - fa.at_g_vcol == 10 * centre + 8 * col - 2 * col2 - 2 * diag + row2);
    assert(fb.at_diag - fa.at_diag == 12 * centre + 4 * diag - 3 * col2 - 3 * row2);
    lemma_weighed(tap_weight(s, 0, dy, dx), d);
    lemma_weighed(tap_weight(s, 1, dy, dx), d);
    lemma_weighed(tap_weight(s, 2, dy, dx), d);
    let own = 16 * centre;
    let across = 12 * centre + 4 * diag - 3 * col2 - 3 * row2;
    let green = 8 * centre + 4 * col + 4 * row - 2 * col2 - 2 * row2;
    let along = 10 * centre + 8 * row - 2 * row2 - 2 * diag + col2;
    let down = 10 * centre + 8 * col - 2 * col2 - 2 * diag + row2;
    match s {
        Site::Gr => {
            assert(along == tap_weight(s, 0, dy, dx) * d);
            assert(own == tap_weight(s, 1, dy, dx) * d);
            assert(down == tap_weight(s, 2, dy, dx) * d);
        },
        Site::R => {
            assert(own == tap_weight(s, 0, dy, dx) * d);
            assert(green == tap_weight(s, 1, dy, dx) * d);
            assert(across == tap_weight(s, 2, dy, dx) * d);
        },
        Site::B => {
            assert(across == tap_weight(s, 0, dy, dx) * d);
            assert(green == tap_weight(s, 1, dy, dx) * d);
            assert(own == tap_weight(s, 2, dy, dx) * d);
        },
        Site::Gb => {
            assert(down == tap_weight(s, 0, dy, dx) * d);
            assert(own == tap_weight(s, 1, dy, dx) * d);
            assert(along == tap_weight(s, 2, dy, dx) * d);
        },
    }
}

/// The difference where two places agree, and none elsewhere.
pub open spec fn one_at(dy: int, dx: int, ey: int, ex: int, d: int) -> int {
    if dy == ey && dx == ex {
        d
    } else {
        0
    }
}

/// The filters' weights times a difference.
proof fn lemma_weighed(wt: int, d: int)
    ensures
        wt == -3 ==> wt * d == -3 * d,
        wt == -2 ==> wt * d == -2 * d,
        wt == 0 ==> wt * d == 0,
        wt == 1 ==> wt * d == d,
        wt == 4 ==> wt * d == 4 * d,
        wt == 8 ==> wt * d == 8 * d,
        wt == 10 ==> wt * d == 10 * d,
        wt == 12 ==> wt * d == 12 * d,
        wt == 16 ==> wt * d == 16 * d,
{
}

/// The planar buffer is the red plane, then the green one, then the blue one: of a coloured
/// ramp, as in [`law_coloured_ramp_is_reproduced`], each holds the ramp of its own colour.
pub proof fn law_planes_follow_each_other(
    cfa: Seq<u16>,
    w: int,
    h: int,
    red: int,
    green: int,
    blue: int,
    down: int,
    right: int,
    out: Seq<i32>,
    y: int,
    x: int,
)
    requires
        is_debayered(Sixteenths, cfa, w, h, out),
        cfa.len() == h * w,
        2 <= y < h - 2,
        2 <= x < w - 2,
        forall|yy: int, xx: int|
            0 <= yy < h && 0 <= xx < w ==> #[trigger] cfa[yy * w + xx] == level_over(
                red,
                green,
                blue,
                yy,
                xx,
            ) + down * yy + right * xx,
    ensures
        out.len() == 3 * (h * w),
        out[y * w + x] == 16 * (red + down * y + right * x),
        out[h * w + y * w + x] == 16 * (green + down * y + right * x),
        out[2 * (h * w) + y * w + x] == 16 * (blue + down * y + right * x),
{
    let rgb = planar_rgb(out, w, h, y, x);
    assert(is_mhc(Sixteenths, cfa, w, h, y, x, rgb));
    law_coloured_ramp_is_reproduced(cfa, w, h, red, green, blue, down, right, y, x, rgb);
}

} // verus!
