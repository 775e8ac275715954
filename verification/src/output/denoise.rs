//! Denoising packed YUYV frames: spatial on the chroma, temporal on the luma.
//!
//! Which samples meet which, and what stays untouched, stand here; the weighted
//! averages themselves are real-valued and come in as functions of two samples.

use vstd::prelude::*;

use crate::rows::{at, grid, lemma_cell, lemma_cell_of_index};

verus! {

/// Sum of `f` over `lo..hi`.
pub open spec fn sum_over(f: spec_fn(int) -> int, lo: int, hi: int) -> int
    decreases hi - lo,
{
    if hi <= lo {
        0
    } else {
        sum_over(f, lo, hi - 1) + f(hi - 1)
    }
}

/// First place of the window of half-width `r` around `i`, cut at the border.
pub open spec fn window_lo(i: int, r: int) -> int {
    if i < r {
        0
    } else {
        i - r
    }
}

/// Last place of the window of half-width `r` around `i` among `n`, cut at the
/// border.
pub open spec fn window_hi(i: int, r: int, n: int) -> int {
    if i + r < n {
        i + r
    } else {
        n - 1
    }
}

/// Mean, rounded down, of `f` over the window of half-width `r` around `i`.
pub open spec fn window_mean(f: spec_fn(int) -> int, i: int, r: int, n: int) -> int {
    sum_over(f, window_lo(i, r), window_hi(i, r, n) + 1) / (window_hi(i, r, n) - window_lo(i, r) + 1)
}

/// The horizontal pass at `(y, x)`.
pub open spec fn row_blurred(src: Seq<u16>, w: int, r: int, y: int, x: int) -> int {
    window_mean(|i: int| at(src, w, y, i) as int, x, r, w)
}

/// Separable box blur at `(y, x)`: the horizontal pass, then the vertical.
pub open spec fn blurred(src: Seq<u16>, w: int, h: int, r: int, y: int, x: int) -> int {
    window_mean(|i: int| row_blurred(src, w, r, i, x), y, r, h)
}

/// Sums respect bounds.
proof fn lemma_sum_bounds(f: spec_fn(int) -> int, lo: int, hi: int, least: int, most: int)
    requires
        lo <= hi,
        forall|i: int| lo <= i < hi ==> least <= #[trigger] f(i) <= most,
    ensures
        least * (hi - lo) <= sum_over(f, lo, hi) <= most * (hi - lo),
    decreases hi - lo,
{
    if lo < hi {
        lemma_sum_bounds(f, lo, hi - 1, least, most);
        assert(least <= f(hi - 1) <= most);
        assert(least * (hi - lo) == least * (hi - 1 - lo) + least) by (nonlinear_arith);
        assert(most * (hi - lo) == most * (hi - 1 - lo) + most) by (nonlinear_arith);
    } else {
        assert(least * 0 == 0 && most * 0 == 0) by (nonlinear_arith);
    }
}

/// A window mean lies between the least and the greatest value in the window.
proof fn lemma_window_mean(f: spec_fn(int) -> int, i: int, r: int, n: int, least: int, most: int)
    requires
        0 <= i < n,
        0 <= r,
        forall|j: int|
            window_lo(i, r) <= j <= window_hi(i, r, n) ==> least <= #[trigger] f(j) <= most,
    ensures
        least <= window_mean(f, i, r, n) <= most,
{
    let (lo, hi) = (window_lo(i, r), window_hi(i, r, n) + 1);
    let (sum, count) = (sum_over(f, lo, hi), hi - lo);
    lemma_sum_bounds(f, lo, hi, least, most);
    vstd::arithmetic::div_mod::lemma_div_is_ordered(least * count, sum, count);
    vstd::arithmetic::div_mod::lemma_div_is_ordered(sum, most * count, count);
    vstd::arithmetic::div_mod::lemma_div_multiples_vanish(least, count);
    vstd::arithmetic::div_mod::lemma_div_multiples_vanish(most, count);
    assert(least * count == count * least && most * count == count * most) by (nonlinear_arith);
}

/// Blurring invents nothing: every blurred value lies between the least and the
/// greatest value in the window around it. Where the window is flat, the value is
/// therefore kept as it is.
pub proof fn law_blur_stays_in_range(
    src: Seq<u16>,
    w: int,
    h: int,
    r: int,
    y: int,
    x: int,
    least: int,
    most: int,
)
    requires
        src.len() == h * w,
        0 <= r,
        0 <= y < h,
        0 <= x < w,
        forall|i: int, j: int|
            window_lo(y, r) <= i <= window_hi(y, r, h) && window_lo(x, r) <= j <= window_hi(x, r, w)
                ==> least <= #[trigger] at(src, w, i, j) <= most,
    ensures
        least <= blurred(src, w, h, r, y, x) <= most,
{
    let rows = |i: int| row_blurred(src, w, r, i, x);
    assert forall|i: int| window_lo(y, r) <= i <= window_hi(y, r, h) implies least
        <= #[trigger] rows(i) <= most by {
        let f = |j: int| at(src, w, i, j) as int;
        assert forall|j: int| window_lo(x, r) <= j <= window_hi(x, r, w) implies least
            <= #[trigger] f(j) <= most by {
            assert(least <= at(src, w, i, j) <= most);
        }
        lemma_window_mean(f, x, r, w, least, most);
    }
    lemma_window_mean(rows, y, r, h, least, most);
}

/// First place of a window, cut at the border.
fn window_start(i: usize, r: usize) -> (lo: usize)
    ensures
        lo == window_lo(i as int, r as int),
{
    if i < r {
        0
    } else {
        i - r
    }
}

/// Last place of a window, cut at the border.
fn window_end(i: usize, r: usize, n: usize) -> (hi: usize)
    requires
        i < n,
    ensures
        hi == window_hi(i as int, r as int, n as int),
        i <= hi < n,
{
    if r < n - i {
        i + r
    } else {
        n - 1
    }
}

/// The mean of a row's window.
fn row_mean(src: &[u16], w: usize, h: usize, r: usize, y: usize, x: usize) -> (m: u16)
    requires
        src.len() == h * w,
        w <= u32::MAX,
        y < h,
        x < w,
    ensures
        m == row_blurred(src@, w as int, r as int, y as int, x as int),
{
    let lo: usize = window_start(x, r);
    let hi: usize = window_end(x, r, w);
    let ghost f = |i: int| at(src@, w as int, y as int, i) as int;
    let mut sum: u64 = 0;
    let mut i: usize = lo;
    while i <= hi
        invariant
            src.len() == h * w,
            w <= u32::MAX,
            y < h,
            lo <= i <= hi + 1,
            hi < w,
            f == (|i: int| at(src@, w as int, y as int, i) as int),
            sum == sum_over(f, lo as int, i as int),
            sum <= (i - lo) * 65535,
        decreases hi + 1 - i,
    {
        proof {
            lemma_cell(h as int, w as int, y as int, i as int);
            assert(f(i as int) == src@[y * w + i]);
        }
        sum = sum + src[y * w + i] as u64;
        i += 1;
    }
    proof {
        lemma_window_mean(f, x as int, r as int, w as int, 0, 65535);
    }
    (sum / (hi - lo + 1) as u64) as u16
}

/// The mean of a column's window in the plane of row means.
fn column_mean(
    src: &[u16],
    rows: &[u16],
    w: usize,
    h: usize,
    r: usize,
    y: usize,
    x: usize,
) -> (m: u16)
    requires
        rows.len() == h * w,
        h <= u32::MAX,
        y < h,
        x < w,
        forall|yy: int, xx: int|
            0 <= yy < h && 0 <= xx < w ==> #[trigger] at(rows@, w as int, yy, xx) == row_blurred(
                src@,
                w as int,
                r as int,
                yy,
                xx,
            ),
    ensures
        m == blurred(src@, w as int, h as int, r as int, y as int, x as int),
{
    let lo: usize = window_start(y, r);
    let hi: usize = window_end(y, r, h);
    let ghost f = |i: int| row_blurred(src@, w as int, r as int, i, x as int);
    let mut sum: u64 = 0;
    let mut i: usize = lo;
    while i <= hi
        invariant
            rows.len() == h * w,
            h <= u32::MAX,
            x < w,
            lo <= i <= hi + 1,
            hi < h,
            forall|yy: int, xx: int|
                0 <= yy < h && 0 <= xx < w ==> #[trigger] at(rows@, w as int, yy, xx)
                    == row_blurred(src@, w as int, r as int, yy, xx),
            f == (|i: int| row_blurred(src@, w as int, r as int, i, x as int)),
            sum == sum_over(f, lo as int, i as int),
            sum <= (i - lo) * 65535,
        decreases hi + 1 - i,
    {
        proof {
            lemma_cell(h as int, w as int, i as int, x as int);
            assert(at(rows@, w as int, i as int, x as int) == f(i as int));
        }
        sum = sum + rows[i * w + x] as u64;
        i += 1;
    }
    proof {
        assert forall|j: int| 0 <= j < h implies 0 <= #[trigger] f(j) <= 65535 by {
            assert(at(rows@, w as int, j, x as int) == f(j));
        }
        lemma_window_mean(f, y as int, r as int, h as int, 0, 65535);
    }
    (sum / (hi - lo + 1) as u64) as u16
}

/// Separable box blur of a single-channel `w x h` plane, cut at the borders. Row
/// passes run in parallel.
pub fn box_blur_plane(src: &[u16], w: usize, h: usize, r: usize) -> (out: Vec<u16>)
    requires
        src.len() == h * w,
        w <= u32::MAX,
        h <= u32::MAX,
    ensures
        out.len() == h * w,
        forall|y: int, x: int|
            0 <= y < h && 0 <= x < w ==> #[trigger] at(out@, w as int, y, x) == blurred(
                src@,
                w as int,
                h as int,
                r as int,
                y,
                x,
            ),
{
    let across = |y: usize, x: usize| -> (m: u16)
        requires
            y < h,
            x < w,
        ensures
            m == row_blurred(src@, w as int, r as int, y as int, x as int),
        { row_mean(src, w, h, r, y, x) };
    let rows: Vec<u16> = grid(h, w, &across);
    assert forall|y: int, x: int| 0 <= y < h && 0 <= x < w implies #[trigger] at(
        rows@,
        w as int,
        y,
        x,
    ) == row_blurred(src@, w as int, r as int, y, x) by {
        assert(call_ensures(across, (y as usize, x as usize), at(rows@, w as int, y, x)));
    }
    let rows_ref: &Vec<u16> = &rows;
    let down = |y: usize, x: usize| -> (m: u16)
        requires
            y < h,
            x < w,
        ensures
            m == blurred(src@, w as int, h as int, r as int, y as int, x as int),
        { column_mean(src, rows_ref, w, h, r, y, x) };
    let out: Vec<u16> = grid(h, w, &down);
    assert forall|y: int, x: int| 0 <= y < h && 0 <= x < w implies #[trigger] at(
        out@,
        w as int,
        y,
        x,
    ) == blurred(src@, w as int, h as int, r as int, y, x) by {
        assert(call_ensures(down, (y as usize, x as usize), at(out@, w as int, y, x)));
    }
    out
}

/// Every fourth byte of a YUYV frame from `first` on: one chroma plane (1 for Cb,
/// 3 for Cr).
pub open spec fn chroma_plane(yuyv: Seq<u8>, first: int) -> Seq<u16> {
    Seq::new(yuyv.len() / 4, |i: int| yuyv[4 * i + first] as u16)
}

/// Every second byte of a YUYV frame: its luma.
pub open spec fn luma_plane(yuyv: Seq<u8>) -> Seq<u8> {
    Seq::new(yuyv.len() / 2, |i: int| yuyv[2 * i])
}

/// One chroma plane of a frame.
fn read_chroma(yuyv: &[u8], first: usize) -> (plane: Vec<u16>)
    requires
        first < 4,
        yuyv.len() % 4 == 0,
    ensures
        plane@ == chroma_plane(yuyv@, first as int),
{
    let n: usize = yuyv.len() / 4;
    let mut plane: Vec<u16> = Vec::with_capacity(n);
    let mut i: usize = 0;
    while i < n
        invariant
            first < 4,
            n == yuyv.len() / 4,
            i <= n,
            plane.len() == i,
            forall|k: int| 0 <= k < i ==> #[trigger] plane@[k] == yuyv@[4 * k + first],
        decreases n - i,
    {
        plane.push(yuyv[4 * i + first] as u16);
        i += 1;
    }
    proof {
        assert(plane@ =~= chroma_plane(yuyv@, first as int));
    }
    plane
}

/// Smooth one chroma plane of a frame in place.
fn smooth_plane<B: Fn(u16, u16) -> u8>(
    yuyv: &mut [u8],
    w: usize,
    h: usize,
    r: usize,
    first: usize,
    blend: &B,
)
    requires
        first == 1 || first == 3,
        w % 2 == 0,
        w <= u32::MAX,
        h <= u32::MAX,
        old(yuyv).len() == 2 * (h * w),
        forall|a: u16, b: u16| #[trigger] call_requires(*blend, (a, b)),
    ensures
        final(yuyv).len() == old(yuyv).len(),
        is_smoothed(*blend, old(yuyv)@, w as int, h as int, r as int, first as int, final(yuyv)@),
        forall|i: int|
            0 <= i < old(yuyv).len() && i % 4 != first ==> #[trigger] final(yuyv)@[i] == old(
                yuyv,
            )@[i],
{
    let cw: usize = w / 2;
    proof {
        assert(2 * (h * w) == 4 * (h * cw)) by (nonlinear_arith)
            requires
                w == 2 * cw,
        ;
    }
    let plane: Vec<u16> = read_chroma(yuyv, first);
    let blur: Vec<u16> = box_blur_plane(&plane, cw, h, r);
    let n: usize = plane.len();
    let mut i: usize = 0;
    while i < n
        invariant
            first == 1 || first == 3,
            n == plane.len(),
            n == h * cw,
            n == blur.len(),
            yuyv.len() == 4 * n,
            old(yuyv).len() == 4 * n,
            i <= n,
            cw == w / 2,
            plane@ == chroma_plane(old(yuyv)@, first as int),
            forall|y: int, x: int|
                0 <= y < h && 0 <= x < cw ==> #[trigger] at(blur@, cw as int, y, x) == blurred(
                    plane@,
                    cw as int,
                    h as int,
                    r as int,
                    y,
                    x,
                ),
            forall|a: u16, b: u16| #[trigger] call_requires(*blend, (a, b)),
            forall|k: int|
                0 <= k < yuyv.len() && (k % 4 != first || k >= 4 * i) ==> #[trigger] yuyv@[k]
                    == old(yuyv)@[k],
            forall|k: int|
                0 <= k < i ==> is_blend(
                    *blend,
                    old(yuyv)@,
                    cw as int,
                    h as int,
                    r as int,
                    first as int,
                    k,
                    #[trigger] yuyv@[4 * k + first],
                ),
        decreases n - i,
    {
        let v: u8 = blend(plane[i], blur[i]);
        proof {
            lemma_cell_of_index(h as int, cw as int, i as int);
            assert(at(blur@, cw as int, i as int / cw as int, i as int % cw as int) == blur@[i as int]);
        }
        let ghost before = yuyv@;
        yuyv[4 * i + first] = v;
        i += 1;
        proof {
            assert forall|k: int| 0 <= k < i implies is_blend(
                *blend,
                old(yuyv)@,
                cw as int,
                h as int,
                r as int,
                first as int,
                k,
                #[trigger] yuyv@[4 * k + first],
            ) by {
                if k < i - 1 {
                    assert(yuyv@[4 * k + first] == before[4 * k + first]);
                }
            }
        }
    }
}

/// `v` is some result of `blend` on the `i`-th sample of a chroma plane and the
/// blurred plane there.
pub open spec fn is_blend<B: Fn(u16, u16) -> u8>(
    blend: B,
    yuyv: Seq<u8>,
    cw: int,
    h: int,
    r: int,
    first: int,
    i: int,
    v: u8,
) -> bool {
    let plane = chroma_plane(yuyv, first);
    call_ensures(blend, (plane[i], blurred(plane, cw, h, r, i / cw, i % cw) as u16), v)
}

/// Every sample of one chroma plane of `new` is a blend of the old sample and the
/// blurred one.
pub open spec fn is_smoothed<B: Fn(u16, u16) -> u8>(
    blend: B,
    old: Seq<u8>,
    w: int,
    h: int,
    r: int,
    first: int,
    new: Seq<u8>,
) -> bool {
    forall|i: int|
        0 <= i < old.len() / 4 ==> is_blend(
            blend,
            old,
            w / 2,
            h,
            r,
            first,
            i,
            #[trigger] new[4 * i + first],
        )
}

/// `new` is `old` after chroma denoising: luma untouched, both chroma planes
/// smoothed; all of it untouched when the radius is zero or there is no strength.
pub open spec fn is_chroma_denoised<B: Fn(u16, u16) -> u8>(
    blend: B,
    w: int,
    h: int,
    radius: int,
    strong: bool,
    old: Seq<u8>,
    new: Seq<u8>,
) -> bool {
    &&& new.len() == old.len()
    &&& luma_plane(new) == luma_plane(old)
    &&& if radius == 0 || !strong {
        new == old
    } else {
        is_smoothed(blend, old, w, h, radius, 1, new) && is_smoothed(
            blend,
            old,
            w,
            h,
            radius,
            3,
            new,
        )
    }
}

/// Spatially denoise the chroma of a packed YUYV frame in place, leaving luma
/// untouched.
///
/// Low-light sensor noise shows up most objectionably as coloured speckle.
/// Smoothing only the Cb/Cr samples removes it while keeping luma, hence
/// perceived sharpness, intact. `radius` is the box-blur half-width on the chroma
/// grid, and `blend` mixes the blurred chroma over the original. Each
/// `[Y0 Cb Y1 Cr]` group is one chroma sample of the `(w/2) x h` grid. A zero
/// `radius`, or no strength, changes nothing.
pub fn denoise_chroma_yuyv<B: Fn(u16, u16) -> u8>(
    buf: &mut [u8],
    w: usize,
    h: usize,
    radius: usize,
    strong: bool,
    blend: &B,
)
    requires
        w % 2 == 0,
        w <= u32::MAX,
        h <= u32::MAX,
        old(buf).len() == 2 * (h * w),
        forall|a: u16, b: u16| #[trigger] call_requires(*blend, (a, b)),
    ensures
        is_chroma_denoised(
            *blend,
            w as int,
            h as int,
            radius as int,
            strong,
            old(buf)@,
            final(buf)@,
        ),
{
    if radius == 0 || !strong {
        return;
    }
    smooth_plane(buf, w, h, radius, 1, blend);
    let ghost mid = buf@;
    smooth_plane(buf, w, h, radius, 3, blend);
    proof {
        assert(chroma_plane(mid, 3) =~= chroma_plane(old(buf)@, 3));
        assert forall|i: int| 0 <= i < old(buf).len() as int / 4 implies is_blend(
            *blend,
            old(buf)@,
            w as int / 2,
            h as int,
            radius as int,
            1,
            i,
            #[trigger] buf@[4 * i + 1],
        ) by {
            assert(buf@[4 * i + 1] == mid[4 * i + 1]);
        }
        assert forall|i: int| 0 <= i < old(buf).len() as int / 4 implies is_blend(
            *blend,
            old(buf)@,
            w as int / 2,
            h as int,
            radius as int,
            3,
            i,
            #[trigger] buf@[4 * i + 3],
        ) by {}
        assert forall|i: int| 0 <= i < buf.len() as int / 2 implies #[trigger] luma_plane(buf@)[i]
            == luma_plane(old(buf)@)[i] by {
            assert(buf@[2 * i] == mid[2 * i]);
            assert(mid[2 * i] == old(buf)@[2 * i]);
        }
        assert(luma_plane(buf@) =~= luma_plane(old(buf)@));
    }
}

/// `new` is `old` after temporal denoising against the history `prev`, and
/// `new_prev` the history it leaves: chroma untouched; luma blended with the
/// history, unless there is no history of this size or no weight; the history
/// always the luma that results.
pub open spec fn is_luma_denoised<B: Fn(u8, u8) -> u8>(
    blend: B,
    weight: bool,
    old: Seq<u8>,
    prev: Seq<u8>,
    new: Seq<u8>,
    new_prev: Seq<u8>,
) -> bool {
    &&& new.len() == old.len()
    &&& new_prev == luma_plane(new)
    &&& forall|i: int| 0 <= i < old.len() && i % 2 == 1 ==> #[trigger] new[i] == old[i]
    &&& if prev.len() != old.len() / 2 || !weight {
        new == old
    } else {
        forall|i: int|
            0 <= i < old.len() / 2 ==> call_ensures(
                blend,
                (luma_plane(old)[i], prev[i]),
                #[trigger] luma_plane(new)[i],
            )
    }
}

/// Temporally denoise the luma of a packed YUYV frame in place, blending each
/// pixel with the running history in `prev_y`, leaving chroma untouched.
///
/// Averaging each Y sample against the previous filtered frame suppresses grain
/// on a static scene without softening spatial detail; `blend` fades out where
/// the frame changes, so moving regions do not ghost. `prev_y` holds the filtered
/// luma of the previous frame; it is started afresh from the current frame when
/// empty or mismatched, and updated every call so the history stays current even
/// when the blend has no weight.
pub fn temporal_denoise_luma_yuyv<B: Fn(u8, u8) -> u8 + Sync>(
    buf: &mut [u8],
    prev_y: &mut Vec<u8>,
    w: usize,
    h: usize,
    weight: bool,
    blend: &B,
)
    requires
        old(buf).len() == 2 * (h * w),
        forall|a: u8, b: u8| #[trigger] call_requires(*blend, (a, b)),
    ensures
        is_luma_denoised(*blend, weight, old(buf)@, old(prev_y)@, final(buf)@, final(prev_y)@),
{
    let n: usize = buf.len() / 2;
    if prev_y.len() != n || !weight {
        *prev_y = read_luma(buf);
        return;
    }
    let frame: &[u8] = buf;
    let past: &Vec<u8> = prev_y;
    let cell = |y: usize, x: usize| -> (v: u8)
        requires
            y < h,
            x < w,
        ensures
            call_ensures(*blend, (frame@[2 * (y * w + x)], past@[y * w + x]), v),
        {
            proof {
                lemma_cell(h as int, w as int, y as int, x as int);
            }
            blend(frame[2 * (y * w + x)], past[y * w + x])
        };
    let luma: Vec<u8> = grid(h, w, &cell);
    assert forall|i: int| 0 <= i < h * w implies call_ensures(
        *blend,
        (frame@[2 * i], past@[i]),
        #[trigger] luma@[i],
    ) by {
        lemma_cell_of_index(h as int, w as int, i);
        let (y, x) = (i / (w as int), i % (w as int));
        assert(call_ensures(cell, (y as usize, x as usize), at(luma@, w as int, y, x)));
    }
    write_luma(&luma, buf);
    assert forall|i: int| 0 <= i < h * w implies call_ensures(
        *blend,
        (luma_plane(old(buf)@)[i], old(prev_y)@[i]),
        #[trigger] luma_plane(buf@)[i],
    ) by {
        assert(luma_plane(buf@)[i] == luma@[i]);
    }
    *prev_y = luma;
}

/// A blended luma lies between the live value and the previous one, and is the live
/// value where the two differ by the motion threshold or more; the chroma and a
/// frame without a history of its size are untouched. This is of a blend that
/// itself keeps between its arguments and fades out at the threshold.
pub proof fn law_blended_luma_lies_between<B: Fn(u8, u8) -> u8>(
    blend: B,
    threshold: int,
    weight: bool,
    old: Seq<u8>,
    prev: Seq<u8>,
    new: Seq<u8>,
    new_prev: Seq<u8>,
    i: int,
)
    requires
        is_luma_denoised(blend, weight, old, prev, new, new_prev),
        old.len() % 2 == 0,
        0 <= i < old.len() / 2,
        forall|cur: u8, past: u8, v: u8| #[trigger]
            call_ensures(blend, (cur, past), v) ==> {
                &&& cur <= v <= past || past <= v <= cur
                &&& cur - past >= threshold || past - cur >= threshold ==> v == cur
            },
    ensures
        new_prev.len() == old.len() / 2,
        new_prev[i] == new[2 * i],
        new[2 * i + 1] == old[2 * i + 1],
        prev.len() != old.len() / 2 || !weight ==> new[2 * i] == old[2 * i],
        prev.len() == old.len() / 2 && weight ==> {
            &&& old[2 * i] <= new[2 * i] <= prev[i] || prev[i] <= new[2 * i] <= old[2 * i]
            &&& old[2 * i] - prev[i] >= threshold || prev[i] - old[2 * i] >= threshold ==> new[2 * i]
                == old[2 * i]
        },
{
    assert(luma_plane(new)[i] == new[2 * i]);
    assert(luma_plane(old)[i] == old[2 * i]);
    assert(new[2 * i + 1] == old[2 * i + 1]);
}

/// The luma of a frame.
fn read_luma(yuyv: &[u8]) -> (luma: Vec<u8>)
    ensures
        luma@ == luma_plane(yuyv@),
{
    let n: usize = yuyv.len() / 2;
    let mut luma: Vec<u8> = Vec::with_capacity(n);
    let mut i: usize = 0;
    while i < n
        invariant
            n == yuyv.len() / 2,
            i <= n,
            luma.len() == i,
            forall|k: int| 0 <= k < i ==> #[trigger] luma@[k] == yuyv@[2 * k],
        decreases n - i,
    {
        luma.push(yuyv[2 * i]);
        i += 1;
    }
    proof {
        assert(luma@ =~= luma_plane(yuyv@));
    }
    luma
}

/// Put a luma plane into a frame.
fn write_luma(luma: &[u8], yuyv: &mut [u8])
    requires
        old(yuyv).len() == 2 * luma.len(),
    ensures
        final(yuyv).len() == old(yuyv).len(),
        luma_plane(final(yuyv)@) == luma@,
        forall|i: int|
            0 <= i < old(yuyv).len() && i % 2 == 1 ==> #[trigger] final(yuyv)@[i] == old(yuyv)@[i],
{
    let mut i: usize = 0;
    while i < luma.len()
        invariant
            i <= luma.len(),
            yuyv.len() == 2 * luma.len(),
            old(yuyv).len() == yuyv.len(),
            forall|k: int| 0 <= k < i ==> yuyv@[2 * k] == #[trigger] luma@[k],
            forall|k: int|
                0 <= k < yuyv.len() && k % 2 == 1 ==> #[trigger] yuyv@[k] == old(yuyv)@[k],
        decreases luma.len() - i,
    {
        yuyv[2 * i] = luma[i];
        i += 1;
    }
    proof {
        assert(luma_plane(yuyv@) =~= luma@);
    }
}

/// A sum takes up what is added at one place, when it covers the place.
proof fn lemma_sum_raised(
    f: spec_fn(int) -> int,
    g: spec_fn(int) -> int,
    lo: int,
    hi: int,
    at: int,
    by: int,
)
    requires
        lo <= hi,
        forall|i: int| lo <= i < hi && i != at ==> #[trigger] g(i) == f(i),
        lo <= at < hi ==> g(at) == f(at) + by,
    ensures
        sum_over(g, lo, hi) == sum_over(f, lo, hi) + (if lo <= at < hi {
            by
        } else {
            0
        }),
    decreases hi - lo,
{
    if lo < hi {
        lemma_sum_raised(f, g, lo, hi - 1, at, by);
        if hi - 1 != at {
            assert(g(hi - 1) == f(hi - 1));
        }
    }
}

/// A window mean rises by `by` when one value in the window rises by that times the
/// window's size.
proof fn lemma_mean_raised(
    f: spec_fn(int) -> int,
    g: spec_fn(int) -> int,
    i: int,
    r: int,
    n: int,
    at: int,
    by: int,
)
    requires
        0 <= i < n,
        0 <= r,
        forall|j: int| 0 <= j < n && j != at ==> #[trigger] g(j) == f(j),
        0 <= at < n,
        g(at) == f(at) + (if -r <= at - i <= r {
            by * window_count(i, r, n)
        } else {
            g(at) - f(at)
        }),
    ensures
        window_mean(g, i, r, n) == window_mean(f, i, r, n) + (if -r <= at - i <= r {
            by
        } else {
            0
        }),
{
    let (lo, hi) = (window_lo(i, r), window_hi(i, r, n) + 1);
    let count = hi - lo;
    assert(count == window_count(i, r, n));
    lemma_sum_raised(f, g, lo, hi, at, g(at) - f(at));
    assert(lo <= at < hi <==> -r <= at - i <= r);
    let sum = sum_over(f, lo, hi);
    vstd::arithmetic::div_mod::lemma_hoist_over_denominator(sum, by, count as nat);
    assert(by * count == count * by) by (nonlinear_arith);
}

/// How many of `n` places lie within `r` of place `i`.
pub open spec fn window_count(i: int, r: int, n: int) -> int {
    (if i + r < n {
        i + r
    } else {
        n - 1
    }) - (if i - r > 0 {
        i - r
    } else {
        0
    }) + 1
}

/// A blurred value is the mean of the samples within the radius, across and down, and
/// of no others: raising one of those samples by as many as there are of them raises
/// the value by exactly one, and raising any other sample leaves it.
pub proof fn law_blur_weighs_its_window_evenly(
    src: Seq<u16>,
    raised: Seq<u16>,
    w: int,
    h: int,
    r: int,
    y: int,
    x: int,
    yy: int,
    xx: int,
    by: int,
)
    requires
        src.len() == h * w,
        0 <= r,
        0 <= y < h,
        0 <= x < w,
        0 <= yy < h,
        0 <= xx < w,
        raised.len() == src.len(),
        forall|i: int|
            0 <= i < src.len() && i != yy * w + xx ==> #[trigger] raised[i] == src[i],
        -r <= yy - y <= r && -r <= xx - x <= r ==> raised[yy * w + xx] == src[yy * w + xx] + by * (
        window_count(y, r, h) * window_count(x, r, w)),
    ensures
        blurred(raised, w, h, r, y, x) == blurred(src, w, h, r, y, x) + (if -r <= yy - y <= r && -r
            <= xx - x <= r {
            by
        } else {
            0
        }),
{
    let (cy, cx) = (window_count(y, r, h), window_count(x, r, w));
    let inside = -r <= yy - y <= r && -r <= xx - x <= r;
    let f = |i: int| row_blurred(src, w, r, i, x);
    let g = |i: int| row_blurred(raised, w, r, i, x);
    let d = by * cy;
    assert(by * (cy * cx) == d * cx) by (nonlinear_arith)
        requires
            d == by * cy,
    ;
    assert forall|i: int| 0 <= i < h implies #[trigger] g(i) == f(i) + (if i == yy && -r <= xx - x
        <= r {
        g(i) - f(i)
    } else {
        0
    }) by {
        let a = |j: int| at(src, w, i, j) as int;
        let b = |j: int| at(raised, w, i, j) as int;
        assert forall|j: int| 0 <= j < w && (i != yy || j != xx) implies #[trigger] b(j) == a(j) by {
            lemma_cell(h, w, i, j);
            lemma_cell(h, w, yy, xx);
            if i * w + j == yy * w + xx {
                if i < yy {
                    lemma_cell(yy, w, i, j);
                } else if yy < i {
                    lemma_cell(i, w, yy, xx);
                }
            }
            assert(raised[i * w + j] == src[i * w + j]);
        }
        if i != yy {
            assert(b(xx) == a(xx));
            lemma_mean_raised(a, b, x, r, w, xx, 0);
        } else if !(-r <= xx - x <= r) {
            lemma_mean_raised(a, b, x, r, w, xx, 0);
        }
    }
    if inside {
        let a = |j: int| at(src, w, yy, j) as int;
        let b = |j: int| at(raised, w, yy, j) as int;
        assert forall|j: int| 0 <= j < w && j != xx implies #[trigger] b(j) == a(j) by {
            lemma_cell(h, w, yy, j);
            assert(raised[yy * w + j] == src[yy * w + j]);
        }
        lemma_mean_raised(a, b, x, r, w, xx, d);
        assert(g(yy) == f(yy) + d);
        lemma_mean_raised(f, g, y, r, h, yy, by);
    } else {
        if -r <= yy - y <= r {
            assert(g(yy) == f(yy));
            assert(0 * window_count(y, r, h) == 0) by (nonlinear_arith);
        }
        lemma_mean_raised(f, g, y, r, h, yy, 0);
    }
}

/// The two chroma planes are treated alike, and the luma is not: frames that hold each
/// other's Cb as Cr and Cr as Cb still do after denoising, and either keeps its luma.
/// This is of a blend with one result per pair of samples.
pub proof fn law_chroma_planes_are_alike<B: Fn(u16, u16) -> u8>(
    blend: B,
    w: int,
    h: int,
    radius: int,
    strong: bool,
    a: Seq<u8>,
    b: Seq<u8>,
    a_out: Seq<u8>,
    b_out: Seq<u8>,
    i: int,
)
    requires
        forall|x: u16, y: u16, u: u8, v: u8| #[trigger]
            call_ensures(blend, (x, y), u) && #[trigger] call_ensures(blend, (x, y), v) ==> u == v,
        a.len() == b.len(),
        a.len() % 4 == 0,
        forall|j: int| 0 <= j < a.len() / 4 ==> #[trigger] a[4 * j + 1] == b[4 * j + 3],
        forall|j: int| 0 <= j < a.len() / 4 ==> #[trigger] a[4 * j + 3] == b[4 * j + 1],
        is_chroma_denoised(blend, w, h, radius, strong, a, a_out),
        is_chroma_denoised(blend, w, h, radius, strong, b, b_out),
        0 <= i < a.len() / 4,
    ensures
        a_out[4 * i + 1] == b_out[4 * i + 3],
        a_out[4 * i + 3] == b_out[4 * i + 1],
        a_out[4 * i] == a[4 * i],
        a_out[4 * i + 2] == a[4 * i + 2],
{
    assert(chroma_plane(a, 1) =~= chroma_plane(b, 3));
    assert(chroma_plane(a, 3) =~= chroma_plane(b, 1));
    assert(luma_plane(a_out)[2 * i] == luma_plane(a)[2 * i]);
    assert(luma_plane(a_out)[2 * i + 1] == luma_plane(a)[2 * i + 1]);
    if radius != 0 && strong {
        assert(is_blend(blend, a, w / 2, h, radius, 1, i, a_out[4 * i + 1]));
        assert(is_blend(blend, b, w / 2, h, radius, 3, i, b_out[4 * i + 3]));
        assert(is_blend(blend, a, w / 2, h, radius, 3, i, a_out[4 * i + 3]));
        assert(is_blend(blend, b, w / 2, h, radius, 1, i, b_out[4 * i + 1]));
    }
}

/// Denoising takes each chroma sample towards the mean around it in its own plane. A
/// blend of full strength gives the mean itself: raising one sample of the plane (`c`,
/// 1 for Cb and 3 for Cr) within the radius by as many as there are raises the result
/// by one, and nothing else in the frame has a say in it. A blend of no strength
/// leaves the sample.
pub proof fn law_chroma_moves_to_its_mean<
    B: Fn(u16, u16) -> u8,
    C: Fn(u16, u16) -> u8,
>(
    full: B,
    none: C,
    w: int,
    h: int,
    radius: int,
    old: Seq<u8>,
    raised: Seq<u8>,
    out: Seq<u8>,
    out_raised: Seq<u8>,
    kept: Seq<u8>,
    c: int,
    y: int,
    x: int,
    yy: int,
    xx: int,
)
    requires
        forall|a: u16, b: u16, v: u8| #[trigger] call_ensures(full, (a, b), v) ==> v == b,
        forall|a: u16, b: u16, v: u8| #[trigger] call_ensures(none, (a, b), v) ==> v == a,
        c == 1 || c == 3,
        radius > 0,
        w > 0,
        w % 2 == 0,
        old.len() == 2 * (h * w),
        raised.len() == old.len(),
        0 <= y < h && 0 <= yy < h,
        0 <= x < w / 2 && 0 <= xx < w / 2,
        forall|i: int|
            0 <= i < old.len() / 4 && i != yy * (w / 2) + xx ==> #[trigger] raised[4 * i + c] == old[4
                * i + c],
        -radius <= yy - y <= radius && -radius <= xx - x <= radius ==> raised[4 * (yy * (w / 2) + xx)
            + c] == old[4 * (yy * (w / 2) + xx) + c] + window_count(y, radius, h) * window_count(
            x,
            radius,
            w / 2,
        ),
        is_chroma_denoised(full, w, h, radius, true, old, out),
        is_chroma_denoised(full, w, h, radius, true, raised, out_raised),
        is_chroma_denoised(none, w, h, radius, true, old, kept),
    ensures
        out_raised[4 * (y * (w / 2) + x) + c] == out[4 * (y * (w / 2) + x) + c] + (if -radius <= yy
            - y <= radius && -radius <= xx - x <= radius {
            1int
        } else {
            0int
        }),
        kept[4 * (y * (w / 2) + x) + c] == old[4 * (y * (w / 2) + x) + c],
{
    let cw = w / 2;
    let i = y * cw + x;
    assert(old.len() / 4 == h * cw) by (nonlinear_arith)
        requires
            old.len() == 2 * (h * w),
            w == 2 * cw,
    ;
    lemma_cell(h, cw, y, x);
    lemma_cell(h, cw, yy, xx);
    vstd::arithmetic::div_mod::lemma_fundamental_div_mod_converse(i, cw, y, x);
    let (p, q) = (chroma_plane(old, c), chroma_plane(raised, c));
    assert forall|j: int| 0 <= j < p.len() && j != yy * cw + xx implies #[trigger] q[j] == p[j] by {
        assert(raised[4 * j + c] == old[4 * j + c]);
    }
    law_blur_weighs_its_window_evenly(p, q, cw, h, radius, y, x, yy, xx, 1);
    assert forall|j: int| 0 <= j < p.len() implies 0 <= #[trigger] p[j] <= 255 && 0 <= q[j] <= 255 by {}
    assert forall|m: int, n: int|
        window_lo(y, radius) <= m <= window_hi(y, radius, h) && window_lo(x, radius) <= n
            <= window_hi(x, radius, cw) implies 0 <= #[trigger] at(p, cw, m, n) <= 255 by {
        lemma_cell(h, cw, m, n);
        assert(p[m * cw + n] <= 255);
    }
    assert forall|m: int, n: int|
        window_lo(y, radius) <= m <= window_hi(y, radius, h) && window_lo(x, radius) <= n
            <= window_hi(x, radius, cw) implies 0 <= #[trigger] at(q, cw, m, n) <= 255 by {
        lemma_cell(h, cw, m, n);
        assert(q[m * cw + n] <= 255);
    }
    law_blur_stays_in_range(p, cw, h, radius, y, x, 0, 255);
    law_blur_stays_in_range(q, cw, h, radius, y, x, 0, 255);
    assert(is_blend(full, old, cw, h, radius, c, i, out[4 * i + c]));
    assert(is_blend(full, raised, cw, h, radius, c, i, out_raised[4 * i + c]));
    assert(is_blend(none, old, cw, h, radius, c, i, kept[4 * i + c]));
}

/// Each luma is blended with the history at its own pixel: where there is a history of the
/// frame's size and a weight, the result is what the blend makes of the live value and the
/// previous one there (`mixed`), and the history that is left is that result.
pub proof fn law_luma_is_blended_with_its_own_history<B: Fn(u8, u8) -> u8>(
    blend: B,
    mixed: spec_fn(u8, u8) -> u8,
    old: Seq<u8>,
    prev: Seq<u8>,
    new: Seq<u8>,
    new_prev: Seq<u8>,
    i: int,
)
    requires
        is_luma_denoised(blend, true, old, prev, new, new_prev),
        2 * prev.len() == old.len(),
        0 <= i < prev.len(),
        forall|cur: u8, past: u8, v: u8| #[trigger]
            call_ensures(blend, (cur, past), v) ==> v == mixed(cur, past),
    ensures
        new[2 * i] == mixed(old[2 * i], prev[i]),
        new_prev[i] == mixed(old[2 * i], prev[i]),
        new[2 * i + 1] == old[2 * i + 1],
{
    assert(luma_plane(new)[i] == new[2 * i]);
    assert(luma_plane(old)[i] == old[2 * i]);
    assert(new[2 * i + 1] == old[2 * i + 1]);
}

/// Blurring drops the fraction: in a window that is flat but for one sample, raised by less
/// than there are samples, the value is that of the flat ones.
pub proof fn law_blur_drops_the_fraction(
    src: Seq<u16>,
    w: int,
    h: int,
    r: int,
    y: int,
    x: int,
    yy: int,
    xx: int,
    flat: int,
    by: int,
)
    requires
        src.len() == h * w,
        0 <= r,
        0 <= y < h,
        0 <= x < w,
        0 <= yy < h,
        0 <= xx < w,
        -r <= yy - y <= r,
        -r <= xx - x <= r,
        0 <= by < window_count(y, r, h) * window_count(x, r, w),
        src[yy * w + xx] == flat + by,
        forall|m: int, n: int|
            0 <= m < h && 0 <= n < w && -r <= m - y <= r && -r <= n - x <= r && !(m == yy && n
                == xx) ==> #[trigger] src[m * w + n] == flat,
    ensures
        blurred(src, w, h, r, y, x) == flat,
{
    let (cy, cx) = (window_count(y, r, h), window_count(x, r, w));
    let g = |i: int| row_blurred(src, w, r, i, x);
    let rise = by / cx;
    assert forall|i: int|
        window_lo(y, r) <= i <= window_hi(y, r, h) implies #[trigger] g(i) == (if i == yy {
        flat + rise
    } else {
        flat
    }) by {
        let b = |j: int| at(src, w, i, j) as int;
        assert forall|j: int| window_lo(x, r) <= j <= window_hi(x, r, w) implies #[trigger] b(j) == (
        if i == yy && j == xx {
            flat + by
        } else {
            flat
        }) by {
            let v = src[i * w + j];
        }
        if i == yy {
            lemma_mean_of_one_raised(b, x, r, w, xx, flat, by);
        } else {
            assert(b(xx) == flat + 0);
            lemma_mean_of_one_raised(b, x, r, w, xx, flat, 0);
        }
    }
    lemma_mean_of_one_raised(g, y, r, h, yy, flat, rise);
    vstd::arithmetic::div_mod::lemma_fundamental_div_mod(by, cx);
    vstd::arithmetic::div_mod::lemma_mod_bound(by, cx);
    vstd::arithmetic::div_mod::lemma_div_pos_is_pos(by, cx);
    if rise >= cy {
        assert(cx * rise >= cy * cx) by (nonlinear_arith)
            requires
                rise >= cy,
                cx > 0,
        ;
    }
    vstd::arithmetic::div_mod::lemma_basic_div(rise, cy);
}

/// The mean of a window that is flat but for one value.
proof fn lemma_mean_of_one_raised(
    g: spec_fn(int) -> int,
    i: int,
    r: int,
    n: int,
    at: int,
    flat: int,
    by: int,
)
    requires
        0 <= i < n,
        0 <= r,
        0 <= at < n,
        -r <= at - i <= r,
        0 <= by,
        forall|j: int|
            window_lo(i, r) <= j <= window_hi(i, r, n) ==> #[trigger] g(j) == (if j == at {
                flat + by
            } else {
                flat
            }),
    ensures
        window_mean(g, i, r, n) == flat + by / window_count(i, r, n),
{
    let (lo, hi) = (window_lo(i, r), window_hi(i, r, n) + 1);
    let count = hi - lo;
    assert(count == window_count(i, r, n));
    let f = |j: int| flat;
    lemma_sum_bounds(f, lo, hi, flat, flat);
    lemma_sum_raised(f, g, lo, hi, at, by);
    assert(flat * count == count * flat) by (nonlinear_arith);
    vstd::arithmetic::div_mod::lemma_hoist_over_denominator(by, flat, count as nat);
}

/// Chroma denoising reaches every chroma sample of both planes, and where it is off none: a
/// blend that gives one mark whatever it is given marks every chroma byte.
pub proof fn law_denoising_reaches_every_chroma_sample<B: Fn(u16, u16) -> u8>(
    blend: B,
    mark: u8,
    w: int,
    h: int,
    radius: int,
    strong: bool,
    old: Seq<u8>,
    new: Seq<u8>,
    i: int,
)
    requires
        is_chroma_denoised(blend, w, h, radius, strong, old, new),
        forall|a: u16, b: u16, v: u8| #[trigger] call_ensures(blend, (a, b), v) ==> v == mark,
        old.len() % 4 == 0,
        0 <= i < old.len(),
    ensures
        new[i] == (if i % 2 == 1 && radius != 0 && strong {
            mark
        } else {
            old[i]
        }),
{
    if i % 2 == 0 {
        assert(luma_plane(new)[i / 2] == luma_plane(old)[i / 2]);
    } else if radius != 0 && strong {
        if i % 4 == 1 {
            assert(is_blend(blend, old, w / 2, h, radius, 1, i / 4, new[4 * (i / 4) + 1]));
        } else {
            assert(is_blend(blend, old, w / 2, h, radius, 3, i / 4, new[4 * (i / 4) + 3]));
        }
    }
}

} // verus!
