//! What each byte of a render comes from.
//!
//! The renders are stated pixel by pixel, over arithmetic that is a parameter. The
//! laws here follow single values through a whole render: which sample, which gain
//! and which shift decide the red, the green and the blue byte of an output pixel.
//! To be able to see a single value in the output they speak of arithmetic whose
//! colour stage leaves the channels apart ([`keeps_channels`]).

use vstd::prelude::*;

use crate::pipeline::bayer::{is_blc_split, law_tiles_are_green_red_blue_green, Planes};
use crate::pipeline::colour::{is_acm_color, is_coloured, law_colour_stages_come_in_order};
use crate::pipeline::determined::{is_determined, lemma_displaced_unique};
use crate::pipeline::kernels::{Band, Hue, Kernels};
use crate::pipeline::lca::Lca;
use crate::pipeline::mhc::{clamped, is_mhc, is_planar, Debayer, Filtered, Planar, Taps};
use crate::pipeline::processor::{
    is_counted, is_full, is_reestimated, is_resplit, is_step, lemma_fused_split, DebayerMode,
    Processor,
};
use crate::pipeline::render::{
    gains_at, is_displaced, is_full_pixel, is_half_pixel, is_half_render, is_lca_pixel,
    is_lca_render, is_mhc_pixel, is_mhc_render, is_offset, is_sampled, is_shift, pixel, samples_at,
    Rgb8, Shift, Spot, Tile,
};
use crate::pipeline::scene::{Calibration, Look};
use crate::pipeline::shading::{is_cfa_of_bytes, is_shaded, quad_at, Grids, Quad};
use crate::raw::{is_blc_frame, RawFrame};
use crate::rows::{at, lemma_cell};

verus! {

/// Highlights and the global matrix leave a pixel's channels as they are, and no pixel has
/// a hue. `channels` reads red, green and blue of a linear pixel.
pub open spec fn keeps_channels<K: Kernels>(
    k: K,
    ccm: [K::D; 9],
    channels: spec_fn(K::P) -> (int, int, int),
) -> bool {
    &&& forall|p: K::P, q: K::P| #[trigger]
        call_ensures(<K as Kernels>::highlight, (&k, p), q) ==> channels(q) == channels(p)
    &&& forall|p: K::P, q: K::P| #[trigger]
        call_ensures(<K as Kernels>::matrix, (&k, &ccm, p), q) ==> channels(q) == channels(p)
    &&& forall|p: K::P, hue: Option<Hue<K::Q>>| #[trigger]
        call_ensures(<K as Kernels>::hue, (&k, p), hue) ==> hue is None
}

/// Each byte of a pixel encoded by the exact transfer function, `byte`, is that of its own
/// channel.
pub open spec fn encodes_exactly<K: Kernels>(
    k: K,
    channels: spec_fn(K::P) -> (int, int, int),
    byte: spec_fn(int) -> u8,
) -> bool {
    forall|p: K::P, px: Rgb8| #[trigger]
        call_ensures(<K as Kernels>::encode, (&k, p), px) ==> px.r == byte(channels(p).0) && px.g
            == byte(channels(p).1) && px.b == byte(channels(p).2)
}

/// Each byte of a pixel encoded by the tabulated transfer function, `byte`, is that of its
/// own channel.
pub open spec fn encodes_by_table<K: Kernels>(
    k: K,
    channels: spec_fn(K::P) -> (int, int, int),
    byte: spec_fn(int) -> u8,
) -> bool {
    forall|p: K::P, px: Rgb8| #[trigger]
        call_ensures(<K as Kernels>::encode_fast, (&k, p), px) ==> px.r == byte(channels(p).0)
            && px.g == byte(channels(p).1) && px.b == byte(channels(p).2)
}

/// The linear pixel of a triple holds the triple; `level` reads a value.
pub open spec fn keeps_triples<K: Kernels>(
    k: K,
    level: spec_fn(K::S) -> int,
    channels: spec_fn(K::P) -> (int, int, int),
) -> bool {
    forall|r: K::S, g: K::S, b: K::S, p: K::P| #[trigger]
        call_ensures(<K as Kernels>::linear, (&k, r, g, b), p) ==> channels(p) == (
            level(r),
            level(g),
            level(b),
        )
}

/// Where the colour stage keeps channels apart, it keeps them.
proof fn lemma_coloured_keeps<K: Kernels>(
    k: K,
    look: Look<K::S, K::D>,
    channels: spec_fn(K::P) -> (int, int, int),
    p: K::P,
    out: K::P,
)
    requires
        keeps_channels(k, look.est.ccm, channels),
        is_coloured(k, look, p, out),
    ensures
        channels(out) == channels(p),
{
    let h = choose|h: K::P| #[trigger]
        call_ensures(<K as Kernels>::highlight, (&k, p), h) && is_acm_color(k, look, h, out);
    assert(channels(h) == channels(p));
    assert(exists|global: K::P, hue: Option<Hue<K::Q>>|
        {
            &&& #[trigger] call_ensures(<K as Kernels>::matrix, (&k, &look.est.ccm, h), global)
            &&& #[trigger] call_ensures(<K as Kernels>::hue, (&k, global), hue)
            &&& hue is None ==> out == global
        });
}

/// The bytes of a full-resolution pixel are those of its triple.
proof fn lemma_full_pixel_keeps<K: Kernels>(
    k: K,
    look: Look<K::S, K::D>,
    level: spec_fn(K::S) -> int,
    channels: spec_fn(K::P) -> (int, int, int),
    byte: spec_fn(int) -> u8,
    r: K::S,
    g: K::S,
    b: K::S,
    px: Rgb8,
)
    requires
        keeps_channels(k, look.est.ccm, channels),
        encodes_by_table(k, channels, byte),
        keeps_triples(k, level, channels),
        is_full_pixel(k, look, r, g, b, px),
    ensures
        px.r == byte(level(r)),
        px.g == byte(level(g)),
        px.b == byte(level(b)),
{
    let (lin, out) = choose|lin: K::P, out: K::P|
        {
            &&& #[trigger] call_ensures(<K as Kernels>::linear, (&k, r, g, b), lin)
            &&& #[trigger] is_coloured(k, look, lin, out)
            &&& call_ensures(<K as Kernels>::encode_fast, (&k, out), px)
        };
    lemma_coloured_keeps(k, look, channels, lin, out);
}

/// The four values around a position of a `w` wide, `h` high grid, as its cells hold them;
/// past the last row or column it is the last one.
pub open spec fn around<T>(s: Seq<T>, w: int, h: int, y: int, x: int) -> Quad<T> {
    let y0 = if y < h {
        y
    } else {
        h - 1
    };
    let x0 = if x < w {
        x
    } else {
        w - 1
    };
    let y1 = if y + 1 < h {
        y + 1
    } else {
        h - 1
    };
    let x1 = if x + 1 < w {
        x + 1
    } else {
        w - 1
    };
    Quad {
        p00: s[y0 * w + x0],
        p01: s[y0 * w + x1],
        p10: s[y1 * w + x0],
        p11: s[y1 * w + x1],
    }
}

/// Pixel `(y, x)`, shifted across by what the first grid holds at its place and down by
/// what the second one holds there, meets the value `v` on a plane, however the
/// arithmetic comes out. `level` reads a value.
pub open spec fn meets<K: Kernels>(
    k: K,
    across: Seq<u32>,
    down: Seq<u32>,
    gw: int,
    gh: int,
    plane: Seq<K::S>,
    w: int,
    h: int,
    y: int,
    x: int,
    level: spec_fn(K::S) -> int,
    v: int,
) -> bool {
    forall|cell: Spot<K::W>, dx: K::S, dy: K::S, spot: Spot<K::W>, s: K::S|
        #![trigger
            call_ensures(<K as Kernels>::cell, (&k, y as usize, x as usize), cell),
            call_ensures(<K as Kernels>::displace, (&k, y as usize, x as usize, dx, dy), spot),
            call_ensures(
                <K as Kernels>::resample,
                (&k, around(plane, w, h, spot.y as int, spot.x as int), spot.weights),
                s,
            )]
        call_ensures(<K as Kernels>::cell, (&k, y as usize, x as usize), cell) && call_ensures(
            <K as Kernels>::offset,
            (&k, around(across, gw, gh, cell.y as int, cell.x as int), cell.weights),
            dx,
        ) && call_ensures(
            <K as Kernels>::offset,
            (&k, around(down, gw, gh, cell.y as int, cell.x as int), cell.weights),
            dy,
        ) && call_ensures(<K as Kernels>::displace, (&k, y as usize, x as usize, dx, dy), spot)
            && call_ensures(
            <K as Kernels>::resample,
            (&k, around(plane, w, h, spot.y as int, spot.x as int), spot.weights),
            s,
        ) ==> level(s) == v
}

/// A sample at a displaced position is what the grids meet there.
proof fn lemma_meets<K: Kernels>(
    k: K,
    across: Seq<u32>,
    down: Seq<u32>,
    gw: int,
    gh: int,
    plane: Seq<K::S>,
    w: int,
    h: int,
    y: int,
    x: int,
    level: spec_fn(K::S) -> int,
    v: int,
    cell: Spot<K::W>,
    spot: Spot<K::W>,
    s: K::S,
)
    requires
        meets(k, across, down, gw, gh, plane, w, h, y, x, level, v),
        call_ensures(<K as Kernels>::cell, (&k, y as usize, x as usize), cell),
        is_displaced(k, across, down, gw, gh, cell, y, x, spot),
        is_sampled(k, plane, w, h, spot, s),
        0 < w,
        0 < h,
        0 < gw,
        0 < gh,
    ensures
        level(s) == v,
{
    let (dx, dy) = choose|dx: K::S, dy: K::S|
        {
            &&& #[trigger] is_offset(k, across, gw, gh, cell, dx)
            &&& #[trigger] is_offset(k, down, gw, gh, cell, dy)
            &&& call_ensures(<K as Kernels>::displace, (&k, y as usize, x as usize, dx, dy), spot)
        };
    let (cy, cx) = (cell.y as int, cell.x as int);
    let (sy, sx) = (spot.y as int, spot.x as int);
    assert(around(across, gw, gh, cy, cx) == quad_at(
        across,
        gw,
        gh,
        clamped(cy, gh),
        clamped(cx, gw),
    ));
    assert(around(down, gw, gh, cy, cx) == quad_at(
        down,
        gw,
        gh,
        clamped(cy, gh),
        clamped(cx, gw),
    ));
    assert(around(plane, w, h, sy, sx) == quad_at(
        plane,
        w,
        h,
        clamped(sy, h),
        clamped(sx, w),
    ));
}

/// What a pixel of the aberration-corrected render is made from.
proof fn lemma_lca_pixel_parts<K: Kernels>(
    k: K,
    look: Look<K::S, K::D>,
    lca: Lca,
    planar: Planar<K::S>,
    y: int,
    x: int,
    px: Rgb8,
) -> (parts: (Spot<K::W>, Shift<K::W>, K::S, K::S))
    requires
        is_lca_pixel(k, look, lca, planar, y, x, px),
    ensures
        ({
            let (cell, shift, r, b) = parts;
            let (w, h) = (planar.w as int, planar.h as int);
            let (gw, gh) = (lca.gw as int, lca.gh as int);
            &&& call_ensures(<K as Kernels>::cell, (&k, y as usize, x as usize), cell)
            &&& is_displaced(k, lca.rx@, lca.ry@, gw, gh, cell, y, x, shift.red)
            &&& is_displaced(k, lca.bx@, lca.by@, gw, gh, cell, y, x, shift.blue)
            &&& is_sampled(k, planar.r@, w, h, shift.red, r)
            &&& is_sampled(k, planar.b@, w, h, shift.blue, b)
            &&& is_full_pixel(k, look, r, at(planar.g@, w, y, x), b, px)
        }),
{
    let (w, h) = (planar.w as int, planar.h as int);
    let (shift, r, b) = choose|shift: Shift<K::W>, r: K::S, b: K::S|
        {
            &&& #[trigger] is_shift(k, lca, y, x, shift)
            &&& is_sampled(k, planar.r@, w, h, shift.red, r)
            &&& is_sampled(k, planar.b@, w, h, shift.blue, b)
            &&& #[trigger] is_full_pixel(k, look, r, at(planar.g@, w, y, x), b, px)
        };
    let (gw, gh) = (lca.gw as int, lca.gh as int);
    let cell = choose|cell: Spot<K::W>| #[trigger]
        call_ensures(<K as Kernels>::cell, (&k, y as usize, x as usize), cell) && is_displaced(
            k,
            lca.rx@,
            lca.ry@,
            gw,
            gh,
            cell,
            y,
            x,
            shift.red,
        ) && is_displaced(k, lca.bx@, lca.by@, gw, gh, cell, y, x, shift.blue);
    (cell, shift, r, b)
}

/// Red is taken where the red grids point and blue where the blue grids point, each from
/// its own plane; green stays in place. `red` and `blue` are what a pixel meets there.
pub proof fn law_channels_are_taken_where_their_grids_point<K: Kernels>(
    k: K,
    look: Look<K::S, K::D>,
    lca: Lca,
    planar: Planar<K::S>,
    rgb: Seq<u8>,
    level: spec_fn(K::S) -> int,
    channels: spec_fn(K::P) -> (int, int, int),
    byte: spec_fn(int) -> u8,
    y: int,
    x: int,
    red: int,
    blue: int,
)
    requires
        keeps_channels(k, look.est.ccm, channels),
        encodes_by_table(k, channels, byte),
        keeps_triples(k, level, channels),
        lca.wf(),
        planar.wf(),
        is_lca_render(k, look, lca, planar, rgb),
        0 <= y < planar.h,
        0 <= x < planar.w,
    ensures
        meets(
            k,
            lca.rx@,
            lca.ry@,
            lca.gw as int,
            lca.gh as int,
            planar.r@,
            planar.w as int,
            planar.h as int,
            y,
            x,
            level,
            red,
        ) ==> rgb[3 * (y * planar.w + x)] == byte(red),
        rgb[3 * (y * planar.w + x) + 1] == byte(level(planar.g@[y * planar.w + x])),
        meets(
            k,
            lca.bx@,
            lca.by@,
            lca.gw as int,
            lca.gh as int,
            planar.b@,
            planar.w as int,
            planar.h as int,
            y,
            x,
            level,
            blue,
        ) ==> rgb[3 * (y * planar.w + x) + 2] == byte(blue),
{
    let (w, h) = (planar.w as int, planar.h as int);
    let (gw, gh) = (lca.gw as int, lca.gh as int);
    let px = pixel(rgb, w, y, x);
    assert(is_lca_pixel(k, look, lca, planar, y, x, px));
    let (cell, shift, r, b) = lemma_lca_pixel_parts(k, look, lca, planar, y, x, px);
    lemma_full_pixel_keeps(k, look, level, channels, byte, r, at(planar.g@, w, y, x), b, px);
    if meets(k, lca.rx@, lca.ry@, gw, gh, planar.r@, w, h, y, x, level, red) {
        lemma_meets(
            k,
            lca.rx@,
            lca.ry@,
            gw,
            gh,
            planar.r@,
            w,
            h,
            y,
            x,
            level,
            red,
            cell,
            shift.red,
            r,
        );
    }
    if meets(k, lca.bx@, lca.by@, gw, gh, planar.b@, w, h, y, x, level, blue) {
        lemma_meets(
            k,
            lca.bx@,
            lca.by@,
            gw,
            gh,
            planar.b@,
            w,
            h,
            y,
            x,
            level,
            blue,
            cell,
            shift.blue,
            b,
        );
    }
}

/// Whole shifts move each channel by its own grids. With grids of one word each, where
/// `shift` reads a word as a number of pixels, the red byte of pixel `(y, x)` is the red
/// sample `shift(ry)` rows down and `shift(rx)` columns across, and the blue byte is the
/// blue sample by `shift(by)` and `shift(bx)`, wherever that lies inside the image. This
/// is of arithmetic for which the shift between four equal words is what the word reads,
/// and a pixel shifted by whole numbers lies on a sample.
pub proof fn law_whole_shifts_move_each_channel<K: Kernels>(
    k: K,
    look: Look<K::S, K::D>,
    lca: Lca,
    planar: Planar<K::S>,
    rgb: Seq<u8>,
    level: spec_fn(K::S) -> int,
    channels: spec_fn(K::P) -> (int, int, int),
    byte: spec_fn(int) -> u8,
    shift: spec_fn(u32) -> int,
    number: spec_fn(K::S) -> int,
    words: (u32, u32, u32, u32),
    y: int,
    x: int,
)
    requires
        keeps_channels(k, look.est.ccm, channels),
        encodes_by_table(k, channels, byte),
        keeps_triples(k, level, channels),
        lca.wf(),
        planar.wf(),
        is_lca_render(k, look, lca, planar, rgb),
        forall|i: int| 0 <= i < lca.rx.len() ==> #[trigger] lca.rx@[i] == words.0,
        forall|i: int| 0 <= i < lca.ry.len() ==> #[trigger] lca.ry@[i] == words.1,
        forall|i: int| 0 <= i < lca.bx.len() ==> #[trigger] lca.bx@[i] == words.2,
        forall|i: int| 0 <= i < lca.by.len() ==> #[trigger] lca.by@[i] == words.3,
        forall|u: u32, weights: K::W, v: K::S| #[trigger]
            call_ensures(
                <K as Kernels>::offset,
                (&k, Quad { p00: u, p01: u, p10: u, p11: u }, weights),
                v,
            ) ==> number(v) == shift(u),
        forall|a: usize, b: usize, dx: K::S, dy: K::S, spot: Spot<K::W>| #[trigger]
            call_ensures(<K as Kernels>::displace, (&k, a, b, dx, dy), spot) && 0 <= a + number(dy)
                < planar.h && 0 <= b + number(dx) < planar.w ==> spot.y == a + number(dy) && spot.x
                == b + number(dx) && forall|q: Quad<K::S>, v: K::S| #[trigger]
                call_ensures(<K as Kernels>::resample, (&k, q, spot.weights), v) ==> v == q.p00,
        0 <= y < planar.h,
        0 <= x < planar.w,
    ensures
        0 <= y + shift(words.1) < planar.h && 0 <= x + shift(words.0) < planar.w ==> rgb[3 * (y
            * planar.w + x)] == byte(
            level(planar.r@[(y + shift(words.1)) * planar.w + x + shift(words.0)]),
        ),
        rgb[3 * (y * planar.w + x) + 1] == byte(level(planar.g@[y * planar.w + x])),
        0 <= y + shift(words.3) < planar.h && 0 <= x + shift(words.2) < planar.w ==> rgb[3 * (y
            * planar.w + x) + 2] == byte(
            level(planar.b@[(y + shift(words.3)) * planar.w + x + shift(words.2)]),
        ),
{
    let (w, h) = (planar.w as int, planar.h as int);
    let (gw, gh) = (lca.gw as int, lca.gh as int);
    let (ry, rx) = (y + shift(words.1), x + shift(words.0));
    let (by, bx) = (y + shift(words.3), x + shift(words.2));
    let red = level(planar.r@[ry * w + rx]);
    let blue = level(planar.b@[by * w + bx]);
    lemma_even_grid(lca.rx@, gw, gh, words.0);
    lemma_even_grid(lca.ry@, gw, gh, words.1);
    lemma_even_grid(lca.bx@, gw, gh, words.2);
    lemma_even_grid(lca.by@, gw, gh, words.3);
    if 0 <= ry < h && 0 <= rx < w {
        assert(meets(k, lca.rx@, lca.ry@, gw, gh, planar.r@, w, h, y, x, level, red));
    }
    if 0 <= by < h && 0 <= bx < w {
        assert(meets(k, lca.bx@, lca.by@, gw, gh, planar.b@, w, h, y, x, level, blue));
    }
    law_channels_are_taken_where_their_grids_point(
        k,
        look,
        lca,
        planar,
        rgb,
        level,
        channels,
        byte,
        y,
        x,
        red,
        blue,
    );
}

/// Around every position of a grid of one word is that word.
proof fn lemma_even_grid(s: Seq<u32>, w: int, h: int, u: u32)
    requires
        0 < w,
        0 < h,
        s.len() == h * w,
        forall|i: int| 0 <= i < s.len() ==> #[trigger] s[i] == u,
    ensures
        forall|y: int, x: int|
            0 <= y && 0 <= x ==> #[trigger] around(s, w, h, y, x) == (Quad {
                p00: u,
                p01: u,
                p10: u,
                p11: u,
            }),
{
    assert forall|y: int, x: int| 0 <= y && 0 <= x implies #[trigger] around(s, w, h, y, x) == (
    Quad { p00: u, p01: u, p10: u, p11: u }) by {
        let y0 = if y < h {
            y
        } else {
            h - 1
        };
        let x0 = if x < w {
            x
        } else {
            w - 1
        };
        let y1 = if y + 1 < h {
            y + 1
        } else {
            h - 1
        };
        let x1 = if x + 1 < w {
            x + 1
        } else {
            w - 1
        };
        lemma_cell(h, w, y0, x0);
        lemma_cell(h, w, y0, x1);
        lemma_cell(h, w, y1, x0);
        lemma_cell(h, w, y1, x1);
    }
}

/// Red follows the red grids alone and blue the blue grids alone: in two renders of the
/// same planes the blue bytes are equal where the blue grids are, whatever the red grids
/// hold, and the red bytes where the red grids are. Green follows neither.
pub proof fn law_channels_follow_their_own_grids<K: Kernels>(
    k: K,
    look: Look<K::S, K::D>,
    one: Lca,
    two: Lca,
    planar: Planar<K::S>,
    a: Seq<u8>,
    b: Seq<u8>,
    level: spec_fn(K::S) -> int,
    channels: spec_fn(K::P) -> (int, int, int),
    byte: spec_fn(int) -> u8,
    y: int,
    x: int,
)
    requires
        is_determined(k),
        keeps_channels(k, look.est.ccm, channels),
        encodes_by_table(k, channels, byte),
        keeps_triples(k, level, channels),
        one.wf(),
        two.wf(),
        one.gw == two.gw,
        one.gh == two.gh,
        planar.wf(),
        is_lca_render(k, look, one, planar, a),
        is_lca_render(k, look, two, planar, b),
        0 <= y < planar.h,
        0 <= x < planar.w,
    ensures
        one.rx@ == two.rx@ && one.ry@ == two.ry@ ==> a[3 * (y * planar.w + x)] == b[3 * (y
            * planar.w + x)],
        a[3 * (y * planar.w + x) + 1] == b[3 * (y * planar.w + x) + 1],
        one.bx@ == two.bx@ && one.by@ == two.by@ ==> a[3 * (y * planar.w + x) + 2] == b[3 * (y
            * planar.w + x) + 2],
{
    let (w, h) = (planar.w as int, planar.h as int);
    let (gw, gh) = (one.gw as int, one.gh as int);
    let (p, q) = (pixel(a, w, y, x), pixel(b, w, y, x));
    assert(is_lca_pixel(k, look, one, planar, y, x, p));
    assert(is_lca_pixel(k, look, two, planar, y, x, q));
    let (c1, s1, r1, b1) = lemma_lca_pixel_parts(k, look, one, planar, y, x, p);
    let (c2, s2, r2, b2) = lemma_lca_pixel_parts(k, look, two, planar, y, x, q);
    let g = at(planar.g@, w, y, x);
    lemma_full_pixel_keeps(k, look, level, channels, byte, r1, g, b1, p);
    lemma_full_pixel_keeps(k, look, level, channels, byte, r2, g, b2, q);
    assert(c1 == c2);
    if one.rx@ == two.rx@ && one.ry@ == two.ry@ {
        lemma_displaced_unique(
            k,
            one.rx@,
            one.ry@,
            gw,
            gh,
            c1,
            y,
            x,
            s1.red,
            s2.red,
        );
        assert(r1 == r2);
    }
    if one.bx@ == two.bx@ && one.by@ == two.by@ {
        lemma_displaced_unique(
            k,
            one.bx@,
            one.by@,
            gw,
            gh,
            c1,
            y,
            x,
            s1.blue,
            s2.blue,
        );
        assert(b1 == b2);
    }
}

/// The half-resolution render makes each pixel from its own tile: red from the red sample
/// and its gain, blue from the blue ones, green from both greens, each byte in its own
/// place. `red`, `green` and `blue` are what the arithmetic makes of those.
pub proof fn law_half_pixels_are_their_tiles<K: Kernels>(
    k: K,
    look: Look<K::S, K::D>,
    p: Planes<u16>,
    grids: Grids<K::G>,
    rgb: Seq<u8>,
    red: spec_fn(u16, K::G) -> int,
    green: spec_fn(u16, K::G, u16, K::G) -> int,
    blue: spec_fn(u16, K::G) -> int,
    channels: spec_fn(K::P) -> (int, int, int),
    byte: spec_fn(int) -> u8,
    y: int,
    x: int,
)
    requires
        keeps_channels(k, look.est.ccm, channels),
        encodes_exactly(k, channels, byte),
        forall|t: Tile<u16>, g: Tile<K::G>, q: K::P| #[trigger]
            call_ensures(<K as Kernels>::tile, (&k, &look.est.gains, t, g), q) ==> channels(q) == (
                red(t.r, g.r),
                green(t.gr, g.gr, t.gb, g.gb),
                blue(t.b, g.b),
            ),
        p.wf(),
        grids.wf(),
        grids.ww == p.ww,
        is_half_render(k, look, p, grids, rgb),
        0 <= y < p.hh,
        0 <= x < p.ww,
    ensures
        ({
            let i = y * p.ww + x;
            &&& rgb[3 * i] == byte(red(p.r@[i], grids.g_r@[i]))
            &&& rgb[3 * i + 1] == byte(green(p.gr@[i], grids.g_gr@[i], p.gb@[i], grids.g_gb@[i]))
            &&& rgb[3 * i + 2] == byte(blue(p.b@[i], grids.g_b@[i]))
        }),
{
    let px = pixel(rgb, p.ww as int, y, x);
    let t = samples_at(p, y, x);
    let g = gains_at(grids, y, x);
    assert(is_half_pixel(k, look, t, g, px));
    let (lin, out) = choose|lin: K::P, out: K::P|
        {
            &&& #[trigger] call_ensures(<K as Kernels>::tile, (&k, &look.est.gains, t, g), lin)
            &&& #[trigger] is_coloured(k, look, lin, out)
            &&& call_ensures(<K as Kernels>::encode, (&k, out), px)
        };
    lemma_coloured_keeps(k, look, channels, lin, out);
}

/// In the plain full-resolution render a photosite's own sample is the byte of its own
/// colour: red at even rows and odd columns, blue at odd rows and even columns, green at
/// the other two. This is of filters that hand the centre sample through.
pub proof fn law_photosites_keep_their_colour<K: Kernels>(
    k: K,
    look: Look<K::S, K::D>,
    cfa: Seq<K::S>,
    w: int,
    h: int,
    rgb: Seq<u8>,
    level: spec_fn(K::S) -> int,
    channels: spec_fn(K::P) -> (int, int, int),
    byte: spec_fn(int) -> u8,
    y: int,
    x: int,
)
    requires
        keeps_channels(k, look.est.ccm, channels),
        encodes_by_table(k, channels, byte),
        keeps_triples(k, level, channels),
        forall|t: Taps<K::S>, f: Filtered<K::S>| #[trigger]
            call_ensures(
                <K as Debayer<K::S, K::S>>::filters,
                (&k, t),
                f,
            ) ==> level(f.c) == level(t.c),
        is_mhc_render(k, look, cfa, w, h, rgb),
        0 <= y < h,
        0 <= x < w,
    ensures
        rgb[3 * (y * w + x) + (if y % 2 == x % 2 {
            1int
        } else if y % 2 == 0 {
            0int
        } else {
            2int
        })] == byte(level(cfa[y * w + x])),
{
    let px = pixel(rgb, w, y, x);
    assert(is_mhc_pixel(k, look, cfa, w, h, y, x, px));
    let t = choose|t: (K::S, K::S, K::S)|
        is_mhc::<K::S, K::S, K>(k, cfa, w, h, y, x, t) && #[trigger] is_full_pixel(
            k,
            look,
            t.0,
            t.1,
            t.2,
            px,
        );
    lemma_full_pixel_keeps(k, look, level, channels, byte, t.0, t.1, t.2, px);
}

/// A half-resolution frame shows its own samples, whether or not it is due for an estimate:
/// each byte comes from the samples of its tile in the frame that the buffer holds, and
/// from the shading gains beside them.
pub proof fn law_half_frame_shows_its_own_samples<K: Kernels>(
    k: K,
    cal: Calibration<K::T>,
    bytes: Seq<u8>,
    raw: RawFrame<u16>,
    old: Processor<K>,
    new: Processor<K>,
    look: Look<K::S, K::D>,
    grids: Grids<K::G>,
    red: spec_fn(u16, K::G) -> int,
    green: spec_fn(u16, K::G, u16, K::G) -> int,
    blue: spec_fn(u16, K::G) -> int,
    channels: spec_fn(K::P) -> (int, int, int),
    byte: spec_fn(int) -> u8,
    y: int,
    x: int,
)
    requires
        old.wf(),
        old.mode == DebayerMode::HalfRes,
        is_blc_frame(bytes, raw),
        is_step(k, cal, bytes, old, new),
        new.look == Some(look),
        new.grids == Some(grids),
        grids.wf(),
        grids.ww == 964,
        keeps_channels(k, look.est.ccm, channels),
        encodes_exactly(k, channels, byte),
        forall|t: Tile<u16>, g: Tile<K::G>, q: K::P| #[trigger]
            call_ensures(<K as Kernels>::tile, (&k, &look.est.gains, t, g), q) ==> channels(q) == (
                red(t.r, g.r),
                green(t.gr, g.gr, t.gb, g.gb),
                blue(t.b, g.b),
            ),
        0 <= y < 544,
        0 <= x < 964,
    ensures
        ({
            let i = y * 964 + x;
            let top = 2 * y * 1928 + 2 * x;
            let below = (2 * y + 1) * 1928 + 2 * x;
            &&& new.out@[3 * i] == byte(red(raw.data@[top + 1], grids.g_r@[i]))
            &&& new.out@[3 * i + 1] == byte(
                green(raw.data@[top], grids.g_gr@[i], raw.data@[below + 1], grids.g_gb@[i]),
            )
            &&& new.out@[3 * i + 2] == byte(blue(raw.data@[below], grids.g_b@[i]))
        }),
{
    let (split, estimated) = choose|split: Processor<K>, estimated: Processor<K>|
        {
            &&& #[trigger] is_resplit(bytes, old, split)
            &&& if old.due() {
                is_reestimated(k, cal, split, estimated)
            } else {
                estimated == split
            }
            &&& #[trigger] is_counted(estimated, new)
        };
    let p = new.planes;
    assert(is_blc_split(bytes, p));
    lemma_fused_split(bytes, raw, p);
    law_tiles_are_green_red_blue_green(raw, p, y, x);
    law_half_pixels_are_their_tiles(
        k,
        look,
        p,
        grids,
        new.out@,
        red,
        green,
        blue,
        channels,
        byte,
        y,
        x,
    );
}

/// A full-resolution frame without aberration correction shows its own samples: the byte
/// of a photosite's own colour comes from its sample in the frame that the buffer holds,
/// the shading gain of its filter in its tile, and the white-balance gain of its colour.
pub proof fn law_full_frame_shows_its_own_samples<K: Kernels>(
    k: K,
    cal: Calibration<K::T>,
    bytes: Seq<u8>,
    raw: RawFrame<u16>,
    old: Processor<K>,
    new: Processor<K>,
    look: Look<K::S, K::D>,
    grids: Grids<K::G>,
    lit: spec_fn(u16, K::G, K::D) -> int,
    level: spec_fn(K::S) -> int,
    channels: spec_fn(K::P) -> (int, int, int),
    byte: spec_fn(int) -> u8,
    y: int,
    x: int,
)
    requires
        old.wf(),
        old.mode == DebayerMode::Mhc,
        !old.lca,
        is_blc_frame(bytes, raw),
        is_step(k, cal, bytes, old, new),
        new.look == Some(look),
        new.grids == Some(grids),
        grids.wf(),
        grids.ww == 964,
        keeps_channels(k, look.est.ccm, channels),
        encodes_by_table(k, channels, byte),
        keeps_triples(k, level, channels),
        forall|v: u16, g: K::G, d: K::D, s: K::S| #[trigger]
            call_ensures(<K as Kernels>::shade, (&k, v, g, d), s) ==> level(s) == lit(v, g, d),
        forall|t: Taps<K::S>, f: Filtered<K::S>| #[trigger]
            call_ensures(
                <K as Debayer<K::S, K::S>>::filters,
                (&k, t),
                f,
            ) ==> level(f.c) == level(t.c),
        0 <= y < 1088,
        0 <= x < 1928,
    ensures
        ({
            let v = raw.data@[y * 1928 + x];
            let i = (y / 2) * 964 + x / 2;
            let o = 3 * (y * 1928 + x);
            let gains = look.est.gains@;
            &&& y % 2 == 0 && x % 2 == 0 ==> new.out@[o + 1] == byte(
                lit(v, grids.g_gr@[i], gains[1]),
            )
            &&& y % 2 == 0 && x % 2 == 1 ==> new.out@[o] == byte(lit(v, grids.g_r@[i], gains[0]))
            &&& y % 2 == 1 && x % 2 == 0 ==> new.out@[o + 2] == byte(
                lit(v, grids.g_b@[i], gains[2]),
            )
            &&& y % 2 == 1 && x % 2 == 1 ==> new.out@[o + 1] == byte(
                lit(v, grids.g_gb@[i], gains[1]),
            )
        }),
{
    let cfa = choose|cfa: Seq<K::S>| #[trigger]
        is_cfa_of_bytes(k, bytes, grids, look.est.gains, cfa) && is_full(
            k,
            cal.lca,
            cfa,
            1928,
            1088,
            new.lca,
            look,
            new.out@,
        );
    law_photosites_keep_their_colour(
        k,
        look,
        cfa,
        1928,
        1088,
        new.out@,
        level,
        channels,
        byte,
        y,
        x,
    );
    let s = at(cfa, 1928, y, x);
    let v = raw.sample(y, x);
    assert(is_shaded(k, grids, look.est.gains, y, x, v, s));
}

/// A full-resolution render with aberration correction shows, at a pixel, the red
/// photosite that the red grids point to and the blue photosite that the blue grids point
/// to, for whole shifts as in [`law_whole_shifts_move_each_channel`].
pub proof fn law_realigned_photosites_keep_their_colour<K: Kernels>(
    k: K,
    look: Look<K::S, K::D>,
    lca: Lca,
    cfa: Seq<K::S>,
    w: int,
    h: int,
    rgb: Seq<u8>,
    level: spec_fn(K::S) -> int,
    channels: spec_fn(K::P) -> (int, int, int),
    byte: spec_fn(int) -> u8,
    shift: spec_fn(u32) -> int,
    number: spec_fn(K::S) -> int,
    words: (u32, u32, u32, u32),
    y: int,
    x: int,
)
    requires
        keeps_channels(k, look.est.ccm, channels),
        encodes_by_table(k, channels, byte),
        keeps_triples(k, level, channels),
        forall|t: Taps<K::S>, f: Filtered<K::S>| #[trigger]
            call_ensures(
                <K as Debayer<K::S, K::S>>::filters,
                (&k, t),
                f,
            ) ==> level(f.c) == level(t.c),
        lca.wf(),
        is_full(k, lca, cfa, w, h, true, look, rgb),
        forall|i: int| 0 <= i < lca.rx.len() ==> #[trigger] lca.rx@[i] == words.0,
        forall|i: int| 0 <= i < lca.ry.len() ==> #[trigger] lca.ry@[i] == words.1,
        forall|i: int| 0 <= i < lca.bx.len() ==> #[trigger] lca.bx@[i] == words.2,
        forall|i: int| 0 <= i < lca.by.len() ==> #[trigger] lca.by@[i] == words.3,
        forall|u: u32, weights: K::W, v: K::S| #[trigger]
            call_ensures(
                <K as Kernels>::offset,
                (&k, Quad { p00: u, p01: u, p10: u, p11: u }, weights),
                v,
            ) ==> number(v) == shift(u),
        forall|a: usize, b: usize, dx: K::S, dy: K::S, spot: Spot<K::W>| #[trigger]
            call_ensures(<K as Kernels>::displace, (&k, a, b, dx, dy), spot) && 0 <= a + number(dy)
                < h && 0 <= b + number(dx) < w ==> spot.y == a + number(dy) && spot.x == b + number(
                dx,
            ) && forall|q: Quad<K::S>, v: K::S| #[trigger]
                call_ensures(<K as Kernels>::resample, (&k, q, spot.weights), v) ==> v == q.p00,
        0 <= y < h,
        0 <= x < w,
    ensures
        ({
            let (ry, rx) = (y + shift(words.1), x + shift(words.0));
            0 <= ry < h && 0 <= rx < w && ry % 2 == 0 && rx % 2 == 1 ==> rgb[3 * (y * w + x)]
                == byte(level(cfa[ry * w + rx]))
        }),
        y % 2 == x % 2 ==> rgb[3 * (y * w + x) + 1] == byte(level(cfa[y * w + x])),
        ({
            let (by, bx) = (y + shift(words.3), x + shift(words.2));
            0 <= by < h && 0 <= bx < w && by % 2 == 1 && bx % 2 == 0 ==> rgb[3 * (y * w + x) + 2]
                == byte(level(cfa[by * w + bx]))
        }),
{
    let planar = choose|planar: Planar<K::S>| #[trigger]
        is_planar::<K::S, K::S, K>(k, cfa, w, h, planar) && is_lca_render(
            k,
            look,
            lca,
            planar,
            rgb,
        );
    law_whole_shifts_move_each_channel(
        k,
        look,
        lca,
        planar,
        rgb,
        level,
        channels,
        byte,
        shift,
        number,
        words,
        y,
        x,
    );
    let (ry, rx) = (y + shift(words.1), x + shift(words.0));
    let (by, bx) = (y + shift(words.3), x + shift(words.2));
    if 0 <= ry < h && 0 <= rx < w {
        assert(is_mhc::<K::S, K::S, K>(k, cfa, w, h, ry, rx, planar.rgb(ry, rx)));
    }
    if 0 <= by < h && 0 <= bx < w {
        assert(is_mhc::<K::S, K::S, K>(k, cfa, w, h, by, bx, planar.rgb(by, bx)));
    }
    assert(is_mhc::<K::S, K::S, K>(k, cfa, w, h, y, x, planar.rgb(y, x)));
}

/// Every pixel of the half-resolution render goes through the whole colour stage: its tile,
/// then highlights, then the global matrix or, for a colour with a hue, a matrix and the
/// skin and the yellow band, then the exact transfer function. `trace` reads the steps that
/// a pixel has behind it, as in [`law_colour_stages_come_in_order`], and `bytes` what is
/// made of them.
pub proof fn law_half_pixels_are_coloured<K: Kernels>(
    k: K,
    look: Look<K::S, K::D>,
    p: Planes<u16>,
    grids: Grids<K::G>,
    rgb: Seq<u8>,
    trace: spec_fn(K::P) -> Seq<int>,
    tag: spec_fn([K::D; 9]) -> int,
    vivid: spec_fn(Seq<int>) -> bool,
    bytes: spec_fn(Seq<int>) -> Rgb8,
    y: int,
    x: int,
)
    requires
        leaves_traces(k, trace, tag, vivid),
        forall|t: Tile<u16>, g: Tile<K::G>, q: K::P| #[trigger]
            call_ensures(<K as Kernels>::tile, (&k, &look.est.gains, t, g), q) ==> trace(q)
                == Seq::<int>::empty(),
        forall|q: K::P, px: Rgb8| #[trigger]
            call_ensures(<K as Kernels>::encode, (&k, q), px) ==> px == bytes(trace(q)),
        is_half_render(k, look, p, grids, rgb),
        0 <= y < p.hh,
        0 <= x < p.ww,
    ensures
        ({
            let i = 3 * (y * p.ww + x);
            let px = Rgb8 { r: rgb[i], g: rgb[i + 1], b: rgb[i + 2] };
            let plain = seq![-1, tag(look.est.ccm)];
            if vivid(plain) {
                exists|m: [K::D; 9]| px == bytes(seq![-1, #[trigger] tag(m), -2, -3])
            } else {
                px == bytes(plain)
            }
        }),
{
    let px = pixel(rgb, p.ww as int, y, x);
    let t = samples_at(p, y, x);
    let g = gains_at(grids, y, x);
    assert(is_half_pixel(k, look, t, g, px));
    let (lin, out) = choose|lin: K::P, out: K::P|
        {
            &&& #[trigger] call_ensures(<K as Kernels>::tile, (&k, &look.est.gains, t, g), lin)
            &&& #[trigger] is_coloured(k, look, lin, out)
            &&& call_ensures(<K as Kernels>::encode, (&k, out), px)
        };
    law_colour_stages_come_in_order(k, look, lin, out, trace, tag, vivid);
    lemma_trace_from_nothing(trace(lin), tag, look.est.ccm);
}

/// The steps are those of [`law_colour_stages_come_in_order`].
pub open spec fn leaves_traces<K: Kernels>(
    k: K,
    trace: spec_fn(K::P) -> Seq<int>,
    tag: spec_fn([K::D; 9]) -> int,
    vivid: spec_fn(Seq<int>) -> bool,
) -> bool {
    &&& forall|a: K::P, b: K::P| #[trigger]
        call_ensures(<K as Kernels>::highlight, (&k, a), b) ==> trace(b) == trace(a).push(-1)
    &&& forall|m: [K::D; 9], a: K::P, b: K::P| #[trigger]
        call_ensures(<K as Kernels>::matrix, (&k, &m, a), b) ==> trace(b) == trace(a).push(tag(m))
    &&& forall|a: K::P, b: K::P| #[trigger]
        call_ensures(<K as Kernels>::desaturate, (&k, Band::Skin, a), b) ==> trace(b) == trace(
            a,
        ).push(-2)
    &&& forall|a: K::P, b: K::P| #[trigger]
        call_ensures(<K as Kernels>::desaturate, (&k, Band::Yellow, a), b) ==> trace(b) == trace(
            a,
        ).push(-3)
    &&& forall|a: K::P, hue: Option<Hue<K::Q>>| #[trigger]
        call_ensures(<K as Kernels>::hue, (&k, a), hue) ==> (hue is Some) == vivid(trace(a))
}

/// A trace that starts with nothing.
proof fn lemma_trace_from_nothing<D>(start: Seq<int>, tag: spec_fn([D; 9]) -> int, ccm: [D; 9])
    requires
        start == Seq::<int>::empty(),
    ensures
        start + seq![-1, tag(ccm)] == seq![-1, tag(ccm)],
        forall|m: [D; 9]| start + seq![-1, #[trigger] tag(m), -2, -3] == seq![-1, tag(m), -2, -3],
{
    assert(start + seq![-1, tag(ccm)] =~= seq![-1, tag(ccm)]);
    assert forall|m: [D; 9]| start + seq![-1, #[trigger] tag(m), -2, -3] == seq![
        -1,
        tag(m),
        -2,
        -3,
    ] by {
        assert(start + seq![-1, tag(m), -2, -3] =~= seq![-1, tag(m), -2, -3]);
    }
}

/// Every pixel of a full-resolution render, with aberration correction (`lca`) or without,
/// goes through the whole colour stage, as in [`law_half_pixels_are_coloured`], and then
/// the tabulated transfer function.
pub proof fn law_full_pixels_are_coloured<K: Kernels>(
    k: K,
    look: Look<K::S, K::D>,
    grids: Lca,
    cfa: Seq<K::S>,
    w: int,
    h: int,
    lca: bool,
    rgb: Seq<u8>,
    trace: spec_fn(K::P) -> Seq<int>,
    tag: spec_fn([K::D; 9]) -> int,
    vivid: spec_fn(Seq<int>) -> bool,
    bytes: spec_fn(Seq<int>) -> Rgb8,
    y: int,
    x: int,
)
    requires
        leaves_traces(k, trace, tag, vivid),
        forall|r: K::S, g: K::S, b: K::S, q: K::P| #[trigger]
            call_ensures(<K as Kernels>::linear, (&k, r, g, b), q) ==> trace(q) == Seq::<
                int,
            >::empty(),
        forall|q: K::P, px: Rgb8| #[trigger]
            call_ensures(<K as Kernels>::encode_fast, (&k, q), px) ==> px == bytes(trace(q)),
        is_full(k, grids, cfa, w, h, lca, look, rgb),
        0 <= y < h,
        0 <= x < w,
    ensures
        ({
            let i = 3 * (y * w + x);
            let px = Rgb8 { r: rgb[i], g: rgb[i + 1], b: rgb[i + 2] };
            let plain = seq![-1, tag(look.est.ccm)];
            if vivid(plain) {
                exists|m: [K::D; 9]| px == bytes(seq![-1, #[trigger] tag(m), -2, -3])
            } else {
                px == bytes(plain)
            }
        }),
{
    let px = pixel(rgb, w, y, x);
    let (r, g, b) = if lca {
        let planar = choose|planar: Planar<K::S>| #[trigger]
            is_planar::<K::S, K::S, K>(k, cfa, w, h, planar) && is_lca_render(
                k,
                look,
                grids,
                planar,
                rgb,
            );
        assert(is_lca_pixel(k, look, grids, planar, y, x, pixel(rgb, planar.w as int, y, x)));
        let (cell, shift, r, b) = lemma_lca_pixel_parts(k, look, grids, planar, y, x, px);
        (r, at(planar.g@, w, y, x), b)
    } else {
        assert(is_mhc_pixel(k, look, cfa, w, h, y, x, px));
        let t = choose|t: (K::S, K::S, K::S)|
            is_mhc::<K::S, K::S, K>(k, cfa, w, h, y, x, t) && #[trigger] is_full_pixel(
                k,
                look,
                t.0,
                t.1,
                t.2,
                px,
            );
        t
    };
    let (lin, out) = choose|lin: K::P, out: K::P|
        {
            &&& #[trigger] call_ensures(<K as Kernels>::linear, (&k, r, g, b), lin)
            &&& #[trigger] is_coloured(k, look, lin, out)
            &&& call_ensures(<K as Kernels>::encode_fast, (&k, out), px)
        };
    law_colour_stages_come_in_order(k, look, lin, out, trace, tag, vivid);
    lemma_trace_from_nothing(trace(lin), tag, look.est.ccm);
}

} // verus!
