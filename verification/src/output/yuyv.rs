//! Packed YUYV (YUV 4:2:2): conversion from RGB and the standby frame.
//!
//! The conversion evaluates the full-range BT.601 formulas as single-precision
//! hardware does. Every term is a multiple of 2^-27 there, so the evaluation is
//! carried out on integers in that unit, each product and sum rounded to 24
//! significant bits.

use vstd::prelude::*;

use crate::rows::{at, grid, lemma_cell};

verus! {

/// One, in units of 2^-27.
pub const ONE: i64 = 0x800_0000;

/// Significant bits of a single-precision number, as a factor.
pub const PRECISION: i64 = 0x100_0000;

/// The spacing of 24-bit numbers around `x`: the first of `u`, `2u`, `4u`, ...
/// that `x` is below 2^24 times of.
pub open spec fn spacing(x: int, u: int) -> int
    decreases x - u,
{
    if u <= 0 || x < u * PRECISION {
        u
    } else {
        spacing(x, 2 * u)
    }
}

/// The multiple of `u` nearest `x`; of two equally near ones the even multiple.
pub open spec fn nearest(x: int, u: int) -> int {
    let (q, r) = (x / u, x % u);
    if 2 * r < u || (2 * r == u && q % 2 == 0) {
        q * u
    } else {
        (q + 1) * u
    }
}

/// `x` rounded to 24 significant bits, ties to even.
pub open spec fn single(x: int) -> int {
    if x < 0 {
        -nearest(-x, spacing(-x, 1))
    } else {
        nearest(x, spacing(x, 1))
    }
}

/// Spacings are positive and small against what they space.
proof fn lemma_spacing(x: int, u: int)
    requires
        0 <= x,
        1 <= u,
    ensures
        1 <= spacing(x, u),
        spacing(x, u) <= u || spacing(x, u) * 0x80_0000 <= x,
    decreases x - u,
{
    if x >= u * PRECISION {
        lemma_spacing(x, 2 * u);
    }
}

/// The nearest multiple is within half a spacing.
proof fn lemma_nearest(x: int, u: int)
    requires
        0 <= x,
        1 <= u,
    ensures
        -u <= 2 * (nearest(x, u) - x) <= u,
        0 <= nearest(x, u),
{
    vstd::arithmetic::div_mod::lemma_fundamental_div_mod(x, u);
    vstd::arithmetic::div_mod::lemma_mod_bound(x, u);
    vstd::arithmetic::div_mod::lemma_div_pos_is_pos(x, u);
    let q = x / u;
    assert(u * q == q * u) by (nonlinear_arith);
    assert((q + 1) * u == q * u + u) by (nonlinear_arith);
    assert(q * u >= 0) by (nonlinear_arith)
        requires
            q >= 0,
            u >= 0,
    ;
}

/// Rounding to single precision moves a value by less than 2^-15 here.
proof fn lemma_single(x: int)
    requires
        -0x10_0000_0000 <= x <= 0x10_0000_0000,
    ensures
        -0x1000 <= single(x) - x <= 0x1000,
{
    let m = if x < 0 {
        -x
    } else {
        x
    };
    lemma_spacing(m, 1);
    lemma_nearest(m, spacing(m, 1));
}

/// Round to 24 significant bits, ties to even.
fn to_single(x: i64) -> (y: i64)
    requires
        -0x10_0000_0000 <= x <= 0x10_0000_0000,
    ensures
        y == single(x as int),
{
    let m: i64 = if x < 0 {
        -x
    } else {
        x
    };
    let mut u: i64 = 1;
    while m >= u * PRECISION
        invariant
            0 <= m <= 0x10_0000_0000,
            1 <= u <= 0x4000,
            spacing(m as int, 1) == spacing(m as int, u as int),
        decreases m - u,
    {
        u = 2 * u;
    }
    proof {
        assert(u == spacing(m as int, 1));
        lemma_nearest(m as int, u as int);
        vstd::arithmetic::div_mod::lemma_fundamental_div_mod(m as int, u as int);
        vstd::arithmetic::div_mod::lemma_mod_bound(m as int, u as int);
        let q = m as int / u as int;
        assert((q + 1) * u == u * q + u) by (nonlinear_arith);
        assert(q * u == u * q) by (nonlinear_arith);
        vstd::arithmetic::div_mod::lemma_div_pos_is_pos(m as int, u as int);
        assert(q <= m) by (nonlinear_arith)
            requires
                u * q <= m,
                u >= 1,
                q >= 0,
        ;
    }
    let q: i64 = m / u;
    let r: i64 = m % u;
    let n: i64 = if 2 * r < u || (2 * r == u && q % 2 == 0) {
        q * u
    } else {
        (q + 1) * u
    };
    if x < 0 {
        -n
    } else {
        n
    }
}

/// A luma-chroma triple.
#[derive(Debug, Clone, Copy, PartialEq, Eq, Structural)]
pub struct YCbCr {
    pub y: u8,
    pub cb: u8,
    pub cr: u8,
}

/// Luma in units of 2^-27: `0.299 r + 0.587 g + 0.114 b`.
pub open spec fn luma_fixed(r: int, g: int, b: int) -> int {
    single(single(single(40131100 * r) + single(78785808 * g)) + single(15300821 * b))
}

/// Blue chroma in units of 2^-27: `128 - 0.168736 r - 0.331264 g + 0.5 b`.
pub open spec fn cb_fixed(r: int, g: int, b: int) -> int {
    single(
        single(single(128 * ONE - single(22647362 * r)) - single(44461500 * g)) + single(
            67108864 * b,
        ),
    )
}

/// Red chroma in units of 2^-27: `128 + 0.5 r - 0.418688 g - 0.081312 b`.
pub open spec fn cr_fixed(r: int, g: int, b: int) -> int {
    single(
        single(single(128 * ONE + single(67108864 * r)) - single(56195352 * g)) - single(
            10913512 * b,
        ),
    )
}

/// Round a fixed-point value to the nearest byte, halves up.
pub open spec fn to_byte_spec(x: int) -> int {
    let v = (x + ONE as int / 2) / (ONE as int);
    if x <= 0 {
        0
    } else if v > 255 {
        255
    } else {
        v
    }
}

/// Full-range BT.601 (JFIF) RGB to YCbCr.
pub open spec fn ycbcr_spec(r: u8, g: u8, b: u8) -> YCbCr {
    YCbCr {
        y: to_byte_spec(luma_fixed(r as int, g as int, b as int)) as u8,
        cb: to_byte_spec(cb_fixed(r as int, g as int, b as int)) as u8,
        cr: to_byte_spec(cr_fixed(r as int, g as int, b as int)) as u8,
    }
}

/// Round a fixed-point value to the nearest byte, halves up.
fn to_byte(x: i64) -> (v: u8)
    requires
        -0x10_0000_0000 <= x <= 0x10_0000_0000,
    ensures
        v == to_byte_spec(x as int),
{
    if x <= 0 {
        return 0;
    }
    let v: i64 = (x + ONE / 2) / ONE;
    if v > 255 {
        255
    } else {
        v as u8
    }
}

/// Full-range BT.601 (JFIF) RGB to YCbCr. The GPU shader mirrors these
/// coefficients; keep both in sync.
pub fn rgb_to_ycbcr(r: u8, g: u8, b: u8) -> (c: YCbCr)
    ensures
        c == ycbcr_spec(r, g, b),
{
    let (r, g, b): (i64, i64, i64) = (r as i64, g as i64, b as i64);
    proof {
        lemma_terms(r as int, g as int, b as int);
    }
    let y: i64 = to_single(
        to_single(to_single(40131100 * r) + to_single(78785808 * g)) + to_single(15300821 * b),
    );
    let cb: i64 = to_single(
        to_single(to_single(128 * ONE - to_single(22647362 * r)) - to_single(44461500 * g))
            + to_single(67108864 * b),
    );
    let cr: i64 = to_single(
        to_single(to_single(128 * ONE + to_single(67108864 * r)) - to_single(56195352 * g))
            - to_single(10913512 * b),
    );
    YCbCr { y: to_byte(y), cb: to_byte(cb), cr: to_byte(cr) }
}

/// Every step of the conversion stays in range, and the results are within
/// 2^-12 of the sums without rounding.
proof fn lemma_terms(r: int, g: int, b: int)
    requires
        0 <= r <= 255,
        0 <= g <= 255,
        0 <= b <= 255,
    ensures
        ({
            let s = single(single(40131100 * r) + single(78785808 * g));
            &&& -0x8_0000_0000 <= single(40131100 * r) + single(78785808 * g) <= 0xf_0000_0000
            &&& -0x8_0000_0000 <= s + single(15300821 * b) <= 0xf_0000_0000
        }),
        ({
            let s = 128 * ONE - single(22647362 * r);
            let t = single(s) - single(44461500 * g);
            &&& -0x8_0000_0000 <= s <= 0xf_0000_0000
            &&& -0x8_0000_0000 <= t <= 0xf_0000_0000
            &&& -0x8_0000_0000 <= single(t) + single(67108864 * b) <= 0xf_0000_0000
        }),
        ({
            let s = 128 * ONE + single(67108864 * r);
            let t = single(s) - single(56195352 * g);
            &&& -0x8_0000_0000 <= s <= 0xf_0000_0000
            &&& -0x8_0000_0000 <= t <= 0xf_0000_0000
            &&& -0x8_0000_0000 <= single(t) - single(10913512 * b) <= 0xf_0000_0000
        }),
        -0x8000 <= luma_fixed(r, g, b) - (40131100 * r + 78785808 * g + 15300821 * b) <= 0x8000,
        -0x8000 <= cb_fixed(r, g, b) - (128 * ONE - 22647362 * r - 44461500 * g + 67108864 * b)
            <= 0x8000,
        -0x8000 <= cr_fixed(r, g, b) - (128 * ONE + 67108864 * r - 56195352 * g - 10913512 * b)
            <= 0x8000,
{
    lemma_single(40131100 * r);
    lemma_single(78785808 * g);
    lemma_single(15300821 * b);
    let s = single(40131100 * r) + single(78785808 * g);
    lemma_single(s);
    lemma_single(single(s) + single(15300821 * b));
    lemma_single(22647362 * r);
    lemma_single(44461500 * g);
    lemma_single(67108864 * b);
    let s = 128 * ONE - single(22647362 * r);
    lemma_single(s);
    let t = single(s) - single(44461500 * g);
    lemma_single(t);
    lemma_single(single(t) + single(67108864 * b));
    lemma_single(67108864 * r);
    lemma_single(56195352 * g);
    lemma_single(10913512 * b);
    let s = 128 * ONE + single(67108864 * r);
    lemma_single(s);
    let t = single(s) - single(56195352 * g);
    lemma_single(t);
    lemma_single(single(t) - single(10913512 * b));
}

/// A byte is within half a level of the value it rounds, and no further past the
/// ends of the range than the value is.
proof fn lemma_to_byte(x: int)
    requires
        -0x1_0000 <= x <= 255 * ONE + ONE / 2 + 0x1_0000,
    ensures
        0 <= to_byte_spec(x) <= 255,
        -(ONE as int) <= 2 * (ONE * to_byte_spec(x) - x) <= ONE || x > 255 * ONE + ONE / 2,
        x > 255 * ONE + ONE / 2 ==> to_byte_spec(x) == 255,
{
}

/// The conversion is BT.601 rounded to the nearest level: luma differs from the
/// exact value by at most half a level, and chroma by at most half a level and three
/// ten-thousandths.
pub proof fn law_conversion_is_bt601(r: u8, g: u8, b: u8)
    ensures
        ({
            let c = ycbcr_spec(r, g, b);
            &&& -500 <= 1000 * c.y - (299 * r + 587 * g + 114 * b) <= 500
            &&& -500_300 <= 1_000_000 * c.cb - (128_000_000 - 168_736 * r - 331_264 * g + 500_000 * b)
                <= 500_300
            &&& -500_300 <= 1_000_000 * c.cr - (128_000_000 + 500_000 * r - 418_688 * g - 81_312 * b)
                <= 500_300
        }),
{
    let (ri, gi, bi) = (r as int, g as int, b as int);
    lemma_terms(ri, gi, bi);
    let (y, cb, cr) = (luma_fixed(ri, gi, bi), cb_fixed(ri, gi, bi), cr_fixed(ri, gi, bi));
    lemma_to_byte(y);
    lemma_to_byte(cb);
    lemma_to_byte(cr);
    lemma_luma_error(ri, gi, bi, y, to_byte_spec(y));
    lemma_chroma_error(
        128 * ONE - 22647362 * ri - 44461500 * gi + 67108864 * bi,
        128_000_000 - 168_736 * ri - 331_264 * gi + 500_000 * bi,
        cb,
        to_byte_spec(cb),
    );
    lemma_chroma_error(
        128 * ONE + 67108864 * ri - 56195352 * gi - 10913512 * bi,
        128_000_000 + 500_000 * ri - 418_688 * gi - 81_312 * bi,
        cr,
        to_byte_spec(cr),
    );
}

/// Luma: the coefficients are close enough that rounding decides.
proof fn lemma_luma_error(r: int, g: int, b: int, y: int, v: int)
    requires
        0 <= r <= 255,
        0 <= g <= 255,
        0 <= b <= 255,
        -0x8000 <= y - (40131100 * r + 78785808 * g + 15300821 * b) <= 0x8000,
        -(ONE as int) <= 2 * (ONE * v - y) <= ONE,
    ensures
        -500 <= 1000 * v - (299 * r + 587 * g + 114 * b) <= 500,
{
    let exact = 299 * r + 587 * g + 114 * b;
    let fixed = 40131100 * r + 78785808 * g + 15300821 * b;
    assert(-1_000_000 <= 1000 * fixed - ONE * exact <= 1_000_000);
    assert(ONE * (1000 * v) - ONE * exact <= 500 * ONE + 34_000_000);
    assert(ONE * (1000 * v) - ONE * exact >= -500 * ONE - 34_000_000);
}

/// Chroma: `fixed` is the sum with the single-precision coefficients, `exact` the
/// one with the decimal coefficients in millionths.
proof fn lemma_chroma_error(fixed: int, exact: int, x: int, v: int)
    requires
        -600_000_000 <= 1_000_000 * fixed - ONE * exact <= 600_000_000,
        -0x8000 <= x - fixed <= 0x8000,
        (-(ONE as int) <= 2 * (ONE * v - x) <= ONE) || (x > 255 * ONE + ONE / 2 && v == 255),
        exact <= 255_500_000,
    ensures
        -500_300 <= 1_000_000 * v - exact <= 500_300,
{
}

/// Greys carry no colour: equal channels give that level of luma and neutral
/// chroma.
pub proof fn law_grey_is_neutral(v: u8)
    ensures
        ycbcr_spec(v, v, v) == (YCbCr { y: v, cb: 128, cr: 128 }),
{
    lemma_terms(v as int, v as int, v as int);
}

/// Two neighbouring pixels as YUYV packs them: a luma each, one chroma pair.
#[derive(Debug, Clone, Copy, PartialEq, Eq, Structural)]
pub struct Group {
    pub y0: u8,
    pub cb: u8,
    pub y1: u8,
    pub cr: u8,
}

/// The `c`-th pixel pair of row `y` in a YUYV frame of width `w`.
pub open spec fn group_at(yuyv: Seq<u8>, w: int, y: int, c: int) -> Group {
    let i = 4 * (y * (w / 2) + c);
    Group { y0: yuyv[i], cb: yuyv[i + 1], y1: yuyv[i + 2], cr: yuyv[i + 3] }
}

/// The luma-chroma triple of the pixel in row `y`, column `x` of an RGB image of
/// width `w`.
pub open spec fn ycbcr_at(rgb: Seq<u8>, w: int, y: int, x: int) -> YCbCr {
    let i = 3 * (y * w + x);
    ycbcr_spec(rgb[i], rgb[i + 1], rgb[i + 2])
}

/// Pack two pixels, averaging their chroma.
pub open spec fn packed(a: YCbCr, b: YCbCr) -> Group {
    Group {
        y0: a.y,
        cb: ((a.cb + b.cb) / 2) as u8,
        y1: b.y,
        cr: ((a.cr + b.cr) / 2) as u8,
    }
}

/// `yuyv` is the centre of an RGB image, packed: pixel pair `c` of row `y` holds
/// the two source pixels that far down and right of the crop's corner.
pub open spec fn is_yuyv_crop(
    rgb: Seq<u8>,
    src_w: int,
    src_h: int,
    dst_w: int,
    dst_h: int,
    yuyv: Seq<u8>,
) -> bool {
    let (off_x, off_y) = ((src_w - dst_w) / 2, (src_h - dst_h) / 2);
    &&& yuyv.len() == 2 * (dst_h * dst_w)
    &&& forall|y: int, c: int|
        0 <= y < dst_h && 0 <= c < dst_w / 2 ==> #[trigger] group_at(yuyv, dst_w, y, c) == packed(
            ycbcr_at(rgb, src_w, off_y + y, off_x + 2 * c),
            ycbcr_at(rgb, src_w, off_y + y, off_x + 2 * c + 1),
        )
}

/// How many pixels of a row-major image the centre crop reaches into: up to the end
/// of its last row.
pub open spec fn crop_end(src_w: int, src_h: int, dst_w: int, dst_h: int) -> int {
    if dst_w == 0 || dst_h == 0 {
        0
    } else {
        ((src_h - dst_h) / 2 + dst_h - 1) * src_w + (src_w - dst_w) / 2 + dst_w
    }
}

/// The whole image is always enough for its crop.
pub proof fn lemma_crop_end(src_w: int, src_h: int, dst_w: int, dst_h: int)
    requires
        0 <= dst_w <= src_w,
        0 <= dst_h <= src_h,
    ensures
        crop_end(src_w, src_h, dst_w, dst_h) <= src_h * src_w,
{
    if dst_w > 0 && dst_h > 0 {
        lemma_cell(
            src_h,
            src_w,
            (src_h - dst_h) / 2 + dst_h - 1,
            (src_w - dst_w) / 2 + dst_w - 1,
        );
    } else {
        assert(0 <= src_h * src_w) by (nonlinear_arith)
            requires
                0 <= src_h,
                0 <= src_w,
        ;
    }
}

/// Convert one RGB pixel.
fn convert(rgb: &[u8], w: usize, y: usize, x: usize) -> (c: YCbCr)
    requires
        3 * (y * w + x + 1) <= rgb.len(),
    ensures
        c == ycbcr_at(rgb@, w as int, y as int, x as int),
{
    proof {
        assert(0 <= y * w) by (nonlinear_arith)
            requires
                0 <= y,
                0 <= w,
        ;
    }
    let i: usize = 3 * (y * w + x);
    rgb_to_ycbcr(rgb[i], rgb[i + 1], rgb[i + 2])
}

/// Pack two pixels, averaging their chroma.
fn pack(a: YCbCr, b: YCbCr) -> (g: Group)
    ensures
        g == packed(a, b),
{
    Group {
        y0: a.y,
        cb: ((a.cb as u16 + b.cb as u16) / 2) as u8,
        y1: b.y,
        cr: ((a.cr as u16 + b.cr as u16) / 2) as u8,
    }
}

/// Lay groups out as bytes.
fn write_groups(groups: &[Group], dst: &mut [u8])
    requires
        old(dst).len() == 4 * groups.len(),
    ensures
        final(dst).len() == old(dst).len(),
        forall|i: int|
            #![trigger groups@[i]]
            0 <= i < groups.len() ==> {
                &&& final(dst)@[4 * i] == groups[i].y0
                &&& final(dst)@[4 * i + 1] == groups[i].cb
                &&& final(dst)@[4 * i + 2] == groups[i].y1
                &&& final(dst)@[4 * i + 3] == groups[i].cr
            },
{
    let mut i: usize = 0;
    while i < groups.len()
        invariant
            i <= groups.len(),
            dst.len() == 4 * groups.len(),
            forall|k: int|
                #![trigger groups@[k]]
                0 <= k < i ==> {
                    &&& dst@[4 * k] == groups[k].y0
                    &&& dst@[4 * k + 1] == groups[k].cb
                    &&& dst@[4 * k + 2] == groups[k].y1
                    &&& dst@[4 * k + 3] == groups[k].cr
                },
        decreases groups.len() - i,
    {
        let g: Group = groups[i];
        dst[4 * i] = g.y0;
        dst[4 * i + 1] = g.cb;
        dst[4 * i + 2] = g.y1;
        dst[4 * i + 3] = g.cr;
        i += 1;
    }
}

/// Convert an interleaved RGB8 image to packed YUYV (YUY2), centre-cropping from
/// `src_w`x`src_h` to `dst_w`x`dst_h`. Row-parallel: each output row depends only
/// on its own source row.
///
/// Uses full-range BT.601 (JFIF) coefficients to match the full-range sRGB output
/// declared on the loopback format. `dst_w` must be even (YUYV pairs two
/// horizontal pixels); `dst` must hold `dst_w*dst_h*2` bytes. `rgb` must reach to the
/// end of the crop.
pub fn rgb_to_yuyv_crop(
    rgb: &[u8],
    src_w: usize,
    src_h: usize,
    dst: &mut [u8],
    dst_w: usize,
    dst_h: usize,
)
    requires
        rgb.len() >= 3 * crop_end(src_w as int, src_h as int, dst_w as int, dst_h as int),
        dst_w <= src_w,
        dst_h <= src_h,
        dst_w % 2 == 0,
        old(dst).len() == 2 * (dst_h * dst_w),
    ensures
        is_yuyv_crop(
            rgb@,
            src_w as int,
            src_h as int,
            dst_w as int,
            dst_h as int,
            final(dst)@,
        ),
{
    let off_x: usize = (src_w - dst_w) / 2;
    let off_y: usize = (src_h - dst_h) / 2;
    let cw: usize = dst_w / 2;
    proof {
        assert(2 * (dst_h * cw) == dst_h * dst_w) by (nonlinear_arith)
            requires
                dst_w == 2 * cw,
        ;
    }
    let cell = |y: usize, c: usize| -> (g: Group)
        requires
            y < dst_h,
            c < cw,
        ensures
            g == packed(
                ycbcr_at(rgb@, src_w as int, off_y + y, off_x + 2 * c),
                ycbcr_at(rgb@, src_w as int, off_y + y, off_x + 2 * c + 1),
            ),
        {
            proof {
                assert((off_y + y) * src_w <= (off_y + dst_h - 1) * src_w) by (nonlinear_arith)
                    requires
                        y <= dst_h - 1,
                        0 <= src_w,
                ;
            }
            let a: YCbCr = convert(rgb, src_w, off_y + y, off_x + 2 * c);
            let b: YCbCr = convert(rgb, src_w, off_y + y, off_x + 2 * c + 1);
            pack(a, b)
        };
    let groups: Vec<Group> = grid(dst_h, cw, &cell);
    write_groups(&groups, dst);
    assert forall|y: int, c: int| 0 <= y < dst_h && 0 <= c < dst_w as int / 2 implies #[trigger] group_at(
        dst@,
        dst_w as int,
        y,
        c,
    ) == packed(
        ycbcr_at(rgb@, src_w as int, off_y + y, off_x + 2 * c),
        ycbcr_at(rgb@, src_w as int, off_y + y, off_x + 2 * c + 1),
    ) by {
        lemma_cell(dst_h as int, cw as int, y, c);
        assert(call_ensures(cell, (y as usize, c as usize), at(groups@, cw as int, y, c)));
        assert(groups@[y * cw + c] == at(groups@, cw as int, y, c));
    }
}

/// The standby frame: black YUYV (Y=0, Cb/Cr=128) of `size` bytes, written while
/// no consumer is capturing.
pub fn standby_frame(size: usize) -> (yuyv: Vec<u8>)
    ensures
        yuyv.len() == size,
        forall|i: int| 0 <= i < size ==> #[trigger] yuyv@[i] == (if i % 2 == 1 {
            128u8
        } else {
            0u8
        }),
{
    let mut yuyv: Vec<u8> = vec![0; size];
    let mut i: usize = 1;
    while i < size
        invariant
            yuyv.len() == size,
            i % 2 == 1,
            forall|k: int|
                0 <= k < size ==> #[trigger] yuyv@[k] == (if k % 2 == 1 && k < i {
                    128u8
                } else {
                    0u8
                }),
        decreases size - i,
    {
        yuyv[i] = 128;
        if size - i <= 2 {
            return yuyv;
        }
        i += 2;
    }
    yuyv
}

/// The luma bytes that auto-exposure meters: the Y of every fourth pixel (two
/// bytes a pixel, a step of eight), from the first on.
pub fn luma_samples(yuyv: &[u8]) -> (luma: Vec<u8>)
    ensures
        luma.len() == (yuyv.len() + 7) / 8,
        forall|k: int| 0 <= k < luma.len() ==> #[trigger] luma@[k] == yuyv@[8 * k],
{
    let mut luma: Vec<u8> = Vec::new();
    let mut i: usize = 0;
    while i < yuyv.len()
        invariant
            luma.len() == (i + 7) / 8,
            i <= yuyv.len(),
            i % 8 == 0 || i == yuyv.len(),
            i == yuyv.len() ==> luma.len() == (yuyv.len() + 7) / 8,
            forall|k: int| 0 <= k < luma.len() ==> #[trigger] luma@[k] == yuyv@[8 * k],
        decreases yuyv.len() - i,
    {
        luma.push(yuyv[i]);
        if yuyv.len() - i <= 8 {
            i = yuyv.len();
        } else {
            i += 8;
        }
    }
    luma
}

/// The output is BT.601 of the centre of the image. Pixel `x` of output row `y` is the
/// source pixel as far from the crop's corner, and the corner leaves the same margin on
/// either side, the odd one at the right and at the bottom. Its luma is that pixel's, to
/// the nearest level; the chroma of a pair is the mean of its two pixels' chroma, rounded
/// down.
pub proof fn law_output_is_bt601_of_the_centre(
    rgb: Seq<u8>,
    src_w: int,
    src_h: int,
    dst_w: int,
    dst_h: int,
    yuyv: Seq<u8>,
    left: int,
    top: int,
    y: int,
    x: int,
)
    requires
        is_yuyv_crop(rgb, src_w, src_h, dst_w, dst_h, yuyv),
        0 <= dst_w <= src_w,
        0 <= dst_h <= src_h,
        dst_w % 2 == 0,
        src_w - dst_w == 2 * left || src_w - dst_w == 2 * left + 1,
        src_h - dst_h == 2 * top || src_h - dst_h == 2 * top + 1,
        0 <= y < dst_h,
        0 <= x < dst_w,
    ensures
        ({
            let i = 3 * ((top + y) * src_w + left + x);
            let j = 2 * (y * dst_w + x);
            -500 <= 1000 * yuyv[j] - (299 * rgb[i] + 587 * rgb[i + 1] + 114 * rgb[i + 2]) <= 500
        }),
        x % 2 == 0 ==> ({
            let i = 3 * ((top + y) * src_w + left + x);
            let j = 2 * (y * dst_w + x);
            let (r, g, b) = (rgb[i] + rgb[i + 3], rgb[i + 1] + rgb[i + 4], rgb[i + 2] + rgb[i + 5]);
            &&& -2_000_600 <= 2_000_000 * yuyv[j + 1] - (256_000_000 - 168_736 * r - 331_264 * g
                + 500_000 * b) <= 1_000_600
            &&& -2_000_600 <= 2_000_000 * yuyv[j + 3] - (256_000_000 + 500_000 * r - 418_688 * g
                - 81_312 * b) <= 1_000_600
        }),
{
    let c = x / 2;
    let off = (top + y) * src_w + left;
    assert((src_w - dst_w) / 2 == left && (src_h - dst_h) / 2 == top);
    assert(2 * (y * (dst_w / 2)) == y * dst_w) by (nonlinear_arith)
        requires
            dst_w == 2 * (dst_w / 2),
    ;
    let g = group_at(yuyv, dst_w, y, c);
    let p = ycbcr_at(rgb, src_w, top + y, left + 2 * c);
    let q = ycbcr_at(rgb, src_w, top + y, left + 2 * c + 1);
    assert(g == packed(p, q));
    let i = 3 * (off + 2 * c);
    law_conversion_is_bt601(rgb[i], rgb[i + 1], rgb[i + 2]);
    law_conversion_is_bt601(rgb[i + 3], rgb[i + 4], rgb[i + 5]);
}

/// What auto-exposure meters of a packed frame is the luma of every fourth pixel, to the end
/// of the frame, whatever the chroma: frames that agree on those meter alike.
pub proof fn law_metering_sees_every_fourth_luma(
    a: &[u8],
    b: &[u8],
    luma_a: Vec<u8>,
    luma_b: Vec<u8>,
    k: int,
)
    requires
        call_ensures(luma_samples, (a,), luma_a),
        call_ensures(luma_samples, (b,), luma_b),
        a@.len() == b@.len(),
    ensures
        luma_a@.len() == luma_b@.len(),
        0 <= k && 8 * k < a@.len() <==> 0 <= k < luma_a@.len(),
        0 <= k < luma_a@.len() ==> (luma_a@[k] == luma_b@[k] <==> a@[8 * k] == b@[8 * k]),
{
    if 0 <= k < luma_a@.len() {
        assert(luma_a@[k] == a@[8 * k]);
        assert(luma_b@[k] == b@[8 * k]);
    }
}

} // verus!
