//! The image pipeline, with the real-valued steps written out in floating point.

use gc2607_isp::order::{bits32, key32, key64, Middle, Percentile};
use gc2607_isp::pipeline::awb::{
    awb_select, choose_voters, classify, robust_neutral, select_ls_hyst, Mask, PixelFlags, Voters,
};
use gc2607_isp::pipeline::bayer::{bayer_planes, fill_planes_blc_from_bytes, site, Planes, Site};
use gc2607_isp::pipeline::colour::{
    acm_color, ct_bracket, interp_acm, interp_ccm, sector_matrix, sector_pair, Bracket,
};
use gc2607_isp::pipeline::kernels::{Band, Hue, Kernels};
use gc2607_isp::pipeline::lca::Lca;
use gc2607_isp::pipeline::mhc::{
    mhc_debayer, mhc_rgb, mhc_rgb_at, mhc_rgb_interior, mhc_to_planar, Debayer, Filtered,
    Sixteenths, Taps,
};
use gc2607_isp::pipeline::processor::{process, process_with, DebayerMode, Processor};
use gc2607_isp::pipeline::render::{
    locate, render_half, render_lca_color, render_mhc_fused, Rgb8, Spot, Tile,
};
use gc2607_isp::pipeline::scene::{
    acm_for, estimate, estimate_from_chroma, follow, scene_chroma, select_source, smooth_chroma, AcmFrame,
    Calibration, Chroma, Estimate, Look, Scene, ACM_NSEC, NUM_CCM,
};
use gc2607_isp::pipeline::shading::{
    build_grids, cfa_lscwb, fill_cfa_lscwb_from_bytes, quad, resize_grid, tap, Quad,
};
use gc2607_isp::raw::{
    mean_norm_from_bytes, Fraction, RawFrame, RawTooSmall, BLACK, H, MAXLIN, RAW_BYTES,
    STRIDE_SAMPLES, W,
};
use gc2607_isp::rows::grid;
use gc2607_isp::output::denoise::{denoise_chroma_yuyv, temporal_denoise_luma_yuyv};
use gc2607_isp::output::yuyv::rgb_to_yuyv_crop;
use gc2607_isp::tuning::{lsc_grid, LSC_BYTES, LSC_CELLS, LSC_GH, LSC_GW, LSC_NLS};
use gc2607_isp::video::engine::{DenoiseSpec, Engine};

/// Warm-light white locus vertex in raw chroma (r/g, b/g), at 2963 K. A neutral
/// surface lit by this illuminant has exactly this chroma.
const NEUTRAL_RG: f32 = 0.717_171_729;
const NEUTRAL_BG: f32 = 0.371_717_215;

/// A white locus from warm to cold light, and its colour temperatures.
const LOCUS: [(f64, f64); NUM_CCM] = [
    (NEUTRAL_RG as f64, NEUTRAL_BG as f64),
    (0.62, 0.45),
    (0.58, 0.50),
    (0.54, 0.57),
    (0.47, 0.68),
];
const CTS: [f64; NUM_CCM] = [2963.0, 3803.0, 4049.0, 4779.0, 6426.0];

/// White-balance cooling: a factor on the blue gain.
const WB_BLUE_TRIM: f64 = 1.05;

/// The pipeline's arithmetic in floating point.
struct Floats {
    /// Factor on the blue gain.
    trim: f64,
}

const FLOATS: Floats = Floats { trim: 1.0 };

fn value(k: i32) -> f32 {
    f32::from_bits(bits32(k))
}

fn percentile(p: Option<Percentile>) -> f32 {
    match p {
        None => 0.0,
        Some(p) => {
            let (a, b) = (value(p.lo) as f64, value(p.hi) as f64);
            (a + (b - a) * (p.frac.num as f64 / p.frac.den as f64)) as f32
        }
    }
}

/// Distance to a segment of the locus, and how far along it.
fn segment(i: usize, rg: f64, bg: f64) -> (f64, f64) {
    let ((ax, ay), (bx, by)) = (LOCUS[i], LOCUS[i + 1]);
    let (abx, aby) = (bx - ax, by - ay);
    let t = (((rg - ax) * abx + (bg - ay) * aby) / (abx * abx + aby * aby)).clamp(0.0, 1.0);
    ((rg - (ax + t * abx)).hypot(bg - (ay + t * aby)), t)
}

fn source_distance(ls: usize, c: Chroma<f32>) -> f64 {
    (LOCUS[ls].0 - c.rg as f64).hypot(LOCUS[ls].1 - c.bg as f64)
}

fn smoothed(old: f32, new: f32) -> f32 {
    old + 0.5 * (new - old)
}

impl<V: Copy + Into<f32> + Send + Sync> Scene<V> for Floats {
    type S = f32;
    type D = f64;
    type T = f32;

    fn green(&self, gr: V, gb: V) -> f32 {
        0.5 * (gr.into() + gb.into())
    }

    fn green_key(&self, g: f32) -> i32 {
        key32(g.to_bits())
    }

    fn valid(&self, g: f32) -> bool {
        g > 1.0
    }

    fn unclipped(&self, r: V, g: f32, b: V) -> bool {
        r.into().max(g).max(b.into()) < 0.95 * MAXLIN as f32
    }

    fn bright(&self, g: f32, p: Option<Percentile>) -> bool {
        g >= percentile(p)
    }

    fn near(&self, i: usize, r: V, g: f32, b: V) -> bool {
        segment(i, (r.into() / g) as f64, (b.into() / g) as f64).0 <= 0.12
    }

    fn ratio_key(&self, v: V, g: f32) -> i32 {
        key32((v.into() / g).to_bits())
    }

    fn middle(&self, m: Middle) -> f32 {
        ((value(m.lo) as f64 + value(m.hi) as f64) / 2.0) as f32
    }

    fn mean(&self, plane: &Vec<V>, green: &Vec<f32>, idx: &Vec<usize>) -> f32 {
        let (mut s, mut sg) = (0f64, 0f64);
        for &i in idx {
            s += plane[i].into() as f64;
            sg += green[i] as f64;
        }
        (s / sg) as f32
    }

    fn neutral(&self) -> f32 {
        1.0
    }

    fn smooth(&self, old: f32, new: f32) -> f32 {
        smoothed(old, new)
    }

    fn sane(&self, c: f32) -> f32 {
        if c.is_finite() && c > 0.0 {
            c
        } else {
            1.0
        }
    }

    fn gains(&self, c: Chroma<f32>) -> [f64; 3] {
        [1.0 / c.rg as f64, 1.0, (1.0 / c.bg as f64) * self.trim]
    }

    fn segment_key(&self, i: usize, c: Chroma<f32>) -> i64 {
        key64(segment(i, c.rg as f64, c.bg as f64).0.to_bits())
    }

    fn cct(&self, i: usize, c: Chroma<f32>) -> f64 {
        let t = segment(i, c.rg as f64, c.bg as f64).1;
        CTS[i] * (1.0 - t) + CTS[i + 1] * t
    }

    fn distance_key(&self, ls: usize, c: Chroma<f32>) -> i64 {
        key64(source_distance(ls, c).to_bits())
    }

    fn relaxed_key(&self, ls: usize, c: Chroma<f32>) -> i64 {
        key64((source_distance(ls, c) / 0.8).to_bits())
    }

    fn cct_key(&self, cct: &f64) -> i64 {
        key64(cct.clamp(CTS[0], CTS[NUM_CCM - 1]).to_bits())
    }

    fn widen(&self, t: f32) -> f64 {
        t as f64
    }

    fn blend(&self, cct: &f64, b: Bracket, lo: f32, hi: f32) -> f64 {
        let t = match b {
            Bracket::At(_) => 0.0,
            Bracket::Between(i, j) => {
                (cct.clamp(CTS[0], CTS[NUM_CCM - 1]) - CTS[i]) / (CTS[j] - CTS[i])
            }
        };
        lo as f64 * (1.0 - t) + hi as f64 * t
    }
}

impl Debayer<f32, f32> for Floats {
    fn filters(&self, t: Taps<f32>) -> Filtered<f32> {
        let diag = t.ul + t.ur + t.dl + t.dr;
        let axis = t.uu + t.dd + t.ll + t.rr;
        let (vert, horz) = (t.uu + t.dd, t.ll + t.rr);
        Filtered {
            c: t.c,
            g_at_rb: (4.0 * t.c + 2.0 * (t.up + t.dn + t.lf + t.rt) - axis) / 8.0,
            at_g_hrow: (5.0 * t.c + 4.0 * (t.lf + t.rt) - horz - diag + 0.5 * vert) / 8.0,
            at_g_vcol: (5.0 * t.c + 4.0 * (t.up + t.dn) - vert - diag + 0.5 * horz) / 8.0,
            at_diag: (6.0 * t.c + 2.0 * diag - 1.5 * axis) / 8.0,
        }
    }
}

fn weight(f: Fraction) -> f64 {
    f.num as f64 / f.den as f64
}

fn between(q: [f32; 4], w: (f32, f32)) -> f32 {
    let top = q[0] * (1.0 - w.1) + q[1] * w.1;
    let bot = q[2] * (1.0 - w.1) + q[3] * w.1;
    top * (1.0 - w.0) + bot * w.0
}

fn byte(v: f64) -> u8 {
    (v.clamp(0.0, 1.0) * 255.0 + 0.5) as u8
}

impl Kernels for Floats {
    type G = f64;
    type P = [f64; 3];
    type W = (f32, f32);
    type Q = f64;

    fn bilinear(&self, q: Quad<u32>, fy: Fraction, fx: Fraction) -> f64 {
        let v = |bits: u32| f32::from_bits(bits) as f64;
        let (wy, wx) = (weight(fy), weight(fx));
        let top = v(q.p00) * (1.0 - wx) + v(q.p01) * wx;
        let bot = v(q.p10) * (1.0 - wx) + v(q.p11) * wx;
        top * (1.0 - wy) + bot * wy
    }

    fn shade(&self, v: u16, lsc: f64, wb: f64) -> f32 {
        (v as f64 * lsc * wb) as f32
    }

    fn tile(&self, gains: &[f64; 3], t: Tile<u16>, g: Tile<f64>) -> [f64; 3] {
        let inv = 1.0 / MAXLIN as f64;
        let green = 0.5 * (t.gr as f64 * g.gr + t.gb as f64 * g.gb);
        [
            t.r as f64 * g.r * gains[0] * inv,
            green * gains[1] * inv,
            t.b as f64 * g.b * gains[2] * inv,
        ]
    }

    fn linear(&self, r: f32, g: f32, b: f32) -> [f64; 3] {
        let inv = 1.0 / MAXLIN as f64;
        [r as f64 * inv, g as f64 * inv, b as f64 * inv]
    }

    fn highlight(&self, p: [f64; 3]) -> [f64; 3] {
        p
    }

    fn matrix(&self, m: &[f64; 9], p: [f64; 3]) -> [f64; 3] {
        std::array::from_fn(|i| m[3 * i] * p[0] + m[3 * i + 1] * p[1] + m[3 * i + 2] * p[2])
    }

    fn hue(&self, p: [f64; 3]) -> Option<Hue<f64>> {
        // Blue decides: none, or the position in tenths of a sector.
        if p[2] == 0.0 {
            return None;
        }
        let pos = p[2] * 10.0;
        Some(Hue { sector: pos.floor() as i64, frac: pos - pos.floor(), weight: 0.5 })
    }

    fn mix(&self, q: f64, a: f64, b: f64) -> f64 {
        a * (1.0 - q) + b * q
    }

    fn desaturate(&self, band: Band, p: [f64; 3]) -> [f64; 3] {
        match band {
            Band::Skin => p.map(|v| v + 1.0),
            Band::Yellow => p.map(|v| v * 2.0),
        }
    }

    fn encode(&self, p: [f64; 3]) -> Rgb8 {
        Rgb8 { r: byte(p[0]), g: byte(p[1]), b: byte(p[2]) }
    }

    fn encode_fast(&self, p: [f64; 3]) -> Rgb8 {
        Rgb8 { r: byte(p[0]), g: byte(p[1]), b: byte(p[2]) }
    }

    fn cell(&self, _: usize, _: usize) -> Spot<(f32, f32)> {
        Spot { y: 0, x: 0, weights: (0.0, 0.0) }
    }

    fn offset(&self, q: Quad<u32>, w: (f32, f32)) -> f32 {
        between([q.p00, q.p01, q.p10, q.p11].map(f32::from_bits), w)
    }

    fn displace(&self, y: usize, x: usize, dx: f32, dy: f32) -> Spot<(f32, f32)> {
        let (fy, fx) = ((y as f32 + dy).max(0.0), (x as f32 + dx).max(0.0));
        Spot {
            y: fy.floor() as usize,
            x: fx.floor() as usize,
            weights: (fy - fy.floor(), fx - fx.floor()),
        }
    }

    fn resample(&self, q: Quad<f32>, w: (f32, f32)) -> f32 {
        between([q.p00, q.p01, q.p10, q.p11], w)
    }
}

/// Aberration grids of one cell: red across and down, blue across and down.
fn shifts(rx: f32, ry: f32, bx: f32, by: f32) -> Lca {
    let one = |v: f32| vec![v.to_bits()];
    Lca { gh: 1, gw: 1, bx: one(bx), by: one(by), rx: one(rx), ry: one(ry) }
}

/// A calibration whose global matrices hold their place, whose sector matrices hold
/// a tenth of theirs, and which shifts nothing.
fn calibration() -> Calibration<f32> {
    Calibration {
        cts: CTS.iter().map(|t| key64(t.to_bits())).collect(),
        ccm: (0..NUM_CCM).map(|c| [c as f32; 9]).collect(),
        acm: (0..NUM_CCM * ACM_NSEC).map(|n| [n as f32 / 10.0; 9]).collect(),
        lsc: blob(),
        lca: shifts(0.0, 0.0, 0.0, 0.0),
    }
}

/// A look that leaves colours alone while they have no blue.
fn plain_look() -> Look<f32, f64> {
    Look {
        est: Estimate {
            chroma: Chroma { rg: 1.0, bg: 1.0 },
            gains: [1.0; 3],
            cct: 4000.0,
            ls: 0,
            ccm: [1.0, 0.0, 0.0, 0.0, 1.0, 0.0, 0.0, 0.0, 1.0],
        },
        acm: AcmFrame { mats: vec![[0.0; 9]; ACM_NSEC] },
    }
}

/// LSC grids: source `ls`, channel `ch` holds `1 + ls + ch/8` everywhere, but for
/// a marked last cell.
fn blob() -> Vec<u8> {
    let mut out = Vec::with_capacity(LSC_BYTES);
    for ls in 0..5 {
        for ch in 0..4 {
            for k in 0..LSC_CELLS {
                let v = if k == LSC_CELLS - 1 { 9.0f32 } else { 1.0 + ls as f32 + ch as f32 / 8.0 };
                out.extend_from_slice(&v.to_bits().to_le_bytes());
            }
        }
    }
    out
}

/// A capture buffer: row `y`, column `x` holds a value between black and white.
fn capture(seed: u32) -> Vec<u8> {
    let mut bytes = vec![0u8; RAW_BYTES];
    for y in 0..H {
        for x in 0..W {
            let v = 64 + (x as u32 * 7 + y as u32 * 13 + seed) % 700;
            let i = (y * STRIDE_SAMPLES + x) * 2;
            bytes[i] = v as u8;
            bytes[i + 1] = (v >> 8) as u8;
        }
    }
    bytes
}

fn sample(seed: u32, y: usize, x: usize) -> u16 {
    ((x as u32 * 7 + y as u32 * 13 + seed) % 700) as u16
}

/// Build a half-res GRBG scene: `frac_neutral` of the pixels are a bright
/// neutral surface at the warm locus chroma; the rest are a saturated yellow
/// object (high R/G, very low B). All values stay within the linear range and
/// below the AWB clip threshold, so the only thing separating the two
/// populations is chroma, not brightness or clipping.
fn yellow_dominated_scene(ww: usize, hh: usize, frac_neutral_tenths: usize) -> Planes<f32> {
    let n = ww * hh;
    let (mut gr, mut r, mut b, mut gb) =
        (vec![0f32; n], vec![0f32; n], vec![0f32; n], vec![0f32; n]);
    for i in 0..n {
        let neutral = i % 10 < frac_neutral_tenths;
        // Neutral patch is the brighter surface (g = 700) so it is never
        // excluded by the green-brightness mask; yellow is dimmer (g = 600).
        let (g, rg, bg) = if neutral {
            (700.0f32, NEUTRAL_RG, NEUTRAL_BG)
        } else {
            (600.0f32, 1.0f32, 0.185f32) // saturated yellow, far off the locus
        };
        gr[i] = g;
        gb[i] = g;
        r[i] = rg * g;
        b[i] = bg * g;
    }
    Planes { hh, ww, gr, r, b, gb }
}

#[test]
fn awb_ignores_dominant_saturated_object() {
    // 30% neutral, 70% saturated yellow: the yellow is the majority of bright
    // pixels, so an ungated median lands on the yellow chroma.
    let planes = yellow_dominated_scene(120, 100, 3);
    let est = estimate(&planes, &calibration(), &FLOATS);

    // Correct white balance neutralises the neutral surface: its raw chroma is
    // (NEUTRAL_RG, NEUTRAL_BG), so the gains must be the reciprocals.
    let want_r = 1.0 / NEUTRAL_RG as f64; // ~1.394
    let want_b = 1.0 / NEUTRAL_BG as f64; // ~2.690

    assert!(
        (est.gains[0] - want_r).abs() < 0.05,
        "red gain {:.3} should match the neutral surface ({want_r:.3}); a \
         dominant yellow object must not bias it",
        est.gains[0]
    );
    assert_eq!(est.gains[1], 1.0, "green gain is the reference");
    assert!(
        (est.gains[2] - want_b).abs() < 0.10,
        "blue gain {:.3} should match the neutral surface ({want_b:.3}); the \
         reported blue cast is this gain being over-boosted toward the yellow \
         object's low b/g",
        est.gains[2]
    );
}

/// The Malvar-He-Cutler debayer must match the reference `demosaic` crate on
/// interior pixels (borders may differ by edge policy).
#[test]
fn mhc_debayer_matches_reference_crate() {
    let frame = RawFrame::from_bytes(&capture(5)).expect("raw");
    let (w, h) = (frame.w, frame.h);
    let plane = w * h;

    let samples: Vec<f32> = frame.data.iter().map(|&v| v as f32).collect();
    let mine = mhc_debayer(&samples, w, h, &FLOATS);

    let pattern = demosaic::CfaPattern::bayer_grbg();
    let mut theirs = vec![0f32; 3 * plane];
    demosaic::demosaic(&samples, w, h, &pattern, demosaic::Algorithm::Mhc, &mut theirs)
        .expect("reference demosaic");

    // Compare interior (3-pixel margin), all three planes.
    let margin = 3usize;
    let mut max_diff = 0f32;
    for ch in 0..3 {
        for y in margin..h - margin {
            for x in margin..w - margin {
                let i = ch * plane + y * w + x;
                let d = (mine[i] - theirs[i]).abs();
                if d > max_diff {
                    max_diff = d;
                }
            }
        }
    }
    assert!(max_diff < 1.0, "MHC diverges from reference: max interior diff = {max_diff}");
}

#[test]
fn raw_frames_lose_the_pedestal_and_the_padding() {
    let mut bytes = capture(0);
    let i = (3 * STRIDE_SAMPLES + 5) * 2;
    bytes[i] = BLACK as u8 - 1;
    bytes[i + 1] = 0;
    let f = RawFrame::from_bytes(&bytes).unwrap();
    assert_eq!((f.w, f.h, f.data.len()), (W, H, W * H));
    assert_eq!(f.data[3 * W + 5], 0);
    assert_eq!(f.data[3 * W + 6], sample(0, 3, 6));
    assert_eq!(f.data[(H - 1) * W + W - 1], sample(0, H - 1, W - 1));
}

#[test]
fn short_buffers_are_refused() {
    let bytes = vec![0u8; RAW_BYTES - 1];
    let e = RawFrame::from_bytes(&bytes).unwrap_err();
    assert_eq!(e, RawTooSmall { got: RAW_BYTES - 1 });
    assert_eq!(e.message(), "raw too small: 4247551 bytes, need >= 4247552");
    assert_eq!(
        e.message_with_geometry(),
        "raw too small: 4247551 bytes, need >= 4247552 (1928x1088 stride 1952)"
    );
    assert_eq!(mean_norm_from_bytes(&bytes), None);
}

#[test]
fn mean_signal_is_a_fraction_of_full_scale() {
    let mut bytes = vec![0u8; RAW_BYTES];
    // One sample at full scale, one below the pedestal, padding at full scale.
    bytes[0] = 0xff;
    bytes[1] = 0x03;
    bytes[2] = 10;
    bytes[2 * W] = 0xff;
    bytes[2 * W + 1] = 0x03;
    let m = mean_norm_from_bytes(&bytes).unwrap();
    assert_eq!(m.num, MAXLIN as u64);
    assert_eq!(m.den, (W * H) as u64 * MAXLIN as u64);
}

#[test]
fn sites_follow_the_grbg_mosaic() {
    assert_eq!(
        [site(0, 0), site(0, 1), site(1, 0), site(1, 1)],
        [Site::Gr, Site::R, Site::B, Site::Gb]
    );
    let f = RawFrame { w: 4, h: 2, data: vec![0u16, 1, 2, 3, 10, 11, 12, 13] };
    let p = bayer_planes(&f);
    assert_eq!((p.hh, p.ww), (1, 2));
    assert_eq!((p.gr, p.r, p.b, p.gb), (vec![0, 2], vec![1, 3], vec![10, 12], vec![11, 13]));
}

#[test]
fn fused_split_equals_split_of_the_frame() {
    let bytes = capture(77);
    let split = bayer_planes(&RawFrame::from_bytes(&bytes).unwrap());
    assert_eq!(fill_planes_blc_from_bytes(&bytes), split);
}

#[test]
fn flat_fields_debayer_to_their_level() {
    let out = mhc_debayer(&[37u16; 5 * 4], 5, 4, &Sixteenths);
    assert_eq!(out, vec![16 * 37; 60]);
}

#[test]
fn ramps_debayer_to_themselves_inside() {
    let (w, h) = (9usize, 8usize);
    let cfa: Vec<u16> = (0..w * h).map(|i| (100 + 3 * (i / w) + 11 * (i % w)) as u16).collect();
    let out = mhc_debayer(&cfa, w, h, &Sixteenths);
    for y in 2..h - 2 {
        for x in 2..w - 2 {
            for ch in 0..3 {
                assert_eq!(out[ch * w * h + y * w + x], 16 * cfa[y * w + x] as i32);
            }
        }
    }
}

#[test]
fn debayer_reads_one_impulse_as_the_filters_say() {
    // A single lit red sample in the middle of a dark field.
    let (w, h) = (7usize, 6usize);
    let mut cfa = vec![0u16; w * h];
    cfa[2 * w + 3] = 8;
    assert_eq!(site(2, 3), Site::R);
    let out = mhc_debayer(&cfa, w, h, &Sixteenths);
    let at = |ch: usize, y: usize, x: usize| out[ch * w * h + y * w + x];
    assert_eq!((at(0, 2, 3), at(1, 2, 3), at(2, 2, 3)), (16 * 8, 8 * 8, 12 * 8));
    // Green beside it: red by the row filter.
    assert_eq!((at(0, 2, 2), at(1, 2, 2), at(2, 2, 2)), (8 * 8, 0, 0));
    // Green below it: red by the column filter.
    assert_eq!((at(0, 3, 3), at(1, 3, 3), at(2, 3, 3)), (8 * 8, 0, 0));
    // Blue at the diagonal.
    assert_eq!((at(0, 3, 2), at(1, 3, 2), at(2, 3, 2)), (4 * 8, 0, 0));
}

#[test]
fn fast_path_equals_the_clamped_path() {
    let (w, h) = (8usize, 7usize);
    let cfa: Vec<f32> = (0..w * h).map(|i| ((i * 37) % 101) as f32).collect();
    for y in 0..h {
        for x in 0..w {
            let slow = mhc_rgb_at(&cfa, w, h, y, x, &FLOATS);
            assert_eq!(mhc_rgb(&cfa, w, h, y, x, &FLOATS), slow);
            if y >= 2 && y + 2 < h && x >= 2 && x + 2 < w {
                assert_eq!(mhc_rgb_interior(&cfa, w, h, y, x, &FLOATS), slow);
            }
        }
    }
}

#[test]
fn fast_planes_equal_the_plain_debayer() {
    let (w, h) = (11usize, 7usize);
    let cfa: Vec<f32> = (0..w * h).map(|i| ((i * 29) % 97) as f32).collect();
    let p = mhc_to_planar(&cfa, w, h, &FLOATS);
    assert_eq!(mhc_debayer(&cfa, w, h, &FLOATS), [p.r, p.g, p.b].concat());
}

#[test]
fn integer_filters_agree_with_the_float_ones() {
    let (w, h) = (6usize, 6usize);
    let cfa: Vec<u16> = (0..w * h).map(|i| ((i * 997) % 1024) as u16).collect();
    let floats: Vec<f32> = cfa.iter().map(|&v| v as f32).collect();
    let exact = mhc_to_planar(&cfa, w, h, &Sixteenths);
    let real = mhc_to_planar(&floats, w, h, &FLOATS);
    for i in 0..w * h {
        assert_eq!(exact.r[i] as f32 / 16.0, real.r[i]);
        assert_eq!(exact.g[i] as f32 / 16.0, real.g[i]);
        assert_eq!(exact.b[i] as f32 / 16.0, real.b[i]);
    }
}

#[test]
fn taps_put_corners_on_corners() {
    let t = tap(0, 100, 47);
    assert_eq!((t.cell, t.frac.num, t.frac.den), (0, 0, 99));
    let t = tap(99, 100, 47);
    assert_eq!((t.cell, t.frac.num), (46, 0));
    let t = tap(1, 3, 4);
    assert_eq!((t.cell, t.frac.num, t.frac.den), (1, 1, 2));
    let t = tap(0, 1, 9);
    assert_eq!((t.cell, t.frac.num, t.frac.den), (0, 0, 1));
}

#[test]
fn resizing_interpolates_between_cells() {
    let src: Vec<u32> = [0.0f32, 4.0, 8.0, 2.0, 6.0, 10.0].iter().map(|v| v.to_bits()).collect();
    let out = resize_grid(&src, 2, 3, 3, 5, &FLOATS);
    let want = [
        0.0, 2.0, 4.0, 6.0, 8.0, 1.0, 3.0, 5.0, 7.0, 9.0, 2.0, 4.0, 6.0, 8.0, 10.0,
    ];
    assert_eq!(out, want);
    assert_eq!(quad(&src, 3, 2, 1, 2), Quad { p00: src[5], p01: src[5], p10: src[5], p11: src[5] });
}

#[test]
fn grids_are_read_by_source_and_channel() {
    let blob = blob();
    let g = lsc_grid(&blob, 2, 3);
    assert_eq!(g.len(), LSC_GH * LSC_GW);
    assert_eq!(f32::from_bits(g[0]), 3.375);
    assert_eq!(f32::from_bits(g[LSC_CELLS - 1]), 9.0);
    let grids = build_grids(&blob, 4, 3, 5, &FLOATS);
    assert_eq!((grids.ls, grids.hh, grids.ww), (4, 3, 5));
    assert_eq!((grids.g_gr[0], grids.g_r[0], grids.g_b[0], grids.g_gb[0]), (5.0, 5.125, 5.25, 5.375));
    assert_eq!(grids.g_r[14], 9.0);
}

#[test]
fn aberration_grids_follow_each_other() {
    let blob: Vec<u8> = (0u32..8).flat_map(|v| v.to_le_bytes()).collect();
    let l = Lca::load(&blob, 1, 2);
    assert_eq!((l.gh, l.gw), (1, 2));
    assert_eq!(l.grids(), [&vec![0, 1], &vec![2, 3], &vec![4, 5], &vec![6, 7]]);
    assert_eq!(l.flat(), (0..8).collect::<Vec<u32>>());
}

#[test]
fn shading_and_balance_meet_their_filters() {
    let raw = RawFrame { w: 2, h: 2, data: vec![10u16, 20, 30, 40] };
    let grids = build_grids(&blob(), 0, 1, 1, &FLOATS);
    let cfa = cfa_lscwb(&raw, &grids, &[2.0, 1.0, 4.0], &FLOATS);
    assert_eq!(cfa, vec![10.0, 20.0 * 1.125 * 2.0, 30.0 * 1.25 * 4.0, 40.0 * 1.375]);
}

#[test]
fn fused_mosaic_equals_that_of_the_frame() {
    let bytes = capture(9);
    let frame = RawFrame::from_bytes(&bytes).unwrap();
    let grids = build_grids(&blob(), 1, H / 2, W / 2, &FLOATS);
    let gains = [1.5, 1.0, 2.5];
    assert!(
        fill_cfa_lscwb_from_bytes(&bytes, &grids, &gains, &FLOATS)
            == cfa_lscwb(&frame, &grids, &gains, &FLOATS)
    );
}

#[test]
fn rows_come_back_in_order_from_the_pool() {
    // Each cell holds its own place, so a row out of order would show.
    let (h, w) = (500usize, 3usize);
    let out = grid(h, w, &|y: usize, x: usize| 10 * y + x);
    for y in 0..h {
        for x in 0..w {
            assert_eq!(out[y * w + x], 10 * y + x);
        }
    }
}

#[test]
fn tiles_become_pixels() {
    let p = Planes {
        hh: 1,
        ww: 2,
        gr: vec![96u16, 0],
        r: vec![959, 0],
        b: vec![0, 0],
        gb: vec![96, 192],
    };
    let unit = (1.0f32.to_bits()).to_le_bytes();
    let flat: Vec<u8> = unit.iter().copied().cycle().take(LSC_BYTES).collect();
    let grids = build_grids(&flat, 0, 1, 2, &FLOATS);
    let rgb = render_half(&p, &grids, &plain_look(), &FLOATS);
    assert_eq!(rgb, vec![255, 26, 0, 0, 26, 0]);
}

#[test]
fn realigning_by_nothing_changes_nothing() {
    let (w, h) = (10usize, 6usize);
    // No blue, so that the test's colour stage is the identity.
    let cfa: Vec<f32> = (0..w * h)
        .map(|i| if site(i / w, i % w) == Site::B { 0.0 } else { ((i * 53) % 900) as f32 })
        .collect();
    let mut look = plain_look();
    // Blue is dropped before the matrices are chosen.
    look.est.ccm[8] = 0.0;
    let plain = render_mhc_fused(&cfa, w, h, &look, &FLOATS);
    let planar = mhc_to_planar(&cfa, w, h, &FLOATS);
    assert_eq!(
        render_lca_color(&planar, &shifts(0.0, 0.0, 0.0, 0.0), &look, &FLOATS),
        plain
    );
    // Red one column to the right, cut at the border; green stays.
    let out = render_lca_color(&planar, &shifts(1.0, 0.0, 0.0, 2.0), &look, &FLOATS);
    for y in 0..h {
        for x in 0..w {
            let i = 3 * (y * w + x);
            assert_eq!(out[i], plain[3 * (y * w + (x + 1).min(w - 1))]);
            assert_eq!(out[i + 1], plain[i + 1]);
        }
    }
}

#[test]
fn red_and_blue_follow_their_own_grids() {
    let lca = shifts(0.25, 1.5, 3.0, 0.5);
    let s = locate(&lca, 4, 7, &FLOATS);
    assert_eq!((s.red.y, s.red.x, s.red.weights), (5, 7, (0.5, 0.25)));
    assert_eq!((s.blue.y, s.blue.x, s.blue.weights), (4, 10, (0.5, 0.0)));
}

#[test]
fn pixels_without_hue_keep_the_global_matrix() {
    let mut look = plain_look();
    look.est.ccm = [2.0, 0.0, 0.0, 0.0, 3.0, 0.0, 0.0, 0.0, 1.0];
    assert_eq!(acm_color([0.5, 0.25, 0.0], &look, &FLOATS), [1.0, 0.75, 0.0]);
}

#[test]
fn hues_blend_their_two_sectors() {
    let mut look = plain_look();
    look.est.ccm = [1.0; 9];
    look.acm.mats = (0..ACM_NSEC).map(|s| [s as f64; 9]).collect();
    let hue = Hue { sector: 23, frac: 0.25, weight: 0.5 };
    // Sectors 23 and 0, three to one, then half and half with the global matrix.
    assert_eq!(sector_matrix(&look, &hue, &FLOATS), [0.5 * 1.0 + 0.5 * 17.25; 9]);
    let hue = Hue { sector: -2, frac: 0.0, weight: 1.0 };
    assert_eq!(sector_matrix(&look, &hue, &FLOATS), [22.0; 9]);
    // A hue at sector 5: skin first, then yellow.
    let out = acm_color([0.0, 0.0, 0.5], &look, &FLOATS);
    assert_eq!(out, [((0.5 * 1.0 + 0.5 * 5.0) * 0.5 + 1.0) * 2.0; 3]);
}

/// The blue WB gain is the neutral inverse times the trim, and the other gains are
/// the plain inverses.
#[test]
fn blue_gain_carries_wb_blue_trim() {
    let (rg, bg) = (0.638_f32, 0.447_f32); // a real on-locus scene chroma
    let k = Floats { trim: WB_BLUE_TRIM };
    let est = estimate_from_chroma::<u16, Floats>(Chroma { rg, bg }, None, &calibration(), &k);
    assert!((est.gains[0] - 1.0 / rg as f64).abs() < 1e-12, "red gain unchanged");
    assert!((est.gains[1] - 1.0).abs() < 1e-12, "green gain is 1");
    assert!(
        (est.gains[2] - (1.0 / bg as f64) * WB_BLUE_TRIM).abs() < 1e-12,
        "blue gain = (1/bg) * WB_BLUE_TRIM"
    );
    assert!(WB_BLUE_TRIM > 1.0, "trim must cool, not warm");
}

#[test]
fn estimates_follow_the_calibration() {
    let cal = calibration();
    let at = |i: usize| Chroma { rg: LOCUS[i].0 as f32, bg: LOCUS[i].1 as f32 };
    // Half way between the first two calibrations.
    let c = Chroma {
        rg: ((LOCUS[0].0 + LOCUS[1].0) / 2.0) as f32,
        bg: ((LOCUS[0].1 + LOCUS[1].1) / 2.0) as f32,
    };
    let est = estimate_from_chroma::<u16, Floats>(c, None, &cal, &FLOATS);
    assert!((est.cct - 3383.0).abs() < 0.1, "{}", est.cct);
    assert!(est.ccm.iter().all(|v| (v - 0.5).abs() < 1e-3), "{:?}", est.ccm);
    // Each light source is chosen at its own chroma, and kept a little past it.
    for i in 0..LSC_NLS {
        assert_eq!(select_source::<u16, Floats>(at(i), None, &FLOATS), i);
    }
    let nearer_to_1 = Chroma { rg: 0.667, bg: 0.412 };
    assert_eq!(select_source::<u16, Floats>(nearer_to_1, None, &FLOATS), 1);
    assert_eq!(select_source::<u16, Floats>(nearer_to_1, Some(0), &FLOATS), 0);
    assert_eq!(select_source::<u16, Floats>(at(1), Some(0), &FLOATS), 1);
    // A black frame has no chroma: the gains stay finite.
    let est = estimate_from_chroma::<u16, Floats>(
        Chroma { rg: f32::NAN, bg: 0.0 },
        None,
        &cal,
        &FLOATS,
    );
    assert_eq!((est.chroma, est.gains), (Chroma { rg: 1.0, bg: 1.0 }, [1.0; 3]));
}

#[test]
fn calibrated_temperatures_keep_their_matrices() {
    let cal = calibration();
    for j in 0..NUM_CCM {
        let acm = acm_for::<u16, Floats>(&CTS[j], &cal, &FLOATS);
        for s in 0..ACM_NSEC {
            assert_eq!(acm.mats[s], [((j * ACM_NSEC + s) as f32 / 10.0) as f64; 9]);
        }
    }
    let ends = [(1000.0, 0), (9000.0, NUM_CCM - 1)];
    for (cct, j) in ends {
        let acm = acm_for::<u16, Floats>(&cct, &cal, &FLOATS);
        assert_eq!(acm.mats[3], [((j * ACM_NSEC + 3) as f32 / 10.0) as f64; 9]);
    }
}

#[test]
fn statistics_depend_on_the_planes_alone() {
    let (p, other) =
        (fill_planes_blc_from_bytes(&capture(6)), fill_planes_blc_from_bytes(&capture(600)));
    let first = robust_neutral(&p, &FLOATS);
    robust_neutral(&other, &FLOATS);
    assert!(robust_neutral(&p, &FLOATS) == first);
}

#[test]
fn dark_and_sparse_scenes_fall_back() {
    let planes = |g: u16, r: u16, n: usize| Planes {
        hh: 1,
        ww: n,
        gr: vec![g; n],
        r: vec![r; n],
        b: vec![g; n],
        gb: vec![g; n],
    };
    // No pixel bright enough to divide by: neutral.
    assert_eq!(scene_chroma(&planes(0, 7, 400), &FLOATS), Chroma { rg: 1.0, bg: 1.0 });
    // Too few pixels for a median: the mean.
    assert_eq!(scene_chroma(&planes(100, 50, 9), &FLOATS), Chroma { rg: 0.5, bg: 1.0 });
    assert_eq!(scene_chroma(&planes(100, 50, 400), &FLOATS), Chroma { rg: 0.5, bg: 1.0 });
}

#[test]
fn pixels_are_classified_one_by_one() {
    let none: Option<Percentile> = None;
    let (r, b) = (NEUTRAL_RG * 500.0, NEUTRAL_BG * 500.0);
    assert_eq!(classify(r, 500.0, b, none, &FLOATS), flags(true, true, true, true));
    assert_eq!(classify(500.0f32, 500.0, 90.0, none, &FLOATS), flags(true, true, true, false));
    assert_eq!(classify(955.0f32, 500.0, b, none, &FLOATS), flags(true, false, true, false));
    assert_eq!(classify(1.0f32, 0.5, 0.4, none, &FLOATS), flags(false, true, true, false));
}

/// The live processor's first frame must match the one-shot half-res pipeline.
#[test]
fn processor_matches_process_halfres() {
    let (bytes, cal) = (capture(3), calibration());
    let frame = RawFrame::from_bytes(&bytes).unwrap();
    let shot = process(&frame, &cal, &FLOATS);
    let mut p: Processor<Floats> = Processor::new(DebayerMode::HalfRes, 8, true);
    let (w, h, rgb) = p.process(&bytes, &cal, &FLOATS).unwrap();
    assert_eq!((w, h), (W / 2, H / 2));
    assert_eq!((w, h), (shot.w, shot.h), "size mismatch");
    assert!(rgb == &shot.rgb[..], "processor diverges from process()");
    assert_eq!(p.estimate().unwrap(), &shot.look.est);
}

#[test]
fn processor_full_resolution_matches_one_shot() {
    let (bytes, cal) = (capture(31), calibration());
    let frame = RawFrame::from_bytes(&bytes).unwrap();
    let shot = process_with(&frame, DebayerMode::Mhc, &cal, &FLOATS);
    let mut p: Processor<Floats> = Processor::new(DebayerMode::Mhc, 1, true);
    let (w, h, rgb) = p.process(&bytes, &cal, &FLOATS).unwrap();
    assert_eq!((w, h), (W, H));
    assert!(rgb == &shot.rgb[..]);
    // With no shift at all, correction on and off agree.
    let mut q: Processor<Floats> = Processor::new(DebayerMode::Mhc, 1, false);
    let (_, _, plain) = q.process(&bytes, &cal, &FLOATS).unwrap();
    assert!(plain == &shot.rgb[..]);
}

#[test]
fn processor_estimates_on_schedule() {
    let cal = calibration();
    let mut p: Processor<Floats> = Processor::new(DebayerMode::HalfRes, 2, false);
    assert!(p.estimate().is_none());
    assert_eq!(p.process(&[0; 10], &cal, &FLOATS).unwrap_err(), RawTooSmall { got: 10 });
    assert!(p.estimate().is_none());
    assert_eq!(p.frame, 0);
    let first = capture(1);
    let dark = vec![70u8; RAW_BYTES];
    p.process(&first, &cal, &FLOATS).unwrap();
    let chroma = p.chroma.unwrap();
    // The second frame is not estimated, the third is, and smoothed.
    p.process(&dark, &cal, &FLOATS).unwrap();
    assert_eq!(p.chroma, Some(chroma));
    p.process(&dark, &cal, &FLOATS).unwrap();
    let planes = fill_planes_blc_from_bytes(&dark);
    let measured = scene_chroma(&planes, &FLOATS);
    let want = Chroma {
        rg: smoothed(chroma.rg, measured.rg),
        bg: smoothed(chroma.bg, measured.bg),
    };
    assert_eq!(p.chroma, Some(want));
    assert_eq!(p.frame, 3);
    assert_eq!(smooth_chroma::<u16, Floats>(None, measured, &FLOATS), measured);
}

#[test]
fn first_estimate_has_no_history() {
    let cal = calibration();
    let planes = fill_planes_blc_from_bytes(&capture(12));
    let (chroma, look) = follow(&planes, None, None, &cal, &FLOATS);
    assert_eq!(chroma, scene_chroma(&planes, &FLOATS));
    assert_eq!(look.est, estimate(&planes, &cal, &FLOATS));
}

#[test]
fn shading_cache_follows_the_source() {
    let cal = calibration();
    let mut p: Processor<Floats> = Processor::new(DebayerMode::HalfRes, 1, false);
    for seed in [5, 800, 3] {
        p.process(&capture(seed), &cal, &FLOATS).unwrap();
        let ls = p.estimate().unwrap().ls;
        assert_eq!(p.grids, Some(build_grids(&cal.lsc, ls, H / 2, W / 2, &FLOATS)));
    }
}

#[test]
fn interval_of_zero_estimates_every_frame() {
    let p: Processor<Floats> = Processor::new(DebayerMode::Mhc, 0, false);
    assert_eq!(p.interval, 1);
    assert_eq!(p.out.len(), W * H * 3);
    let q: Processor<Floats> = Processor::new(DebayerMode::HalfRes, 5, true);
    assert!(!q.lca);
    assert_eq!(q.out.len(), W / 2 * (H / 2) * 3);
}

fn flags(valid: bool, unclipped: bool, bright: bool, near: bool) -> PixelFlags {
    PixelFlags { valid, unclipped, bright, near }
}

#[test]
fn masks_are_tried_from_the_strictest() {
    let strict = flags(true, true, true, true);
    let neutral = flags(true, true, false, true);
    let off = flags(true, true, true, false);
    let clipped = flags(true, false, true, true);
    let black = flags(false, true, true, true);
    assert_eq!(awb_select(&[off, strict, black, strict], Mask::NeutralBright), vec![1, 3]);

    let mut px = vec![strict; 100];
    assert!(matches!(choose_voters(&px), Voters::Median { mask: Mask::NeutralBright, .. }));
    px[0] = neutral;
    assert!(matches!(choose_voters(&px), Voters::Median { mask: Mask::Neutral, .. }));
    px[0] = off;
    assert!(matches!(choose_voters(&px), Voters::Median { mask: Mask::UnclippedBright, .. }));
    px[1] = neutral;
    assert!(matches!(choose_voters(&px), Voters::Median { mask: Mask::Unclipped, .. }));
    let px = vec![clipped; 100];
    assert!(matches!(choose_voters(&px), Voters::Median { mask: Mask::Bright, .. }));
    let px = vec![flags(true, false, false, false); 100];
    assert!(matches!(choose_voters(&px), Voters::Median { mask: Mask::Valid, .. }));
    let px = vec![black, off, black, neutral];
    assert_eq!(choose_voters(&px), Voters::Mean { idx: vec![1, 3] });
    assert_eq!(choose_voters(&[black; 500]), Voters::Neutral);
    assert_eq!(choose_voters(&[]), Voters::Neutral);
}

#[test]
fn coloured_majority_does_not_vote() {
    let mut px = vec![flags(true, true, true, false); 900];
    for i in 0..100 {
        px[9 * i] = flags(true, true, true, true);
    }
    match choose_voters(&px) {
        Voters::Median { mask, idx } => {
            assert_eq!(mask, Mask::NeutralBright);
            assert_eq!(idx, (0..100).map(|i| 9 * i).collect::<Vec<usize>>());
        }
        other => panic!("{other:?}"),
    }
}

#[test]
fn light_source_switches_with_hysteresis() {
    // Distances 10 and 9, relaxed by a quarter.
    let (d, relaxed) = ([10i64, 9], [12i64, 11]);
    assert_eq!(select_ls_hyst(&d, &relaxed, None), 1);
    assert_eq!(select_ls_hyst(&d, &relaxed, Some(0)), 0);
    assert_eq!(select_ls_hyst(&[12, 9], &[15, 11], Some(0)), 1);
    assert_eq!(select_ls_hyst(&[7, 7], &[8, 8], None), 0);
    let ls = select_ls_hyst(&d, &relaxed, Some(0));
    assert_eq!(select_ls_hyst(&d, &relaxed, Some(ls)), ls);
}

#[test]
fn colour_temperatures_are_bracketed() {
    let cts = [2963i64, 3803, 4049, 4779, 6426];
    assert_eq!(ct_bracket(&cts, 2963), Bracket::At(0));
    assert_eq!(ct_bracket(&cts, 2000), Bracket::At(0));
    assert_eq!(ct_bracket(&cts, 3803), Bracket::Between(0, 1));
    assert_eq!(ct_bracket(&cts, 3804), Bracket::Between(1, 2));
    assert_eq!(ct_bracket(&cts, 6426), Bracket::Between(3, 4));
    assert_eq!(ct_bracket(&cts, 9999), Bracket::At(4));
}

#[test]
fn matrices_are_interpolated_entry_by_entry() {
    let m = [[1.0f32; 9], [5.0; 9]];
    // A quarter of the way from the first colour temperature to the second.
    let cct = 3173.0f64;
    let (at, mid) = (Bracket::At(1), Bracket::Between(0, 1));
    assert_eq!(interp_ccm::<u16, Floats>(&FLOATS, &cct, &m, at), [5.0; 9]);
    assert_eq!(interp_ccm::<u16, Floats>(&FLOATS, &cct, &m, mid), [2.0; 9]);
    // Two calibrations of 24 sectors each: sector `s` holds `s` and `s + 4`.
    let acm: Vec<[f32; 9]> =
        (0..2).flat_map(|c| (0..ACM_NSEC).map(move |s| [(s + 4 * c) as f32; 9])).collect();
    let f = interp_acm::<u16, Floats>(&FLOATS, &cct, &acm, 2, mid);
    assert_eq!(f.mats.len(), ACM_NSEC);
    assert_eq!(f.mats[7], [8.0; 9]);
}

#[test]
fn hue_sectors_go_round_the_circle() {
    assert_eq!(sector_pair(0, 24), (0, 1));
    assert_eq!(sector_pair(23, 24), (23, 0));
    assert_eq!(sector_pair(-1, 24), (23, 0));
    assert_eq!(sector_pair(-25, 24), (23, 0));
    assert_eq!(sector_pair(49, 24), (1, 2));
    assert_eq!(sector_pair(5, 1), (0, 0));
}

#[test]
fn stricter_masks_keep_fewer_pixels() {
    let all: Vec<PixelFlags> =
        (0..16).map(|k| flags(k & 1 > 0, k & 2 > 0, k & 4 > 0, k & 8 > 0)).collect();
    let kept = |m| awb_select(&all, m).len();
    assert_eq!(
        [
            kept(Mask::NeutralBright),
            kept(Mask::Neutral),
            kept(Mask::UnclippedBright),
            kept(Mask::Unclipped),
            kept(Mask::Bright),
            kept(Mask::Valid)
        ],
        [1, 2, 2, 4, 4, 8]
    );
}

#[test]
fn engine_crops_packs_and_denoises() {
    let cal = calibration();
    let chroma = |cur: u16, blurred: u16| ((cur + blurred) / 2) as u8;
    let luma = |cur: u8, prev: u8| ((cur as u16 + prev as u16) / 2) as u8;
    let dn = DenoiseSpec {
        chroma_radius: 2,
        chroma_strength: (),
        temporal_alpha: (),
        strong: true,
        weight: true,
    };
    let off = DenoiseSpec { chroma_radius: 0, strong: false, weight: false, ..dn };
    let mut e: Engine<Floats> = Engine::new(DebayerMode::HalfRes, true);
    assert_eq!(e.yuyv.len(), 960 * 540 * 2);
    assert_eq!(e.proc.interval, 8);
    assert!(!e.proc.lca);

    let short = e.process(&[1, 2, 3], dn, &cal, &FLOATS, &chroma, &luma).unwrap_err();
    assert_eq!(short, RawTooSmall { got: 3 });

    // The same steps, one by one.
    let mut p: Processor<Floats> = Processor::new(DebayerMode::HalfRes, 8, false);
    let (mut want, mut history) = (vec![0u8; 960 * 540 * 2], Vec::new());
    for seed in [4, 90] {
        let bytes = capture(seed);
        let got = e.process(&bytes, dn, &cal, &FLOATS, &chroma, &luma).unwrap().to_vec();
        let (w, h, rgb) = p.process(&bytes, &cal, &FLOATS).unwrap();
        rgb_to_yuyv_crop(rgb, w, h, &mut want, 960, 540);
        denoise_chroma_yuyv(&mut want, 960, 540, 2, true, &chroma);
        temporal_denoise_luma_yuyv(&mut want, &mut history, 960, 540, true, &luma);
        assert!(got == want);
        assert!(e.prev_y == history);
    }
    // Switching temporal denoise off forgets the history.
    e.process(&capture(7), off, &cal, &FLOATS, &chroma, &luma).unwrap();
    assert!(e.prev_y.is_empty());
}
