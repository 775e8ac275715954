//! The whole pipeline, one-shot and live.
//!
//! The one-shot functions ([`process`], [`process_with`]) estimate the scene from
//! the frame and render it. The live webcam runs the same pipeline tens of times
//! a second: [`Processor`] keeps its state across frames, fuses the raw unpacking
//! with the Bayer split, caches the resized LSC grids per light source, and
//! re-estimates white balance only every so many frames (the scene's colour is
//! stable between estimates).
//!
//! Real-valued arithmetic comes in through [`Kernels`].

use vstd::prelude::*;

use crate::pipeline::bayer::{
    bayer_planes, fill_planes_blc_from_bytes, is_blc_split, is_split, Planes, Site,
};
use crate::pipeline::kernels::Kernels;
use crate::pipeline::lca::Lca;
use crate::pipeline::mhc::{is_planar, mhc_to_planar, Planar};
use crate::pipeline::render::{
    is_half_render, is_lca_render, is_mhc_render, render_half, render_lca_color, render_mhc_fused,
};
use crate::pipeline::scene::{
    follow, is_followed, is_look_from, is_scene_chroma, is_smoothed,
    law_followed_scene_keeps_a_near_source, look_from_chroma, scene_chroma, Calibration, Chroma,
    Estimate, Look, Scene,
};
use crate::pipeline::shading::{
    build_grids, cfa_lscwb, fill_cfa_lscwb_from_bytes, is_cfa_of_bytes, is_cfa_of_frame, is_grids,
    Grids,
};
use crate::raw::{is_blc_frame, RawFrame, RawTooSmall, H, RAW_BYTES, W};
use crate::tuning::{LSC_GH, LSC_GW};

verus! {

/// Debayer strategy. `HalfRes` collapses each 2x2 GRBG tile to one pixel (half
/// resolution, no interpolation). `Mhc` is full-resolution Malvar-He-Cutler.
#[derive(Debug, Clone, Copy, PartialEq, Eq, Structural)]
pub enum DebayerMode {
    HalfRes,
    Mhc,
}

/// `rgb` is the half-resolution render of the planes for `look`: shading grids of
/// its light source, then colour.
pub open spec fn is_render<K: Kernels>(
    k: K,
    cal: Calibration<K::T>,
    p: Planes<u16>,
    look: Look<K::S, K::D>,
    rgb: Seq<u8>,
) -> bool {
    exists|grids: Grids<K::G>| #[trigger]
        is_grids(k, cal.lsc@, look.est.ls as int, p.hh as int, p.ww as int, grids)
            && is_half_render(k, look, p, grids, rgb)
}

/// Render RGB8 (row-major `hh*ww*3`) from planes: LSC, half-res debayer, WB,
/// hue-sectored CCM, gamma.
pub fn render<K: Kernels>(
    p: &Planes<u16>,
    look: &Look<K::S, K::D>,
    cal: &Calibration<K::T>,
    k: &K,
) -> (rgb: Vec<u8>)
    requires
        cal.wf(),
        look.wf(),
        p.wf(),
        p.hh * LSC_GH <= usize::MAX,
        p.ww * LSC_GW <= usize::MAX,
        3 * (p.hh * p.ww) <= usize::MAX,
    ensures
        is_render(*k, *cal, *p, *look, rgb@),
{
    let grids: Grids<K::G> = build_grids(&cal.lsc, look.est.ls, p.hh, p.ww, k);
    let rgb: Vec<u8> = render_half(p, &grids, look, k);
    assert(is_grids(*k, cal.lsc@, look.est.ls as int, p.hh as int, p.ww as int, grids));
    rgb
}

/// `rgb` is the full-resolution render of a shaded mosaic: debayered, with red
/// and blue realigned to green by the grids when `lca` is set, then coloured.
pub open spec fn is_full<K: Kernels>(
    k: K,
    grids: Lca,
    cfa: Seq<K::S>,
    w: int,
    h: int,
    lca: bool,
    look: Look<K::S, K::D>,
    rgb: Seq<u8>,
) -> bool {
    if lca {
        exists|planar: Planar<K::S>| #[trigger]
            is_planar::<K::S, K::S, K>(k, cfa, w, h, planar) && is_lca_render(
                k,
                look,
                grids,
                planar,
                rgb,
            )
    } else {
        is_mhc_render(k, look, cfa, w, h, rgb)
    }
}

/// Full-resolution render of a shaded mosaic: straight to bytes, or through
/// planes when red and blue are to be realigned.
fn render_full<K: Kernels>(
    cfa: &[K::S],
    w: usize,
    h: usize,
    lca: bool,
    grids: &Lca,
    look: &Look<K::S, K::D>,
    k: &K,
) -> (rgb: Vec<u8>)
    requires
        look.wf(),
        grids.wf(),
        cfa.len() == h * w,
        3 * (h * w) <= usize::MAX,
    ensures
        rgb.len() == 3 * (h * w),
        is_full(*k, *grids, cfa@, w as int, h as int, lca, *look, rgb@),
{
    if lca {
        let planar: Planar<K::S> = mhc_to_planar(cfa, w, h, k);
        assert(is_planar::<K::S, K::S, K>(*k, cfa@, w as int, h as int, planar));
        render_lca_color(&planar, grids, look, k)
    } else {
        render_mhc_fused(cfa, w, h, look, k)
    }
}

/// `rgb` is the full-resolution render of a frame for `look`, aberration
/// corrected.
pub open spec fn is_render_mhc<K: Kernels>(
    k: K,
    cal: Calibration<K::T>,
    raw: RawFrame<u16>,
    look: Look<K::S, K::D>,
    rgb: Seq<u8>,
) -> bool {
    exists|grids: Grids<K::G>, cfa: Seq<K::S>|
        {
            &&& is_grids(
                k,
                cal.lsc@,
                look.est.ls as int,
                raw.h as int / 2,
                raw.w as int / 2,
                grids,
            )
            &&& #[trigger] is_cfa_of_frame(k, raw, grids, look.est.gains, cfa)
            &&& is_full(k, cal.lca, cfa, raw.w as int, raw.h as int, true, look, rgb)
        }
}

/// Full-resolution render: LSC + per-channel WB applied to the Bayer frame, then
/// MHC debayer, then lateral-CA correction, CCM and gamma. Returns
/// (width, height, RGB8).
pub fn render_mhc<K: Kernels>(
    raw: &RawFrame<u16>,
    look: &Look<K::S, K::D>,
    cal: &Calibration<K::T>,
    k: &K,
) -> (image: (usize, usize, Vec<u8>))
    requires
        cal.wf(),
        look.wf(),
        raw.wf(),
        raw.w % 2 == 0,
        raw.h % 2 == 0,
        raw.h * LSC_GH <= usize::MAX,
        raw.w * LSC_GW <= usize::MAX,
        3 * (raw.h * raw.w) <= usize::MAX,
    ensures
        image.0 == raw.w,
        image.1 == raw.h,
        image.2.len() == 3 * (raw.h * raw.w),
        is_render_mhc(*k, *cal, *raw, *look, image.2@),
{
    let (w, h): (usize, usize) = (raw.w, raw.h);
    proof {
        assert((h / 2) * (w / 2) <= h * w) by (nonlinear_arith)
            requires
                h / 2 <= h,
                w / 2 <= w,
        ;
    }
    let grids: Grids<K::G> = build_grids(&cal.lsc, look.est.ls, h / 2, w / 2, k);
    let cfa: Vec<K::S> = cfa_lscwb(raw, &grids, &look.est.gains, k);
    let rgb: Vec<u8> = render_full(&cfa, w, h, true, &cal.lca, look, k);
    assert(is_cfa_of_frame(*k, *raw, grids, look.est.gains, cfa@));
    (w, h, rgb)
}

/// `look` is the stateless estimate of the planes with its matrices.
pub open spec fn is_look<K: Kernels>(
    k: K,
    cal: Calibration<K::T>,
    p: Planes<u16>,
    look: Look<K::S, K::D>,
) -> bool {
    exists|c: Chroma<K::S>| #[trigger]
        is_scene_chroma::<u16, K>(k, p, c) && is_look_from::<u16, K>(k, cal, c, None, look)
}

/// What the one-shot pipeline yields: image size, RGB8 and the look it applied.
pub struct Processed<S, D> {
    pub w: usize,
    pub h: usize,
    pub rgb: Vec<u8>,
    pub look: Look<S, D>,
}

/// `out` is the one-shot pipeline's result on a frame.
pub open spec fn is_processed<K: Kernels>(
    k: K,
    cal: Calibration<K::T>,
    raw: RawFrame<u16>,
    mode: DebayerMode,
    out: Processed<K::S, K::D>,
) -> bool {
    exists|p: Planes<u16>| #[trigger]
        is_split(raw, p) && is_look(k, cal, p, out.look) && match mode {
            DebayerMode::HalfRes => {
                &&& out.w == raw.w / 2
                &&& out.h == raw.h / 2
                &&& is_render(k, cal, p, out.look, out.rgb@)
            },
            DebayerMode::Mhc => {
                &&& out.w == raw.w
                &&& out.h == raw.h
                &&& is_render_mhc(k, cal, raw, out.look, out.rgb@)
            },
        }
}

/// Full pipeline with a selectable debayer mode.
pub fn process_with<K: Kernels>(
    raw: &RawFrame<u16>,
    mode: DebayerMode,
    cal: &Calibration<K::T>,
    k: &K,
) -> (out: Processed<K::S, K::D>)
    requires
        cal.wf(),
        raw.wf(),
        raw.w == W,
        raw.h == H,
    ensures
        is_processed(*k, *cal, *raw, mode, out),
{
    let planes: Planes<u16> = bayer_planes(raw);
    let c: Chroma<K::S> = scene_chroma(&planes, k);
    let look: Look<K::S, K::D> = look_from_chroma::<u16, K>(c, None, cal, k);
    assert(is_split(*raw, planes));
    match mode {
        DebayerMode::HalfRes => {
            let rgb: Vec<u8> = render(&planes, &look, cal, k);
            Processed { w: planes.ww, h: planes.hh, rgb, look }
        },
        DebayerMode::Mhc => {
            let (w, h, rgb): (usize, usize, Vec<u8>) = render_mhc(raw, &look, cal, k);
            Processed { w, h, rgb, look }
        },
    }
}

/// Full pipeline (half-res).
pub fn process<K: Kernels>(
    raw: &RawFrame<u16>,
    cal: &Calibration<K::T>,
    k: &K,
) -> (out: Processed<K::S, K::D>)
    requires
        cal.wf(),
        raw.wf(),
        raw.w == W,
        raw.h == H,
    ensures
        is_processed(*k, *cal, *raw, DebayerMode::HalfRes, out),
{
    process_with(raw, DebayerMode::HalfRes, cal, k)
}

/// Reusable, data-parallel processor for the live webcam path: caches the LSC
/// grids per light source and re-estimates white balance only every `interval`
/// frames.
pub struct Processor<K: Kernels> {
    pub mode: DebayerMode,
    /// Frames between estimates.
    pub interval: u64,
    /// Frames processed, modulo 2^64.
    pub frame: u64,
    /// Correct lateral chromatic aberration; applies to the full-res mode only.
    pub lca: bool,
    /// The planes of the last frame that was split.
    pub planes: Planes<u16>,
    /// The shading grids of the current light source.
    pub grids: Option<Grids<K::G>>,
    /// The current estimate and its matrices.
    pub look: Option<Look<K::S, K::D>>,
    /// The smoothed scene chroma.
    pub chroma: Option<Chroma<K::S>>,
    /// The last rendered image.
    pub out: Vec<u8>,
}

/// Size of a rendered image, width first.
pub open spec fn out_dims(mode: DebayerMode) -> (int, int) {
    match mode {
        DebayerMode::HalfRes => (W as int / 2, H as int / 2),
        DebayerMode::Mhc => (W as int, H as int),
    }
}

impl<K: Kernels> Processor<K> {
    /// The interval is positive; grids, matrices and smoothed chroma are there
    /// once there is an estimate, and the grids are those of its light source.
    pub open spec fn wf(&self) -> bool {
        &&& self.interval >= 1
        &&& self.planes.wf()
        &&& self.planes.hh == H / 2
        &&& self.planes.ww == W / 2
        &&& self.look is Some <==> self.grids is Some
        &&& self.look is Some <==> self.chroma is Some
        &&& match (self.look, self.grids) {
            (Some(look), Some(grids)) => {
                &&& look.wf()
                &&& grids.ls == look.est.ls
                &&& grids.wf()
                &&& grids.hh == H / 2
                &&& grids.ww == W / 2
            },
            _ => true,
        }
    }

    /// The cached grids are the calibrated ones of the light source in use.
    pub open spec fn calibrated_by(&self, k: K, cal: Calibration<K::T>) -> bool {
        match (self.look, self.grids) {
            (Some(look), Some(grids)) => is_grids(
                k,
                cal.lsc@,
                look.est.ls as int,
                H as int / 2,
                W as int / 2,
                grids,
            ),
            _ => true,
        }
    }

    /// The next frame is estimated: it is the first, or its turn has come.
    pub open spec fn due(&self) -> bool {
        self.look is None || self.frame % self.interval == 0
    }

    /// The light source in use.
    pub open spec fn source(&self) -> Option<usize> {
        match self.look {
            Some(look) => Some(look.est.ls),
            None => None,
        }
    }
}

/// `new` is `old` after an estimate from the current planes: the measured chroma
/// smoothed against the previous one, an estimate from it with hysteresis towards
/// the previous light source, its matrices, and the grids of its light source,
/// kept when the source did not change. Nothing else moves.
pub open spec fn is_reestimated<K: Kernels>(
    k: K,
    cal: Calibration<K::T>,
    old: Processor<K>,
    new: Processor<K>,
) -> bool {
    &&& new.mode == old.mode
    &&& new.interval == old.interval
    &&& new.frame == old.frame
    &&& new.lca == old.lca
    &&& new.planes == old.planes
    &&& new.out == old.out
    &&& match (new.chroma, new.look, new.grids) {
        (Some(chroma), Some(look), Some(grids)) => {
            &&& is_followed::<u16, K>(
                k,
                cal,
                old.planes,
                old.chroma,
                old.source(),
                chroma,
                look,
            )
            &&& if old.grids is Some && old.source() == Some(look.est.ls) {
                old.grids == Some(grids)
            } else {
                is_grids(k, cal.lsc@, look.est.ls as int, H as int / 2, W as int / 2, grids)
            }
        },
        _ => false,
    }
}

/// `new.out` is the render of the capture buffer under `new`'s look.
pub open spec fn is_output<K: Kernels>(
    k: K,
    cal: Calibration<K::T>,
    bytes: Seq<u8>,
    new: Processor<K>,
) -> bool {
    match (new.look, new.grids) {
        (Some(look), Some(grids)) => match new.mode {
            DebayerMode::HalfRes => is_half_render(k, look, new.planes, grids, new.out@),
            DebayerMode::Mhc => exists|cfa: Seq<K::S>| #[trigger]
                is_cfa_of_bytes(k, bytes, grids, look.est.gains, cfa) && is_full(
                    k,
                    cal.lca,
                    cfa,
                    W as int,
                    H as int,
                    new.lca,
                    look,
                    new.out@,
                ),
        },
        _ => false,
    }
}

/// The planes that a frame leaves behind: split from it in half-res mode and
/// whenever it is estimated, else those of an earlier frame.
pub open spec fn is_resplit<K: Kernels>(
    bytes: Seq<u8>,
    old: Processor<K>,
    split: Processor<K>,
) -> bool {
    &&& split == (Processor { planes: split.planes, ..old })
    &&& if old.mode == DebayerMode::HalfRes || old.due() {
        is_blc_split(bytes, split.planes)
    } else {
        split.planes == old.planes
    }
}

/// `new` is `old` with a new image and one more frame counted.
pub open spec fn is_counted<K: Kernels>(old: Processor<K>, new: Processor<K>) -> bool {
    &&& new == (Processor { frame: new.frame, out: new.out, ..old })
    &&& new.frame == (if old.frame == u64::MAX {
        0
    } else {
        old.frame + 1
    })
}

/// `new` is `old` after one frame: split where called for, estimated when due,
/// rendered, and the frame counted.
pub open spec fn is_step<K: Kernels>(
    k: K,
    cal: Calibration<K::T>,
    bytes: Seq<u8>,
    old: Processor<K>,
    new: Processor<K>,
) -> bool {
    &&& exists|split: Processor<K>, estimated: Processor<K>|
        {
            &&& #[trigger] is_resplit(bytes, old, split)
            &&& if old.due() {
                is_reestimated(k, cal, split, estimated)
            } else {
                estimated == split
            }
            &&& #[trigger] is_counted(estimated, new)
        }
    &&& is_output(k, cal, bytes, new)
}

impl<K: Kernels> Processor<K> {
    /// Create a processor for `mode`, re-estimating every `awb_interval` frames
    /// (clamped to >= 1; the first frame always estimates). `lca` enables
    /// lateral-chromatic-aberration correction; it only applies to the full-res
    /// mode (half-res ignores it).
    pub fn new(mode: DebayerMode, awb_interval: u64, lca: bool) -> (p: Self)
        ensures
            p.wf(),
            p.mode == mode,
            p.interval == (if awb_interval == 0 {
                1
            } else {
                awb_interval as int
            }),
            p.frame == 0,
            p.lca == (lca && mode == DebayerMode::Mhc),
            p.look is None,
            p.due(),
            p.out.len() == 3 * (out_dims(mode).0 * out_dims(mode).1),
            forall|i: int| 0 <= i < p.out.len() ==> #[trigger] p.out@[i] == 0,
    {
        let (ww, hh): (usize, usize) = (W / 2, H / 2);
        proof {
            assert(hh * ww == (W as int / 2) * (H as int / 2) && hh * ww * 3 <= usize::MAX) by (nonlinear_arith)
                requires
                    hh == H / 2,
                    ww == W / 2,
                    hh == 544,
                    ww == 964,
            ;
        }
        let n: usize = hh * ww;
        let planes = Planes {
            hh,
            ww,
            gr: vec![0; n],
            r: vec![0; n],
            b: vec![0; n],
            gb: vec![0; n],
        };
        let out: Vec<u8> = match mode {
            DebayerMode::HalfRes => vec![0; hh * ww * 3],
            DebayerMode::Mhc => vec![0; W * H * 3],
        };
        Processor {
            mode,
            interval: if awb_interval == 0 {
                1
            } else {
                awb_interval
            },
            frame: 0,
            lca: lca && mode == DebayerMode::Mhc,
            planes,
            grids: None,
            look: None,
            chroma: None,
            out,
        }
    }

    /// The most recent scene estimate, if any frame has been processed.
    pub fn estimate(&self) -> (est: Option<&Estimate<K::S, K::D>>)
        ensures
            match (est, self.look) {
                (Some(est), Some(look)) => *est == look.est,
                (None, None) => true,
                _ => false,
            },
    {
        match &self.look {
            Some(look) => Some(&look.est),
            None => None,
        }
    }

    /// Re-estimate from the current (BLC) planes and rebuild the LSC grids if the
    /// chosen light source changed. The scene chroma is smoothed across estimates
    /// and the LSC source switch is hysteretic, so white balance follows lighting
    /// changes gradually instead of stepping every interval. The first frame has
    /// no history, so it reproduces the stateless [`estimate`] exactly.
    fn reestimate(&mut self, cal: &Calibration<K::T>, k: &K)
        requires
            old(self).wf(),
            cal.wf(),
        ensures
            final(self).wf(),
            is_reestimated(*k, *cal, *old(self), *final(self)),
    {
        let prev: Option<usize> = match &self.look {
            Some(look) => Some(look.est.ls),
            None => None,
        };
        let (chroma, look): (Chroma<K::S>, Look<K::S, K::D>) = follow(
            &self.planes,
            self.chroma,
            prev,
            cal,
            k,
        );
        let keep: bool = match &self.grids {
            Some(g) => g.ls == look.est.ls,
            None => false,
        };
        if !keep {
            self.grids = Some(build_grids(&cal.lsc, look.est.ls, H / 2, W / 2, k));
        }
        self.chroma = Some(chroma);
        self.look = Some(look);
    }

    /// Process one raw SGRBG10 frame; returns `(out_w, out_h, rgb)`, the RGB8
    /// borrowing the processor's output buffer (valid until the next call). A
    /// frame that is too short is refused and changes nothing.
    pub fn process(&mut self, bytes: &[u8], cal: &Calibration<K::T>, k: &K) -> (image: Result<
        (usize, usize, &[u8]),
        RawTooSmall,
    >)
        requires
            old(self).wf(),
            cal.wf(),
        ensures
            final(self).wf(),
            match image {
                Ok((w, h, rgb)) => {
                    &&& bytes.len() >= RAW_BYTES
                    &&& w == out_dims(old(self).mode).0
                    &&& h == out_dims(old(self).mode).1
                    &&& rgb@ == final(self).out@
                    &&& is_step(*k, *cal, bytes@, *old(self), *final(self))
                },
                Err(err) => {
                    &&& bytes.len() < RAW_BYTES
                    &&& err.got == bytes.len()
                    &&& *final(self) == *old(self)
                },
            },
    {
        if bytes.len() < RAW_BYTES {
            return Err(RawTooSmall { got: bytes.len() });
        }
        let estimating: bool = match &self.look {
            None => true,
            Some(_) => self.frame % self.interval == 0,
        };
        if self.mode == DebayerMode::HalfRes || estimating {
            self.planes = fill_planes_blc_from_bytes(bytes);
        }
        let ghost split = *self;
        if estimating {
            self.reestimate(cal, k);
        }
        let ghost estimated = *self;
        match (&self.look, &self.grids) {
            (Some(look), Some(grids)) => {
                match self.mode {
                    DebayerMode::HalfRes => {
                        self.out = render_half(&self.planes, grids, look, k);
                    },
                    DebayerMode::Mhc => {
                        let cfa: Vec<K::S> = fill_cfa_lscwb_from_bytes(
                            bytes,
                            grids,
                            &look.est.gains,
                            k,
                        );
                        self.out = render_full(&cfa, W, H, self.lca, &cal.lca, look, k);
                        assert(is_cfa_of_bytes(*k, bytes@, *grids, look.est.gains, cfa@));
                    },
                }
            },
            _ => {},
        }
        self.frame = self.frame.wrapping_add(1);
        proof {
            assert(is_resplit(bytes@, *old(self), split));
            assert(is_output(*k, *cal, bytes@, *self));
            assert(is_counted(estimated, *self));
        }
        let (w, h): (usize, usize) = match self.mode {
            DebayerMode::HalfRes => (W / 2, H / 2),
            DebayerMode::Mhc => (W, H),
        };
        Ok((w, h, self.out.as_slice()))
    }
}

/// The planes filled from a capture buffer are a split of the frame it unpacks
/// to.
pub proof fn lemma_fused_split(bytes: Seq<u8>, raw: RawFrame<u16>, p: Planes<u16>)
    requires
        is_blc_frame(bytes, raw),
        is_blc_split(bytes, p),
    ensures
        is_split(raw, p),
{
    assert forall|s: Site, y: int, x: int| 0 <= y < p.hh && 0 <= x < p.ww implies #[trigger] p.tile(
        s,
        y,
        x,
    ) == raw.sample(
        2 * y + crate::pipeline::bayer::site_row(s),
        2 * x + crate::pipeline::bayer::site_col(s),
    ) by {
        let (yy, xx) = (
            2 * y + crate::pipeline::bayer::site_row(s),
            2 * x + crate::pipeline::bayer::site_col(s),
        );
        assert(raw.sample(yy, xx) == crate::raw::blc_at(bytes, yy, xx));
    }
}

/// The live processor's first frame is what the one-shot pipeline makes of the
/// same buffer: same estimate, same image. In full-res mode this is the
/// processor with aberration correction on, as the one-shot render has it.
pub proof fn law_first_frame_is_one_shot<K: Kernels>(
    k: K,
    cal: Calibration<K::T>,
    bytes: Seq<u8>,
    raw: RawFrame<u16>,
    old: Processor<K>,
    new: Processor<K>,
    out: Processed<K::S, K::D>,
)
    requires
        bytes.len() >= RAW_BYTES,
        is_blc_frame(bytes, raw),
        old.wf(),
        old.look is None,
        old.mode == DebayerMode::Mhc ==> old.lca,
        is_step(k, cal, bytes, old, new),
        out.w == out_dims(old.mode).0,
        out.h == out_dims(old.mode).1,
        out.rgb == new.out,
        new.look == Some(out.look),
    ensures
        is_processed(k, cal, raw, old.mode, out),
{
    let (split, estimated) = choose|split: Processor<K>, estimated: Processor<K>|
        {
            &&& #[trigger] is_resplit(bytes, old, split)
            &&& if old.due() {
                is_reestimated(k, cal, split, estimated)
            } else {
                estimated == split
            }
            &&& #[trigger] is_counted(estimated, new)
        };
    let p = split.planes;
    lemma_fused_split(bytes, raw, p);
    assert(is_split(raw, p));
    let grids = new.grids->0;
    assert(is_grids(k, cal.lsc@, out.look.est.ls as int, H as int / 2, W as int / 2, grids));
    match old.mode {
        DebayerMode::HalfRes => {
            assert(is_half_render(k, out.look, p, grids, out.rgb@));
        },
        DebayerMode::Mhc => {
            let cfa = choose|cfa: Seq<K::S>| #[trigger]
                is_cfa_of_bytes(k, bytes, grids, out.look.est.gains, cfa) && is_full(
                    k,
                    cal.lca,
                    cfa,
                    W as int,
                    H as int,
                    new.lca,
                    out.look,
                    new.out@,
                );
            crate::pipeline::shading::law_fused_cfa_is_cfa_of_frame(
                k,
                bytes,
                raw,
                grids,
                out.look.est.gains,
                cfa,
            );
            assert(is_cfa_of_frame(k, raw, grids, out.look.est.gains, cfa));
        },
    }
}

/// White balance holds between estimates: a frame that is not due keeps the
/// estimate, its matrices, the smoothed chroma and the shading grids.
pub proof fn law_look_holds_between_estimates<K: Kernels>(
    k: K,
    cal: Calibration<K::T>,
    bytes: Seq<u8>,
    old: Processor<K>,
    new: Processor<K>,
)
    requires
        is_step(k, cal, bytes, old, new),
        old.look is Some,
        old.frame % old.interval != 0,
    ensures
        new.look == old.look,
        new.chroma == old.chroma,
        new.grids == old.grids,
{
}

/// The shading cache is never stale: if the cached grids are the calibrated ones
/// of the light source in use, they still are after a frame, whether or not the
/// source changed.
pub proof fn law_grids_follow_the_source<K: Kernels>(
    k: K,
    cal: Calibration<K::T>,
    bytes: Seq<u8>,
    old: Processor<K>,
    new: Processor<K>,
)
    requires
        old.wf(),
        old.calibrated_by(k, cal),
        is_step(k, cal, bytes, old, new),
    ensures
        new.calibrated_by(k, cal),
{
}

/// A frame that is due is estimated from its own samples: the chroma moves part of the way
/// from where it was to what the frame itself measures (`red` and `blue`), and one more
/// frame is counted. The arithmetic is as in
/// [`crate::pipeline::scene::law_smoothing_moves_part_of_the_way`].
pub proof fn law_due_frame_follows_its_own_samples<K: Kernels>(
    k: K,
    cal: Calibration<K::T>,
    bytes: Seq<u8>,
    old: Processor<K>,
    new: Processor<K>,
    val: spec_fn(K::S) -> int,
    red: int,
    blue: int,
    part: int,
    whole: int,
)
    requires
        old.wf(),
        is_step(k, cal, bytes, old, new),
        old.frame % old.interval == 0,
        old.frame < u64::MAX,
        forall|p: Planes<u16>, c: Chroma<K::S>| #[trigger]
            is_blc_split(bytes, p) && #[trigger] is_scene_chroma::<u16, K>(k, p, c) ==> val(c.rg)
                == red && val(c.bg) == blue,
        forall|a: K::S, b: K::S, c: K::S| #[trigger]
            call_ensures(<K as Scene<u16>>::smooth, (&k, a, b), c) ==> whole
                * (val(c) - val(a)) == part * (val(b) - val(a)),
    ensures
        new.frame == old.frame + 1,
        match (old.chroma, new.chroma) {
            (Some(was), Some(is)) => {
                &&& whole * (val(is.rg) - val(was.rg)) == part * (red - val(was.rg))
                &&& whole * (val(is.bg) - val(was.bg)) == part * (blue - val(was.bg))
            },
            (None, Some(is)) => val(is.rg) == red && val(is.bg) == blue,
            _ => false,
        },
{
    let (split, estimated) = choose|split: Processor<K>, estimated: Processor<K>|
        {
            &&& #[trigger] is_resplit(bytes, old, split)
            &&& if old.due() {
                is_reestimated(k, cal, split, estimated)
            } else {
                estimated == split
            }
            &&& #[trigger] is_counted(estimated, new)
        };
    assert(is_blc_split(bytes, split.planes));
    let chroma = new.chroma->0;
    let measured = choose|measured: Chroma<K::S>| #[trigger]
        is_scene_chroma::<u16, K>(k, split.planes, measured)
            && is_smoothed::<u16, K>(k, old.chroma, measured, chroma);
}

/// A frame that is due keeps the light source of the frame before it while that is near
/// enough: no further from the new chroma than the nearest one's relaxed distance. `dist`
/// and `relaxed` are how far each source is from it, and `i` is the first of the nearest.
pub proof fn law_due_frame_keeps_a_near_source<K: Kernels>(
    k: K,
    cal: Calibration<K::T>,
    bytes: Seq<u8>,
    old: Processor<K>,
    new: Processor<K>,
    was: Look<K::S, K::D>,
    is: Look<K::S, K::D>,
    dist: Seq<i64>,
    relaxed: Seq<i64>,
    i: int,
)
    requires
        old.wf(),
        is_step(k, cal, bytes, old, new),
        old.frame % old.interval == 0,
        old.look == Some(was),
        new.look == Some(is),
        dist.len() == 5,
        relaxed.len() == 5,
        forall|s: usize, key: i64| #[trigger]
            call_ensures(
                <K as Scene<u16>>::distance_key,
                (&k, s, is.est.chroma),
                key,
            ) && s < 5 ==> key == dist[s as int],
        forall|s: usize, key: i64| #[trigger]
            call_ensures(
                <K as Scene<u16>>::relaxed_key,
                (&k, s, is.est.chroma),
                key,
            ) && s < 5 ==> key == relaxed[s as int],
        0 <= i < 5,
        forall|j: int| 0 <= j < i ==> dist[i] < #[trigger] dist[j],
        forall|j: int| i < j < 5 ==> dist[i] <= #[trigger] dist[j],
    ensures
        is.est.ls == (if dist[was.est.ls as int] <= relaxed[i] {
            was.est.ls as int
        } else {
            i
        }),
        is.est.ls == was.est.ls ==> new.grids == old.grids,
{
    let (split, estimated) = choose|split: Processor<K>, estimated: Processor<K>|
        {
            &&& #[trigger] is_resplit(bytes, old, split)
            &&& if old.due() {
                is_reestimated(k, cal, split, estimated)
            } else {
                estimated == split
            }
            &&& #[trigger] is_counted(estimated, new)
        };
    law_followed_scene_keeps_a_near_source::<u16, K>(
        k,
        cal,
        split.planes,
        old.chroma,
        Some(was.est.ls),
        new.chroma->0,
        is,
        dist,
        relaxed,
        i,
    );
}

} // verus!
