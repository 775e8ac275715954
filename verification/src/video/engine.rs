//! The CPU engine: raw capture bytes to a denoised YUYV frame.

use vstd::prelude::*;

use crate::output::denoise::{
    denoise_chroma_yuyv, is_chroma_denoised, is_luma_denoised,
    law_denoising_reaches_every_chroma_sample, law_luma_is_blended_with_its_own_history, luma_plane,
    temporal_denoise_luma_yuyv,
};
use crate::output::yuyv::{
    is_yuyv_crop, law_output_is_bt601_of_the_centre, lemma_crop_end, rgb_to_yuyv_crop,
};
use crate::pipeline::kernels::Kernels;
use crate::pipeline::processor::{is_step, out_dims, DebayerMode, Processor};
use crate::pipeline::scene::Calibration;
use crate::raw::{RawTooSmall, RAW_BYTES};
use crate::rows::lemma_cell;

verus! {

/// Re-estimate white balance every so many frames. The scene's colour temperature
/// is stable between estimates; brightness is still metered every frame.
pub const AWB_INTERVAL: u64 = 8;

/// Motion gate threshold (luma codes) for temporal denoise: above this per-pixel
/// frame-to-frame change the blend fades out to avoid ghosting on motion.
pub const TEMPORAL_MOTION: u8 = 12;

/// A gain's tier: the gain doubles every four steps, and noise grows with it.
pub open spec fn tier(gain_index: u8) -> int {
    if gain_index <= 3 {
        0
    } else if gain_index <= 7 {
        1
    } else if gain_index <= 11 {
        2
    } else {
        3
    }
}

/// Chroma blend strength of a tier, in hundredths.
pub open spec fn chroma_strength(tier: int) -> int {
    seq![0int, 50, 70, 85][tier]
}

/// Temporal blend weight of a tier, in hundredths.
pub open spec fn temporal_weight(tier: int) -> int {
    seq![0int, 40, 55, 70][tier]
}

/// Chroma-denoise setting for an analogue-gain LUT index: box-blur radius on the
/// chroma grid, and blend strength in hundredths. Off at low gain, to preserve
/// fidelity; stronger as auto-exposure raises gain in dim light.
pub fn chroma_denoise_for_gain(gain_index: u8) -> (d: (usize, u8))
    ensures
        d.0 == tier(gain_index),
        d.1 == chroma_strength(tier(gain_index)),
{
    if gain_index <= 3 {
        (0, 0)
    } else if gain_index <= 7 {
        (1, 50)
    } else if gain_index <= 11 {
        (2, 70)
    } else {
        (3, 85)
    }
}

/// Maximum temporal-blend weight for an analogue-gain LUT index, in hundredths.
/// Off at low gain; ramps up with gain.
pub fn temporal_luma_for_gain(gain_index: u8) -> (a: u8)
    ensures
        a == temporal_weight(tier(gain_index)),
{
    if gain_index <= 3 {
        0
    } else if gain_index <= 7 {
        40
    } else if gain_index <= 11 {
        55
    } else {
        70
    }
}

/// The denoise settings are off at low gain and never weaken as gain rises.
pub proof fn law_denoise_grows_with_gain(a: u8, b: u8)
    requires
        a <= b,
    ensures
        tier(a) <= tier(b),
        chroma_strength(tier(a)) <= chroma_strength(tier(b)) < 100,
        temporal_weight(tier(a)) <= temporal_weight(tier(b)) < 100,
        a <= 3 ==> tier(a) == 0 && chroma_strength(tier(a)) == 0 && temporal_weight(tier(a)) == 0,
{
}

/// Output (cropped) size for a debayer mode, width first: a standard 16:9 size
/// centred in the slightly larger ISP output.
pub open spec fn output_size_spec(mode: DebayerMode) -> (int, int) {
    match mode {
        DebayerMode::Mhc => (1920, 1080),
        DebayerMode::HalfRes => (960, 540),
    }
}

/// Output (cropped) size for a debayer mode, width first.
pub fn output_size(mode: DebayerMode) -> (s: (usize, usize))
    ensures
        s.0 == output_size_spec(mode).0,
        s.1 == output_size_spec(mode).1,
{
    match mode {
        DebayerMode::Mhc => (1920, 1080),
        DebayerMode::HalfRes => (960, 540),
    }
}

/// The crop of every mode fits in what the pipeline renders, is of even width and
/// leaves the same margin on both sides.
pub proof fn law_crop_fits(mode: DebayerMode)
    ensures
        output_size_spec(mode).0 <= out_dims(mode).0,
        output_size_spec(mode).1 <= out_dims(mode).1,
        output_size_spec(mode).0 % 2 == 0,
        (out_dims(mode).0 - output_size_spec(mode).0) % 2 == 0,
        (out_dims(mode).1 - output_size_spec(mode).1) % 2 == 0,
{
}

/// The real-valued scaling of the denoise settings.
pub trait Scaling {
    /// A strength or a weight.
    type X: Copy;

    /// A chroma strength in hundredths, scaled and limited.
    fn chroma(&self, hundredths: u8) -> Self::X;

    /// A temporal weight in hundredths, scaled and limited.
    fn temporal(&self, hundredths: u8) -> Self::X;

    /// The setting is more than nothing.
    fn positive(&self, x: Self::X) -> bool;
}

/// Gain-adaptive denoise settings of one frame, resolved from the gain the frame was
/// exposed with. Chroma denoise is spatial, luma denoise is temporal; both are
/// nothing at low gain.
#[derive(Debug, Clone, Copy, PartialEq, Eq)]
pub struct DenoiseSpec<X> {
    pub chroma_radius: usize,
    pub chroma_strength: X,
    pub temporal_alpha: X,
    /// The chroma strength is positive.
    pub strong: bool,
    /// The temporal weight is positive.
    pub weight: bool,
}

/// `d` holds the settings for a gain: those of its tier, scaled.
pub open spec fn is_from_gain<K: Scaling>(k: K, gain_index: u8, d: DenoiseSpec<K::X>) -> bool {
    &&& d.chroma_radius == tier(gain_index)
    &&& call_ensures(
        K::chroma,
        (&k, chroma_strength(tier(gain_index)) as u8),
        d.chroma_strength,
    )
    &&& call_ensures(
        K::temporal,
        (&k, temporal_weight(tier(gain_index)) as u8),
        d.temporal_alpha,
    )
    &&& call_ensures(K::positive, (&k, d.chroma_strength), d.strong)
    &&& call_ensures(K::positive, (&k, d.temporal_alpha), d.weight)
}

impl<X: Copy> DenoiseSpec<X> {
    /// The settings for a gain.
    pub fn from_gain<K: Scaling<X = X>>(gain_index: u8, k: &K) -> (d: Self)
        ensures
            is_from_gain(*k, gain_index, d),
    {
        let (chroma_radius, strength): (usize, u8) = chroma_denoise_for_gain(gain_index);
        let weight: u8 = temporal_luma_for_gain(gain_index);
        let chroma_strength: X = k.chroma(strength);
        let temporal_alpha: X = k.temporal(weight);
        DenoiseSpec {
            chroma_radius,
            chroma_strength,
            temporal_alpha,
            strong: k.positive(chroma_strength),
            weight: k.positive(temporal_alpha),
        }
    }

    /// Chroma denoising does something.
    pub open spec fn chroma_on_spec(&self) -> bool {
        self.chroma_radius > 0 && self.strong
    }

    /// Chroma denoising does something.
    pub fn chroma_on(&self) -> (on: bool)
        ensures
            on == self.chroma_on_spec(),
    {
        self.chroma_radius > 0 && self.strong
    }

    /// Temporal denoising does something.
    pub fn temporal_on(&self) -> (on: bool)
        ensures
            on == self.weight,
    {
        self.weight
    }
}

/// The scaled settings follow the gain: both kinds of denoising are off at low gain;
/// above it each is on exactly where its scale is positive (`chroma`, `temporal`);
/// neither weakens as gain rises, in the order `le` of settings; and both stay
/// between `none` and their limit. This is of a scaling that makes nothing of nothing,
/// something of something exactly where the scale is positive, keeps the order and
/// keeps the limits.
pub proof fn law_scaled_denoise_follows_gain<K: Scaling>(
    k: K,
    chroma: bool,
    temporal: bool,
    le: spec_fn(K::X, K::X) -> bool,
    none: K::X,
    most_chroma: K::X,
    most_temporal: K::X,
    a: u8,
    b: u8,
    da: DenoiseSpec<K::X>,
    db: DenoiseSpec<K::X>,
)
    requires
        a <= b,
        is_from_gain(k, a, da),
        is_from_gain(k, b, db),
        forall|n: u8, x: K::X, p: bool| #[trigger]
            call_ensures(K::chroma, (&k, n), x) && #[trigger] call_ensures(K::positive, (&k, x), p)
                ==> p == (n > 0 && chroma),
        forall|n: u8, x: K::X, p: bool| #[trigger]
            call_ensures(K::temporal, (&k, n), x) && #[trigger] call_ensures(K::positive, (&k, x), p)
                ==> p == (n > 0 && temporal),
        forall|m: u8, n: u8, x: K::X, y: K::X|
            m <= n && #[trigger] call_ensures(K::chroma, (&k, m), x) && #[trigger] call_ensures(
                K::chroma,
                (&k, n),
                y,
            ) ==> le(x, y),
        forall|m: u8, n: u8, x: K::X, y: K::X|
            m <= n && #[trigger] call_ensures(K::temporal, (&k, m), x) && #[trigger] call_ensures(
                K::temporal,
                (&k, n),
                y,
            ) ==> le(x, y),
        forall|n: u8, x: K::X| #[trigger]
            call_ensures(K::chroma, (&k, n), x) ==> le(none, x) && le(x, most_chroma),
        forall|n: u8, x: K::X| #[trigger]
            call_ensures(K::temporal, (&k, n), x) ==> le(none, x) && le(x, most_temporal),
    ensures
        a <= 3 ==> !da.chroma_on_spec() && !da.weight,
        a >= 4 ==> da.chroma_on_spec() == chroma && da.weight == temporal,
        da.chroma_radius <= db.chroma_radius,
        le(da.chroma_strength, db.chroma_strength),
        le(da.temporal_alpha, db.temporal_alpha),
        le(none, da.chroma_strength) && le(da.chroma_strength, most_chroma),
        le(none, da.temporal_alpha) && le(da.temporal_alpha, most_temporal),
{
    law_denoise_grows_with_gain(a, b);
}

/// The CPU engine: the processor, the packed frame, and the luma history.
pub struct Engine<K: Kernels> {
    pub proc: Processor<K>,
    pub yuyv: Vec<u8>,
    pub prev_y: Vec<u8>,
}

impl<K: Kernels> Engine<K> {
    /// The processor is well-formed and the frame buffer has the output size.
    pub open spec fn wf(&self) -> bool {
        &&& self.proc.wf()
        &&& self.yuyv.len() == 2 * (output_size_spec(self.proc.mode).1 * output_size_spec(
            self.proc.mode,
        ).0)
    }
}

/// `new` is `old` after one frame: the pipeline's image, its centre packed, the
/// chroma denoised, then the luma. Where temporal denoising is off the history is
/// dropped, so that it starts afresh when it comes back.
pub open spec fn is_frame<K: Kernels, X, P: Fn(u16, u16) -> u8, T: Fn(u8, u8) -> u8>(
    chroma: P,
    luma: T,
    dn: DenoiseSpec<X>,
    old: Engine<K>,
    new: Engine<K>,
) -> bool {
    let (w, h) = output_size_spec(old.proc.mode);
    exists|packed: Seq<u8>, smoothed: Seq<u8>|
        {
            &&& #[trigger] is_yuyv_crop(
                new.proc.out@,
                out_dims(old.proc.mode).0,
                out_dims(old.proc.mode).1,
                w,
                h,
                packed,
            )
            &&& #[trigger] is_chroma_denoised(
                chroma,
                w,
                h,
                dn.chroma_radius as int,
                dn.strong,
                packed,
                smoothed,
            )
            &&& if dn.weight {
                is_luma_denoised(luma, true, smoothed, old.prev_y@, new.yuyv@, new.prev_y@)
            } else {
                new.yuyv@ == smoothed && new.prev_y@ == Seq::<u8>::empty()
            }
        }
}

impl<K: Kernels> Engine<K> {
    /// An engine for a debayer mode.
    pub fn new(mode: DebayerMode, lca: bool) -> (e: Self)
        ensures
            e.wf(),
            e.proc.mode == mode,
            e.proc.interval == AWB_INTERVAL,
            e.proc.lca == (lca && mode == DebayerMode::Mhc),
            e.proc.look is None,
            e.prev_y.len() == 0,
    {
        let n: usize = match mode {
            DebayerMode::Mhc => 1920 * 1080 * 2,
            DebayerMode::HalfRes => 960 * 540 * 2,
        };
        Engine { proc: Processor::new(mode, AWB_INTERVAL, lca), yuyv: vec![0; n], prev_y: Vec::new() }
    }

    /// Run the ISP on one raw frame and apply gain-adaptive denoise, returning the
    /// produced (post-denoise) YUYV. A frame that is too short is refused and
    /// changes nothing.
    pub fn process<X: Copy, P: Fn(u16, u16) -> u8, T: Fn(u8, u8) -> u8 + Sync>(
        &mut self,
        bytes: &[u8],
        dn: DenoiseSpec<X>,
        cal: &Calibration<K::T>,
        k: &K,
        chroma: &P,
        luma: &T,
    ) -> (frame: Result<&[u8], RawTooSmall>)
        requires
            old(self).wf(),
            cal.wf(),
            forall|a: u16, b: u16| #[trigger] call_requires(*chroma, (a, b)),
            forall|a: u8, b: u8| #[trigger] call_requires(*luma, (a, b)),
        ensures
            final(self).wf(),
            match frame {
                Ok(yuyv) => {
                    &&& bytes.len() >= RAW_BYTES
                    &&& yuyv@ == final(self).yuyv@
                    &&& is_step(*k, *cal, bytes@, old(self).proc, final(self).proc)
                    &&& is_frame(*chroma, *luma, dn, *old(self), *final(self))
                },
                Err(err) => {
                    &&& bytes.len() < RAW_BYTES
                    &&& err.got == bytes.len()
                    &&& *final(self) == *old(self)
                },
            },
    {
        if bytes.len() < RAW_BYTES {
            return Err(RawTooSmall { got: bytes.len() });
        }
        let (dst_w, dst_h): (usize, usize) = output_size(self.proc.mode);
        match self.proc.process(bytes, cal, k) {
            Err(err) => {
                return Err(err);
            },
            Ok((w, h, rgb)) => {
                proof {
                    lemma_crop_end(w as int, h as int, dst_w as int, dst_h as int);
                }
                rgb_to_yuyv_crop(rgb, w, h, &mut self.yuyv, dst_w, dst_h);
            },
        }
        let ghost packed = self.yuyv@;
        denoise_chroma_yuyv(&mut self.yuyv, dst_w, dst_h, dn.chroma_radius, dn.strong, chroma);
        let ghost smoothed = self.yuyv@;
        if dn.weight {
            temporal_denoise_luma_yuyv(
                &mut self.yuyv,
                &mut self.prev_y,
                dst_w,
                dst_h,
                true,
                luma,
            );
        } else {
            self.prev_y = Vec::new();
        }
        Ok(self.yuyv.as_slice())
    }
}

/// Four gain steps, which double the gain, widen the chroma blur by one, up to three; each
/// width has its strength and its temporal weight, and nothing is done below it.
pub proof fn law_denoise_goes_by_the_doubled_gain(gain_index: u8)
    ensures
        gain_index < 12 ==> tier((gain_index + 4) as u8) == tier(gain_index) + 1,
        gain_index < 12 && gain_index % 4 != 3 ==> tier((gain_index + 1) as u8) == tier(gain_index),
        gain_index < 4 ==> tier(gain_index) == 0,
        gain_index >= 12 ==> tier(gain_index) == 3,
        2 * chroma_strength(1) == 100,
        chroma_strength(2) == chroma_strength(1) + 20,
        chroma_strength(3) == chroma_strength(2) + 15,
        temporal_weight(1) == 40,
        temporal_weight(2) == temporal_weight(1) + 15,
        temporal_weight(3) == temporal_weight(2) + 15,
        chroma_strength(0) == 0 && temporal_weight(0) == 0,
{
}

/// The frame shows the centre of the rendered image. The margin is four pixels around the
/// full-resolution image and two around the half-resolution one. Where nothing is blended
/// over time, the luma of a pixel is BT.601 luma of its rendered pixel, also where the
/// chroma is denoised; where that is not, either, the chroma of a pair is the mean of its
/// two rendered pixels' chroma.
pub proof fn law_frame_shows_the_centre<K: Kernels, X, P: Fn(u16, u16) -> u8, T: Fn(u8, u8) -> u8>(
    chroma: P,
    luma: T,
    dn: DenoiseSpec<X>,
    old: Engine<K>,
    new: Engine<K>,
    w: int,
    h: int,
    margin: int,
    y: int,
    x: int,
)
    requires
        is_frame(chroma, luma, dn, old, new),
        old.proc.mode == DebayerMode::Mhc ==> w == 1920 && h == 1080 && margin == 4,
        old.proc.mode == DebayerMode::HalfRes ==> w == 960 && h == 540 && margin == 2,
        !dn.weight || old.prev_y.len() == 0,
        0 <= y < h,
        0 <= x < w,
    ensures
        new.yuyv.len() == 2 * (h * w),
        ({
            let rgb = new.proc.out@;
            let i = 3 * ((margin + y) * (w + 2 * margin) + margin + x);
            let j = 2 * (y * w + x);
            &&& -500 <= 1000 * new.yuyv@[j] - (299 * rgb[i] + 587 * rgb[i + 1] + 114 * rgb[i + 2])
                <= 500
            &&& x % 2 == 0 && (dn.chroma_radius == 0 || !dn.strong) ==> {
                let (r, g, b) = (
                    rgb[i] + rgb[i + 3],
                    rgb[i + 1] + rgb[i + 4],
                    rgb[i + 2] + rgb[i + 5],
                );
                &&& -2_000_600 <= 2_000_000 * new.yuyv@[j + 1] - (256_000_000 - 168_736 * r
                    - 331_264 * g + 500_000 * b) <= 1_000_600
                &&& -2_000_600 <= 2_000_000 * new.yuyv@[j + 3] - (256_000_000 + 500_000 * r
                    - 418_688 * g - 81_312 * b) <= 1_000_600
            }
        }),
        dn.weight ==> new.prev_y.len() == h * w && new.prev_y@[y * w + x] == new.yuyv@[2 * (y * w
            + x)],
        !dn.weight ==> new.prev_y.len() == 0,
{
    let (src_w, src_h) = out_dims(old.proc.mode);
    let (packed, smoothed) = choose|packed: Seq<u8>, smoothed: Seq<u8>|
        {
            &&& #[trigger] is_yuyv_crop(new.proc.out@, src_w, src_h, w, h, packed)
            &&& #[trigger] is_chroma_denoised(
                chroma,
                w,
                h,
                dn.chroma_radius as int,
                dn.strong,
                packed,
                smoothed,
            )
            &&& if dn.weight {
                is_luma_denoised(luma, true, smoothed, old.prev_y@, new.yuyv@, new.prev_y@)
            } else {
                new.yuyv@ == smoothed && new.prev_y@ == Seq::<u8>::empty()
            }
        };
    let n = y * w + x;
    lemma_cell(h, w, y, x);
    law_output_is_bt601_of_the_centre(
        new.proc.out@,
        src_w,
        src_h,
        w,
        h,
        packed,
        margin,
        margin,
        y,
        x,
    );
    assert(new.yuyv@ == smoothed);
    assert(luma_plane(smoothed)[n] == smoothed[2 * n]);
    assert(luma_plane(packed)[n] == packed[2 * n]);
}

/// History survives only unbroken denoising: after a frame without temporal denoising, the
/// next frame with it is not blended, and its luma is what it was rendered as.
pub proof fn law_history_starts_afresh<K: Kernels, X, P: Fn(u16, u16) -> u8, T: Fn(u8, u8) -> u8>(
    chroma: P,
    luma: T,
    first: DenoiseSpec<X>,
    second: DenoiseSpec<X>,
    a: Engine<K>,
    b: Engine<K>,
    c: Engine<K>,
    y: int,
    x: int,
)
    requires
        is_frame(chroma, luma, first, a, b),
        is_frame(chroma, luma, second, b, c),
        !first.weight,
        b.proc.mode == DebayerMode::Mhc,
        0 <= y < 1080,
        0 <= x < 1920,
    ensures
        ({
            let rgb = c.proc.out@;
            let i = 3 * ((4 + y) * 1928 + 4 + x);
            -500 <= 1000 * c.yuyv@[2 * (y * 1920 + x)] - (299 * rgb[i] + 587 * rgb[i + 1] + 114
                * rgb[i + 2]) <= 500
        }),
{
    law_frame_shows_the_centre(chroma, luma, second, b, c, 1920, 1080, 4, y, x);
}

/// A frame is denoised as its settings say. Where the history is of the frame's size and
/// there is a weight, each luma is what the blend makes (`mixed`) of the rendered luma and
/// the history at its own pixel; and where there are a radius and a strength, every chroma
/// byte is one that the chroma blend gave, which is `mark` for one that gives that alone.
pub proof fn law_frame_is_denoised_as_set<K: Kernels, X, P: Fn(u16, u16) -> u8, T: Fn(u8, u8) -> u8>(
    chroma: P,
    luma: T,
    dn: DenoiseSpec<X>,
    old: Engine<K>,
    new: Engine<K>,
    mark: u8,
    mixed: spec_fn(u8, u8) -> u8,
    y: int,
    x: int,
) -> (rendered: u8)
    requires
        is_frame(chroma, luma, dn, old, new),
        old.proc.mode == DebayerMode::Mhc,
        dn.weight,
        old.prev_y.len() == 1920 * 1080,
        forall|a: u16, b: u16, v: u8| #[trigger] call_ensures(chroma, (a, b), v) ==> v == mark,
        forall|cur: u8, past: u8, v: u8| #[trigger]
            call_ensures(luma, (cur, past), v) ==> v == mixed(cur, past),
        0 <= y < 1080,
        0 <= x < 1920,
    ensures
        ({
            let rgb = new.proc.out@;
            let i = 3 * ((4 + y) * 1928 + 4 + x);
            let n = y * 1920 + x;
            &&& -500 <= 1000 * rendered - (299 * rgb[i] + 587 * rgb[i + 1] + 114 * rgb[i + 2]) <= 500
            &&& new.yuyv@[2 * n] == mixed(rendered, old.prev_y@[n])
            &&& new.prev_y@[n] == new.yuyv@[2 * n]
            &&& dn.chroma_radius > 0 && dn.strong ==> new.yuyv@[2 * n + 1] == mark
        }),
{
    let (src_w, src_h) = out_dims(old.proc.mode);
    let (packed, smoothed) = choose|packed: Seq<u8>, smoothed: Seq<u8>|
        {
            &&& #[trigger] is_yuyv_crop(new.proc.out@, src_w, src_h, 1920, 1080, packed)
            &&& #[trigger] is_chroma_denoised(
                chroma,
                1920,
                1080,
                dn.chroma_radius as int,
                dn.strong,
                packed,
                smoothed,
            )
            &&& if dn.weight {
                is_luma_denoised(luma, true, smoothed, old.prev_y@, new.yuyv@, new.prev_y@)
            } else {
                new.yuyv@ == smoothed && new.prev_y@ == Seq::<u8>::empty()
            }
        };
    let n = y * 1920 + x;
    lemma_cell(1080, 1920, y, x);
    law_output_is_bt601_of_the_centre(
        new.proc.out@,
        src_w,
        src_h,
        1920,
        1080,
        packed,
        4,
        4,
        y,
        x,
    );
    law_denoising_reaches_every_chroma_sample(
        chroma,
        mark,
        1920,
        1080,
        dn.chroma_radius as int,
        dn.strong,
        packed,
        smoothed,
        2 * n,
    );
    law_denoising_reaches_every_chroma_sample(
        chroma,
        mark,
        1920,
        1080,
        dn.chroma_radius as int,
        dn.strong,
        packed,
        smoothed,
        2 * n + 1,
    );
    law_luma_is_blended_with_its_own_history(
        luma,
        mixed,
        smoothed,
        old.prev_y@,
        new.yuyv@,
        new.prev_y@,
        n,
    );
    packed[2 * n]
}

/// The settings of a frame are those of its gain, each scaled by its own scale: by doublings
/// of the gain, no blur, then a radius of one, two and three, with chroma strengths of 50,
/// 70 and 85 hundredths and temporal weights of 40, 55 and 70. This is of a scaling that
/// multiplies; `amount` reads a setting.
pub proof fn law_settings_are_those_of_the_gain<K: Scaling>(
    k: K,
    gain_index: u8,
    d: DenoiseSpec<K::X>,
    amount: spec_fn(K::X) -> int,
    chroma: int,
    temporal: int,
)
    requires
        is_from_gain(k, gain_index, d),
        forall|n: u8, x: K::X| #[trigger]
            call_ensures(K::chroma, (&k, n), x) ==> amount(x) == chroma * n,
        forall|n: u8, x: K::X| #[trigger]
            call_ensures(K::temporal, (&k, n), x) ==> amount(x) == temporal * n,
        forall|x: K::X, p: bool| #[trigger]
            call_ensures(K::positive, (&k, x), p) ==> p == (amount(x) > 0),
    ensures
        gain_index < 4 ==> d.chroma_radius == 0 && !d.strong && !d.weight,
        4 <= gain_index < 8 ==> d.chroma_radius == 1 && amount(d.chroma_strength) == chroma * 50
            && amount(d.temporal_alpha) == temporal * 40,
        8 <= gain_index < 12 ==> d.chroma_radius == 2 && amount(d.chroma_strength) == chroma * 70
            && amount(d.temporal_alpha) == temporal * 55,
        12 <= gain_index ==> d.chroma_radius == 3 && amount(d.chroma_strength) == chroma * 85
            && amount(d.temporal_alpha) == temporal * 70,
        d.strong == (amount(d.chroma_strength) > 0),
        d.weight == (amount(d.temporal_alpha) > 0),
{
    assert(chroma * 0 == 0 && temporal * 0 == 0) by (nonlinear_arith);
}

} // verus!
