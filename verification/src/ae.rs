//! Auto-exposure allocation for the GC2607.
//!
//! The policy is exposure-priority: to add light, lengthen the integration time
//! first (extending the frame through vertical blanking down to a configurable
//! minimum frame rate) and only then raise analogue gain, which adds noise. To
//! remove light the same allocation runs in reverse, draining gain before
//! exposure. The control loop is closed (metric measured from the previous
//! frame), so a damped step converges in a few frames without oscillation.
//!
//! The metric and its damped correction are real-valued: that arithmetic is
//! [`Metering`]. What it asks for reaches [`step`] as an exact fixed-point product of
//! integration time and gain.

pub mod converge;

use vstd::prelude::*;

verus! {

/// Entries of the gain table.
pub const GAIN_STEPS: usize = 17;

/// Analogue gain multipliers per LUT index (0..=16), in 64ths.
///
/// The sensor exposes its analogue gain as a look-up table index, not a register
/// value. The multipliers are the combined digital gain register values. It is a
/// geometric progression that doubles every four steps (1, 2, 4, 8, 16).
pub const GAIN_TABLE: [u64; GAIN_STEPS] = [
    64,
    75,
    89,
    106,
    128,
    151,
    179,
    212,
    256,
    303,
    358,
    424,
    512,
    606,
    716,
    848,
    1024,
];

/// Denominator of the gain table.
pub const GAIN_UNIT: u64 = 64;

/// Highest valid analogue-gain LUT index.
pub const MAX_GAIN_INDEX: u8 = 16;

/// Active line count used for the frame-length (VTS) computation.
pub const NATIVE_HEIGHT: i32 = 1088;

/// Horizontal total size (line length in pixel-clock units): width + hblank.
pub const HTS: i32 = 2745;

/// Sensor pixel rate (Hz), from the subdev's read-only pixel-rate control.
pub const PIXEL_RATE: u64 = 102_937_500;

/// Default frame length (lines): 30 fps.
pub const VTS_DEFAULT: i32 = 1250;

/// Shortest vertical blanking (30 fps).
pub const VBLANK_MIN: i32 = VTS_DEFAULT - NATIVE_HEIGHT;

/// Largest frame length the sensor accepts (14-bit register).
pub const VTS_MAX: i32 = 0x3fff;

/// Largest vertical blanking.
pub const VBLANK_MAX: i32 = VTS_MAX - NATIVE_HEIGHT;

/// Minimum integration time (lines).
pub const EXPOSURE_MIN: i32 = 4;

/// Exposure must stay this many lines below the frame length.
pub const EXPOSURE_MARGIN: i32 = 4;

/// A non-negative ratio; the denominator is positive.
#[derive(Debug, Clone, Copy, PartialEq, Eq, Structural)]
pub struct Ratio {
    pub num: u128,
    pub den: u128,
}

/// Largest numerator or denominator of a ratio, and largest product.
pub const RATIO_MAX: u128 = 0x10_0000_0000_0000_0000_0000_0000;

impl Ratio {
    /// A positive denominator, and room for the products formed here.
    pub open spec fn wf(&self) -> bool {
        &&& self.num <= RATIO_MAX
        &&& 0 < self.den <= RATIO_MAX
    }
}

/// A rate as an exact quotient.
#[derive(Debug, Clone, Copy, PartialEq, Eq, Structural)]
pub struct Rate {
    pub num: i64,
    pub den: i64,
}

/// Frame rate (fps) for a given vertical blanking: the pixel rate over the pixels
/// of a frame.
pub fn frame_rate(vblank: i32) -> (fps: Rate)
    ensures
        fps.num == PIXEL_RATE,
        fps.den == HTS * (NATIVE_HEIGHT + vblank),
{
    Rate { num: PIXEL_RATE as i64, den: HTS as i64 * (NATIVE_HEIGHT as i64 + vblank as i64) }
}

/// Maximum integration time (lines) at a given vertical blanking.
pub open spec fn exposure_max_spec(vblank: int) -> int {
    NATIVE_HEIGHT + vblank - EXPOSURE_MARGIN
}

/// Maximum integration time (lines) at a given vertical blanking.
pub fn exposure_max(vblank: i32) -> (lines: i32)
    requires
        vblank <= i32::MAX - NATIVE_HEIGHT,
    ensures
        lines == exposure_max_spec(vblank as int),
{
    NATIVE_HEIGHT + vblank - EXPOSURE_MARGIN
}

/// `v` moved into `lo..=hi`.
pub open spec fn clamped(v: int, lo: int, hi: int) -> int {
    if v < lo {
        lo
    } else if v > hi {
        hi
    } else {
        v
    }
}

/// Lines in the longest frame that still reaches a frame rate.
pub open spec fn vts_for(fps: Ratio) -> int {
    (PIXEL_RATE * fps.den) / (HTS * fps.num)
}

/// The blanking that goes with a frame rate floor.
pub open spec fn vblank_for_fps_spec(fps: Ratio) -> int {
    if fps.num == 0 {
        VBLANK_MAX as int
    } else {
        clamped(vts_for(fps) - NATIVE_HEIGHT, VBLANK_MIN as int, VBLANK_MAX as int)
    }
}

/// The vertical blanking with the lowest frame rate still at or above `fps`,
/// clamped to the sensor's range.
pub fn vblank_for_fps(fps: Ratio) -> (vblank: i32)
    requires
        fps.wf(),
    ensures
        vblank == vblank_for_fps_spec(fps),
        VBLANK_MIN <= vblank <= VBLANK_MAX,
{
    if fps.num == 0 {
        return VBLANK_MAX;
    }
    let rate: u128 = PIXEL_RATE as u128;
    let line: u128 = HTS as u128;
    proof {
        assert(rate * fps.den <= u128::MAX && line * fps.num <= u128::MAX && line * fps.num > 0)
            by (nonlinear_arith)
            requires
                rate == 102_937_500,
                line == 2745,
                fps.den <= 0x10_0000_0000_0000_0000_0000_0000,
                0 < fps.num <= 0x10_0000_0000_0000_0000_0000_0000,
        ;
    }
    let vts: u128 = (rate * fps.den) / (line * fps.num);
    if vts < VTS_DEFAULT as u128 {
        VBLANK_MIN
    } else if vts > VTS_MAX as u128 {
        VBLANK_MAX
    } else {
        vts as i32 - NATIVE_HEIGHT
    }
}

/// The frame rate at a blanking is at least `fps`.
pub open spec fn reaches(vblank: int, fps: Ratio) -> bool {
    PIXEL_RATE * fps.den >= fps.num * (HTS * (NATIVE_HEIGHT + vblank))
}

/// A blanking chosen for a frame rate floor is the longest one in the sensor's
/// range that reaches the floor; only a floor above what the shortest frame
/// gives is missed, and then the shortest blanking is chosen.
pub proof fn law_frame_rate_floor(fps: Ratio, vblank: int)
    requires
        fps.wf(),
        VBLANK_MIN <= vblank <= VBLANK_MAX,
    ensures
        reaches(vblank, fps) ==> vblank <= vblank_for_fps_spec(fps),
        reaches(vblank_for_fps_spec(fps), fps) || vblank_for_fps_spec(fps) == VBLANK_MIN,
{
    if fps.num == 0 {
        assert(0 * (HTS * (NATIVE_HEIGHT + vblank)) == 0) by (nonlinear_arith);
        assert(0 * (HTS * (NATIVE_HEIGHT + VBLANK_MAX)) == 0) by (nonlinear_arith);
    } else {
        lemma_reaches(vblank, fps);
        lemma_reaches(vblank_for_fps_spec(fps), fps);
    }
}

/// A frame reaches a rate exactly when it is no longer than the longest frame
/// that does.
proof fn lemma_reaches(vblank: int, fps: Ratio)
    requires
        fps.num > 0,
        fps.den > 0,
    ensures
        reaches(vblank, fps) <==> NATIVE_HEIGHT + vblank <= vts_for(fps),
{
    let clock = PIXEL_RATE * fps.den;
    let line = HTS * fps.num;
    let (vts, lines) = (vts_for(fps), NATIVE_HEIGHT + vblank);
    vstd::arithmetic::div_mod::lemma_fundamental_div_mod(clock, line);
    vstd::arithmetic::div_mod::lemma_mod_bound(clock, line);
    assert(fps.num * (HTS * lines) == line * lines) by (nonlinear_arith)
        requires
            line == HTS * fps.num,
    ;
    if lines <= vts {
        assert(line * lines <= line * vts) by (nonlinear_arith)
            requires
                lines <= vts,
                line > 0,
        ;
    } else {
        assert(line * lines >= line * vts + line) by (nonlinear_arith)
            requires
                lines >= vts + 1,
                line > 0,
        ;
    }
}

/// Distance of gain table entry `i` from a multiplier, times the multiplier's
/// denominator, in 64ths.
pub open spec fn gain_error(i: int, mult: Ratio) -> int {
    let d = GAIN_UNIT * mult.num - GAIN_TABLE[i] * mult.den;
    if d < 0 {
        -d
    } else {
        d
    }
}

/// `i` is the first gain table entry closest to a multiplier.
pub open spec fn is_nearest_gain(i: int, mult: Ratio) -> bool {
    &&& 0 <= i < GAIN_STEPS
    &&& forall|k: int| 0 <= k < GAIN_STEPS ==> gain_error(i, mult) <= #[trigger] gain_error(k, mult)
    &&& forall|k: int| 0 <= k < i ==> gain_error(i, mult) < #[trigger] gain_error(k, mult)
}

/// Distance of a gain table entry from a multiplier.
fn gain_distance(i: usize, mult: Ratio) -> (d: u128)
    requires
        i < GAIN_STEPS,
        mult.wf(),
    ensures
        d == gain_error(i as int, mult),
{
    let table: [u64; GAIN_STEPS] = GAIN_TABLE;
    proof {
        lemma_gain_bounds(i as int);
        assert(GAIN_TABLE[i as int] * mult.den <= 1024 * mult.den) by (nonlinear_arith)
            requires
                GAIN_TABLE[i as int] <= 1024,
                0 <= mult.den,
        ;
    }
    let want: u128 = 64 * mult.num;
    let have: u128 = table[i] as u128 * mult.den;
    if want < have {
        have - want
    } else {
        want - have
    }
}

/// The gain table starts at unity, rises with the index and ends at sixteen.
pub proof fn lemma_gain_bounds(i: int)
    requires
        0 <= i < GAIN_STEPS,
    ensures
        64 <= GAIN_TABLE[i] <= 1024,
        GAIN_TABLE[0] == 64,
        GAIN_TABLE[16] == 1024,
        i < 16 ==> GAIN_TABLE[i] < GAIN_TABLE[i + 1],
{
}

/// Index of the gain table entry whose multiplier is closest to `mult`; the lower
/// one when two are equally close.
pub fn pick_gain_index(mult: Ratio) -> (index: u8)
    requires
        mult.wf(),
    ensures
        is_nearest_gain(index as int, mult),
        index <= MAX_GAIN_INDEX,
{
    let mut best: usize = 0;
    let mut best_d: u128 = gain_distance(0, mult);
    let mut i: usize = 1;
    while i < GAIN_STEPS
        invariant
            mult.wf(),
            best < i <= GAIN_STEPS,
            best_d == gain_error(best as int, mult),
            forall|k: int| 0 <= k < i ==> best_d <= #[trigger] gain_error(k, mult),
            forall|k: int| 0 <= k < best ==> best_d < #[trigger] gain_error(k, mult),
        decreases GAIN_STEPS - i,
    {
        let d: u128 = gain_distance(i, mult);
        if d < best_d {
            best = i;
            best_d = d;
        }
        i += 1;
    }
    best as u8
}

/// Sensor exposure state the AE loop reads and writes.
#[derive(Debug, Clone, Copy, PartialEq, Eq, Structural)]
pub struct AeState {
    /// Integration time in lines.
    pub exposure: i32,
    /// Analogue gain LUT index (0..=16).
    pub gain_index: u8,
    /// Vertical blanking in lines (sets the frame length, hence the frame rate).
    pub vblank: i32,
}

impl Default for AeState {
    /// Half the default frame, unity gain, 30 fps.
    fn default() -> (s: Self)
        ensures
            s == (AeState { exposure: 625, gain_index: 0, vblank: VBLANK_MIN }),
    {
        AeState { exposure: VTS_DEFAULT / 2, gain_index: 0, vblank: VBLANK_MIN }
    }
}

/// AE allocation limits.
#[derive(Debug, Clone, Copy, PartialEq, Eq, Structural)]
pub struct AeConfig {
    /// Frame rate floor: exposure may lengthen (lowering fps) only down to this
    /// rate before gain is used instead.
    pub min_fps: Ratio,
    /// Highest gain index the loop may select (noise ceiling); one past the table
    /// means the whole table.
    pub max_gain_index: u8,
}

impl Default for AeConfig {
    /// 15 fps, the whole gain table.
    fn default() -> (c: Self)
        ensures
            c == (AeConfig { min_fps: (Ratio { num: 15, den: 1 }), max_gain_index: 16 }),
            c.wf(),
    {
        AeConfig { min_fps: Ratio { num: 15, den: 1 }, max_gain_index: 16 }
    }
}

impl AeConfig {
    /// The floor is a ratio.
    pub open spec fn wf(&self) -> bool {
        self.min_fps.wf()
    }

    /// The highest gain index the loop selects: the noise ceiling, within the table.
    pub open spec fn ceiling_spec(&self) -> u8 {
        if self.max_gain_index < MAX_GAIN_INDEX {
            self.max_gain_index
        } else {
            MAX_GAIN_INDEX
        }
    }

    /// The highest gain index the loop selects.
    pub fn ceiling(&self) -> (index: u8)
        ensures
            index == self.ceiling_spec(),
            index <= MAX_GAIN_INDEX,
    {
        if self.max_gain_index < MAX_GAIN_INDEX {
            self.max_gain_index
        } else {
            MAX_GAIN_INDEX
        }
    }
}

/// Fixed-point unit of exposure-gain products: one line at unity gain. A
/// double-precision product of at least one line is an exact multiple of
/// 1/`LINE`.
pub const LINE: u128 = 0x10_0000_0000_0000;

/// What the metric asks for, outside the deadband.
#[derive(Debug, Clone, Copy, PartialEq, Eq, Structural)]
pub struct Demand {
    /// Desired exposure-time * gain product, in 1/`LINE` lines.
    pub product: u128,
    /// The frame is too dark.
    pub brighten: bool,
}

/// The exposure-gain product of a state, in 64ths of a line.
pub open spec fn product64(s: AeState) -> int {
    s.exposure * GAIN_TABLE[s.gain_index as int]
}

/// The exposure-gain product of a state, in 64ths of a line.
pub fn current_product(s: AeState) -> (p: i64)
    requires
        s.gain_index <= MAX_GAIN_INDEX,
    ensures
        p == product64(s),
{
    let table: [u64; GAIN_STEPS] = GAIN_TABLE;
    proof {
        lemma_gain_bounds(s.gain_index as int);
        let g = GAIN_TABLE[s.gain_index as int];
        assert(i64::MIN <= s.exposure * g <= i64::MAX) by (nonlinear_arith)
            requires
                i32::MIN <= s.exposure <= i32::MAX,
                64 <= g <= 1024,
        ;
    }
    s.exposure as i64 * table[s.gain_index as usize] as i64
}

/// The real-valued arithmetic of the control loop.
pub trait Metering {
    /// A brightness metric: mean linear signal as a fraction of full scale.
    type M: Copy;

    /// The metric is close enough to the target.
    fn in_deadband(&self, m: Self::M) -> bool;

    /// The metric is below the target.
    fn too_dark(&self, m: Self::M) -> bool;

    /// The exposure-gain product, in 1/`LINE` lines, that the damped correction
    /// makes of the current one, in 64ths of a line.
    fn product(&self, m: Self::M, current: i64) -> u128;
}

/// `d` is what a metric asks for, measured on a frame captured with `state`:
/// nothing inside the deadband, else the damped product (cut where it is beyond
/// every state) and the direction.
pub open spec fn is_demand<K: Metering>(k: K, state: AeState, m: K::M, d: Option<Demand>) -> bool {
    exists|inside: bool| #[trigger]
        call_ensures(K::in_deadband, (&k, m), inside) && match d {
            None => inside,
            Some(d) => {
                &&& !inside
                &&& call_ensures(K::too_dark, (&k, m), d.brighten)
                &&& exists|p: u128| #[trigger]
                    call_ensures(K::product, (&k, m, product64(state) as i64), p) && d.product == (
                    if p < RATIO_MAX {
                        p
                    } else {
                        RATIO_MAX
                    })
            },
        }
}

/// What a metric asks for, measured on a frame captured with `state`.
pub fn demand<K: Metering>(k: &K, state: AeState, m: K::M) -> (d: Option<Demand>)
    requires
        state.gain_index <= MAX_GAIN_INDEX,
    ensures
        is_demand(*k, state, m, d),
        d is Some ==> d->0.product <= RATIO_MAX,
{
    if k.in_deadband(m) {
        return None;
    }
    let p: u128 = k.product(m, current_product(state));
    let product: u128 = if p < RATIO_MAX {
        p
    } else {
        RATIO_MAX
    };
    Some(Demand { product, brighten: k.too_dark(m) })
}

/// The product a demand settles for: at least the shortest integration.
pub open spec fn wanted(d: Demand) -> int {
    if d.product < EXPOSURE_MIN * LINE {
        EXPOSURE_MIN * LINE
    } else {
        d.product as int
    }
}

/// A product rounded to whole lines, halves up.
pub open spec fn rounded(product: int) -> int {
    (product + LINE as int / 2) / (LINE as int)
}

/// The gain that makes up what exposure `e` leaves of a product.
pub open spec fn makes_up(gain: u8, product: int, e: int, ceiling: u8) -> bool {
    exists|i: int| #[trigger]
        is_nearest_gain(i, Ratio { num: product as u128, den: (e * LINE) as u128 }) && gain == (if i
            < ceiling {
            i
        } else {
            ceiling as int
        })
}

/// The allocation of a product: within 30 fps at unity gain if it fits; else the
/// frame is extended at unity gain, down to the frame rate floor; else exposure
/// stands at the floor's cap and gain makes up the rest.
pub open spec fn is_allocation(cfg: AeConfig, product: int, s: AeState) -> bool {
    let floor = vblank_for_fps_spec(cfg.min_fps);
    if product <= exposure_max_spec(VBLANK_MIN as int) * LINE {
        &&& s.exposure == rounded(product)
        &&& s.vblank == VBLANK_MIN
        &&& s.gain_index == 0
    } else if product <= exposure_max_spec(floor) * LINE {
        &&& s.exposure == rounded(product)
        &&& s.vblank == clamped(
            rounded(product) + EXPOSURE_MARGIN - NATIVE_HEIGHT,
            VBLANK_MIN as int,
            floor,
        )
        &&& s.gain_index == 0
    } else {
        &&& s.exposure == exposure_max_spec(floor)
        &&& s.vblank == floor
        &&& makes_up(s.gain_index, product, exposure_max_spec(floor), cfg.ceiling_spec())
    }
}

/// One line, or one gain step at the end of the exposure range, towards the
/// target.
pub open spec fn nudged(cfg: AeConfig, s: AeState, brighten: bool) -> AeState {
    if brighten {
        if s.exposure < exposure_max_spec(s.vblank as int) {
            AeState { exposure: (s.exposure + 1) as i32, ..s }
        } else if s.gain_index < cfg.ceiling_spec() {
            AeState { gain_index: (s.gain_index + 1) as u8, ..s }
        } else {
            s
        }
    } else if s.exposure > EXPOSURE_MIN {
        AeState { exposure: (s.exposure - 1) as i32, ..s }
    } else if s.gain_index > 0 {
        AeState { gain_index: (s.gain_index - 1) as u8, ..s }
    } else {
        s
    }
}

/// `next` follows `state`: the state itself inside the deadband; else the
/// demand's allocation, nudged when it would change nothing.
pub open spec fn is_step(cfg: AeConfig, state: AeState, demand: Option<Demand>, next: AeState) -> bool {
    match demand {
        None => next == state,
        Some(d) => exists|a: AeState| #[trigger]
            is_allocation(cfg, wanted(d), a) && next == (if a == state {
                nudged(cfg, a, d.brighten)
            } else {
                a
            }),
    }
}

/// A state the sensor accepts, at or above the frame rate floor.
pub open spec fn in_limits(cfg: AeConfig, s: AeState) -> bool {
    &&& VBLANK_MIN <= s.vblank <= vblank_for_fps_spec(cfg.min_fps)
    &&& EXPOSURE_MIN <= s.exposure <= exposure_max_spec(s.vblank as int)
    &&& s.gain_index <= cfg.ceiling_spec()
    &&& s.gain_index <= MAX_GAIN_INDEX
}

/// Allocate a product.
fn allocate(cfg: &AeConfig, product: u128) -> (s: AeState)
    requires
        cfg.wf(),
        EXPOSURE_MIN * LINE <= product <= RATIO_MAX,
    ensures
        is_allocation(*cfg, product as int, s),
        in_limits(*cfg, s),
{
    let floor: i32 = vblank_for_fps(cfg.min_fps);
    let cap_30fps: i32 = exposure_max(VBLANK_MIN);
    let cap_floor: i32 = exposure_max(floor);
    if product <= cap_30fps as u128 * LINE {
        let e: u128 = (product + LINE / 2) / LINE;
        AeState { exposure: e as i32, vblank: VBLANK_MIN, gain_index: 0 }
    } else if product <= cap_floor as u128 * LINE {
        let e: i32 = ((product + LINE / 2) / LINE) as i32;
        let needed: i32 = e + EXPOSURE_MARGIN - NATIVE_HEIGHT;
        let vblank: i32 = if needed < VBLANK_MIN {
            VBLANK_MIN
        } else if needed > floor {
            floor
        } else {
            needed
        };
        AeState { exposure: e, vblank, gain_index: 0 }
    } else {
        let mult = Ratio { num: product, den: cap_floor as u128 * LINE };
        let i: u8 = pick_gain_index(mult);
        let ceiling: u8 = cfg.ceiling();
        let gain_index: u8 = if i < ceiling {
            i
        } else {
            ceiling
        };
        assert(is_nearest_gain(i as int, mult));
        AeState { exposure: cap_floor, vblank: floor, gain_index }
    }
}

/// Compute the next sensor state from the current state and what the metric asks
/// for (nothing while it is within the deadband).
///
/// Outside the deadband, when rounding produced no change, the state is nudged
/// one line (or one gain step at the end of the range) toward the target, so the
/// loop cannot stall just shy of the deadband.
pub fn step(cfg: &AeConfig, state: AeState, demand: Option<Demand>) -> (next: AeState)
    requires
        cfg.wf(),
        demand is Some ==> demand->0.product <= RATIO_MAX,
    ensures
        is_step(*cfg, state, demand, next),
        demand is Some ==> in_limits(*cfg, next),
        state.gain_index <= MAX_GAIN_INDEX ==> next.gain_index <= MAX_GAIN_INDEX,
{
    match demand {
        None => state,
        Some(d) => {
            let least: u128 = EXPOSURE_MIN as u128 * LINE;
            let product: u128 = if d.product < least {
                least
            } else {
                d.product
            };
            let a: AeState = allocate(cfg, product);
            assert(is_allocation(*cfg, wanted(d), a));
            let mut next: AeState = a;
            if a == state {
                if d.brighten {
                    if next.exposure < exposure_max(next.vblank) {
                        next.exposure = next.exposure + 1;
                    } else if next.gain_index < cfg.ceiling() {
                        next.gain_index = next.gain_index + 1;
                    }
                } else if next.exposure > EXPOSURE_MIN {
                    next.exposure = next.exposure - 1;
                } else if next.gain_index > 0 {
                    next.gain_index = next.gain_index - 1;
                }
            }
            next
        },
    }
}

/// Exposure before gain: gain is raised only once exposure stands at the cap of
/// the frame rate floor, and the frame is extended only for a product that 30 fps
/// at unity gain cannot give.
pub proof fn law_exposure_before_gain(cfg: AeConfig, product: int, s: AeState)
    requires
        cfg.wf(),
        is_allocation(cfg, product, s),
    ensures
        s.gain_index > 0 ==> s.vblank == vblank_for_fps_spec(cfg.min_fps) && s.exposure
            == exposure_max_spec(s.vblank as int),
        s.vblank > VBLANK_MIN ==> product > exposure_max_spec(VBLANK_MIN as int) * LINE,
{
}

/// Exposure before gain holds of a whole step. When a frame is too dark and the
/// metered product asks for more light, a state with gain stands at the frame rate
/// floor with exposure at its cap there, and a frame longer than the shortest is
/// no longer than its exposure needs. Asking for more means half a line or more
/// (less does not survive rounding); while exposure is below what 30 fps gives,
/// any demand will do.
pub proof fn law_step_exposes_before_it_gains<K: Metering>(
    k: K,
    cfg: AeConfig,
    state: AeState,
    m: K::M,
    d: Demand,
    next: AeState,
)
    requires
        cfg.wf(),
        state.gain_index <= MAX_GAIN_INDEX,
        is_demand(k, state, m, Some(d)),
        d.brighten,
        is_step(cfg, state, Some(d), next),
        state.exposure < exposure_max_spec(VBLANK_MIN as int) || forall|p: u128| #[trigger]
            call_ensures(K::product, (&k, m, product64(state) as i64), p) ==> 128 * p >= (2
                * product64(state) + 64) * LINE,
    ensures
        next.gain_index > 0 ==> next.vblank == vblank_for_fps_spec(cfg.min_fps) && next.exposure
            == exposure_max_spec(next.vblank as int),
        next.vblank > VBLANK_MIN ==> next.exposure == exposure_max_spec(next.vblank as int),
{
    let a = choose|a: AeState| #[trigger]
        is_allocation(cfg, wanted(d), a) && next == (if a == state {
            nudged(cfg, a, d.brighten)
        } else {
            a
        });
    lemma_gain_bounds(state.gain_index as int);
    let g = GAIN_TABLE[state.gain_index as int];
    assert(-2199023255552 <= state.exposure * g <= 2199023255552) by (nonlinear_arith)
        requires
            i32::MIN <= state.exposure <= i32::MAX,
            64 <= g <= 1024,
    ;
    lemma_unity(state);
}

/// The same, of a metering that asks for at least a thousandth more light than there
/// is: then every dark step exposes before it gains, whatever the state.
pub proof fn law_dark_step_exposes_before_it_gains<K: Metering>(
    k: K,
    cfg: AeConfig,
    state: AeState,
    m: K::M,
    d: Demand,
    next: AeState,
)
    requires
        cfg.wf(),
        state.gain_index <= MAX_GAIN_INDEX,
        is_demand(k, state, m, Some(d)),
        d.brighten,
        is_step(cfg, state, Some(d), next),
        forall|p: u128| #[trigger]
            call_ensures(K::product, (&k, m, product64(state) as i64), p) ==> 64000 * p >= 1001 * (
            product64(state) * LINE),
    ensures
        next.gain_index > 0 ==> next.vblank == vblank_for_fps_spec(cfg.min_fps) && next.exposure
            == exposure_max_spec(next.vblank as int),
        next.vblank > VBLANK_MIN ==> next.exposure == exposure_max_spec(next.vblank as int),
{
    lemma_gain_bounds(state.gain_index as int);
    if state.exposure >= exposure_max_spec(VBLANK_MIN as int) {
        let g = GAIN_TABLE[state.gain_index as int];
        assert(state.exposure * g >= 79744) by (nonlinear_arith)
            requires
                state.exposure >= 1246,
                g >= 64,
        ;
    }
    law_step_exposes_before_it_gains(k, cfg, state, m, d, next);
}

/// At unity gain an allocation misses its product by no more than half a line.
pub proof fn law_unity_gain_is_exact_to_half_a_line(cfg: AeConfig, product: int, s: AeState)
    requires
        cfg.wf(),
        EXPOSURE_MIN * LINE <= product <= exposure_max_spec(vblank_for_fps_spec(cfg.min_fps)) * LINE,
        is_allocation(cfg, product, s),
    ensures
        s.gain_index == 0,
        -(LINE as int) <= 2 * (s.exposure * LINE - product) <= LINE,
{
}

/// More demand never yields less light.
pub proof fn law_more_demand_more_light(cfg: AeConfig, p1: int, p2: int, s1: AeState, s2: AeState)
    requires
        cfg.wf(),
        EXPOSURE_MIN * LINE <= p1 <= p2 <= RATIO_MAX,
        is_allocation(cfg, p1, s1),
        is_allocation(cfg, p2, s2),
    ensures
        product64(s1) <= product64(s2),
{
    let floor = vblank_for_fps_spec(cfg.min_fps);
    let cap = exposure_max_spec(floor);
    lemma_unity(s1);
    lemma_unity(s2);
    assert(rounded(p1) <= rounded(p2));
    if p2 > cap * LINE && p2 > exposure_max_spec(VBLANK_MIN as int) * LINE {
        lemma_gain_of_state(cfg, p2, s2);
        let g2 = GAIN_TABLE[s2.gain_index as int];
        if p1 > cap * LINE && p1 > exposure_max_spec(VBLANK_MIN as int) * LINE {
            lemma_gain_of_state(cfg, p1, s1);
            lemma_makes_up_monotone(p1, p2, cap, cfg.ceiling_spec(), s1.gain_index, s2.gain_index);
            let g1 = GAIN_TABLE[s1.gain_index as int];
            lemma_gain_order(s1.gain_index as int, s2.gain_index as int);
            assert(s1.exposure * g1 <= s2.exposure * g2) by (nonlinear_arith)
                requires
                    s1.exposure == cap,
                    s2.exposure == cap,
                    g1 <= g2,
                    cap >= 0,
            ;
        } else {
            assert(64 * s1.exposure <= s2.exposure * g2) by (nonlinear_arith)
                requires
                    0 <= s1.exposure <= cap,
                    s2.exposure == cap,
                    64 <= g2,
            ;
        }
    }
}

/// At unity gain the product is the exposure.
pub proof fn lemma_unity(s: AeState)
    ensures
        s.gain_index == 0 ==> product64(s) == 64 * s.exposure,
{
    lemma_gain_bounds(0);
    assert(s.exposure * 64 == 64 * s.exposure) by (nonlinear_arith);
}

/// The gain of a state beyond the exposure cap is an entry of the table.
proof fn lemma_gain_of_state(cfg: AeConfig, product: int, s: AeState)
    requires
        cfg.wf(),
        is_allocation(cfg, product, s),
    ensures
        s.gain_index <= MAX_GAIN_INDEX,
        64 <= GAIN_TABLE[s.gain_index as int] <= 1024,
{
    if s.gain_index <= MAX_GAIN_INDEX {
        lemma_gain_bounds(s.gain_index as int);
    }
}

/// The gain table rises with the index.
pub proof fn lemma_gain_order(i: int, j: int)
    requires
        0 <= i <= j < GAIN_STEPS,
    ensures
        GAIN_TABLE[i] <= GAIN_TABLE[j],
        i < j ==> GAIN_TABLE[i] < GAIN_TABLE[j],
    decreases j - i,
{
    if i < j {
        lemma_gain_bounds(j - 1);
        lemma_gain_order(i, j - 1);
    }
}

/// A larger product over the same exposure is made up by no smaller a gain.
proof fn lemma_makes_up_monotone(p1: int, p2: int, e: int, ceiling: u8, g1: u8, g2: u8)
    requires
        0 <= p1 <= p2 <= RATIO_MAX,
        0 < e <= 20000,
        makes_up(g1, p1, e, ceiling),
        makes_up(g2, p2, e, ceiling),
    ensures
        g1 <= g2,
{
    let den = (e * LINE) as u128;
    let m1 = Ratio { num: p1 as u128, den };
    let m2 = Ratio { num: p2 as u128, den };
    let i1 = choose|i: int| #[trigger]
        is_nearest_gain(i, m1) && g1 == (if i < ceiling {
            i
        } else {
            ceiling as int
        });
    let i2 = choose|i: int| #[trigger]
        is_nearest_gain(i, m2) && g2 == (if i < ceiling {
            i
        } else {
            ceiling as int
        });
    if i1 > i2 {
        lemma_gain_order(i2, i1);
        let (a1, a2) = (GAIN_TABLE[i1] * den, GAIN_TABLE[i2] * den);
        assert(a2 < a1) by (nonlinear_arith)
            requires
                GAIN_TABLE[i2] < GAIN_TABLE[i1],
                a1 == GAIN_TABLE[i1] * den,
                a2 == GAIN_TABLE[i2] * den,
                den > 0,
        ;
        assert(gain_error(i1, m1) < gain_error(i2, m1));
        assert(gain_error(i2, m2) <= gain_error(i1, m2));
    }
}

/// The loop cannot stall: outside the deadband the state changes unless nothing
/// is left to give in the wanted direction.
pub proof fn law_loop_never_stalls(cfg: AeConfig, state: AeState, d: Demand, next: AeState)
    requires
        cfg.wf(),
        is_step(cfg, state, Some(d), next),
        next == state,
        in_limits(cfg, state),
    ensures
        d.brighten ==> state.exposure == exposure_max_spec(state.vblank as int) && state.gain_index
            == cfg.ceiling_spec(),
        !d.brighten ==> state.exposure == EXPOSURE_MIN && state.gain_index == 0,
{
}

/// Every state within limits holds the frame rate floor, unless the floor is
/// above what the shortest frame gives.
pub proof fn law_frame_rate_floor_is_kept(cfg: AeConfig, s: AeState)
    requires
        cfg.wf(),
        in_limits(cfg, s),
        reaches(VBLANK_MIN as int, cfg.min_fps),
    ensures
        reaches(s.vblank as int, cfg.min_fps),
{
    let fps = cfg.min_fps;
    law_frame_rate_floor(fps, VBLANK_MIN as int);
    let floor = vblank_for_fps_spec(fps);
    assert(reaches(floor, fps));
    assert(fps.num * (HTS * (NATIVE_HEIGHT + s.vblank)) <= fps.num * (HTS * (NATIVE_HEIGHT + floor)))
        by (nonlinear_arith)
        requires
            s.vblank <= floor,
            fps.num >= 0,
            HTS == 2745,
    ;
}

/// Every step lands within the limits, and the deadband does not leave them.
pub proof fn law_step_keeps_limits(
    cfg: AeConfig,
    state: AeState,
    demand: Option<Demand>,
    next: AeState,
)
    requires
        cfg.wf(),
        is_step(cfg, state, demand, next),
        demand is None ==> in_limits(cfg, state),
    ensures
        in_limits(cfg, next),
{
    if let Some(d) = demand {
        let a = choose|a: AeState| #[trigger]
            is_allocation(cfg, wanted(d), a) && next == (if a == state {
                nudged(cfg, a, d.brighten)
            } else {
                a
            });
        assert(in_limits(cfg, a));
    }
}

/// A product that lies halfway between two lines gets the longer exposure; any other one the
/// nearer.
pub proof fn law_halves_round_up(cfg: AeConfig, product: int, s: AeState)
    requires
        cfg.wf(),
        EXPOSURE_MIN * LINE <= product <= exposure_max_spec(vblank_for_fps_spec(cfg.min_fps)) * LINE,
        is_allocation(cfg, product, s),
    ensures
        -(LINE as int) < 2 * (s.exposure * LINE - product) <= LINE,
        s.vblank > 162 ==> s.exposure == 1088 + s.vblank - 4,
        s.exposure <= 1088 + s.vblank - 4,
{
}

/// Of two gains that are equally near, the lower one is taken; no gain of the table is
/// nearer than the one taken. Distances are in 64ths, times the denominator.
pub proof fn law_nearest_gain_is_taken(i: int, k: int, mult: Ratio)
    requires
        is_nearest_gain(i, mult),
        0 <= k < 17,
    ensures
        ({
            let taken = 64 * mult.num - GAIN_TABLE[i] * mult.den;
            let other = 64 * mult.num - GAIN_TABLE[k] * mult.den;
            let (a, b) = (
                if taken < 0 {
                    -taken
                } else {
                    taken
                },
                if other < 0 {
                    -other
                } else {
                    other
                },
            );
            a <= b && (k < i ==> a < b)
        }),
{
    assert(gain_error(i, mult) <= gain_error(k, mult));
    if k < i {
        assert(gain_error(i, mult) < gain_error(k, mult));
    }
}

/// Light is exposure times gain: it is proportional to either, and at unity gain it is the
/// exposure in 64ths.
pub proof fn law_light_is_exposure_times_gain(a: AeState, b: AeState)
    requires
        a.gain_index <= 16,
        b.gain_index <= 16,
    ensures
        a.gain_index == b.gain_index ==> product64(a) * b.exposure == product64(b) * a.exposure,
        a.exposure == b.exposure ==> product64(a) * GAIN_TABLE[b.gain_index as int] == product64(b)
            * GAIN_TABLE[a.gain_index as int],
        a.gain_index == 0 ==> product64(a) == 64 * a.exposure,
        a.gain_index == 16 ==> product64(a) == 1024 * a.exposure,
{
    let (g, h) = (GAIN_TABLE[a.gain_index as int], GAIN_TABLE[b.gain_index as int]);
    lemma_gain_bounds(0);
    lemma_unity(a);
    if a.gain_index == b.gain_index {
        assert((a.exposure * g) * b.exposure == (b.exposure * g) * a.exposure) by (nonlinear_arith);
    }
    if a.exposure == b.exposure {
        assert((a.exposure * g) * h == (a.exposure * h) * g) by (nonlinear_arith);
    }
    assert(a.exposure * 1024 == 1024 * a.exposure) by (nonlinear_arith);
}

/// What a metric asks for scales the light of the frame it was measured on. With a metering
/// that asks for `num` in `den` of the current light, the demand is that much of the
/// exposure times the gain of the state, in 1/`LINE` lines; it brightens exactly where the
/// metric is too dark, and nothing is asked for in the deadband.
pub proof fn law_demand_scales_the_light<K: Metering>(
    k: K,
    state: AeState,
    m: K::M,
    d: Option<Demand>,
    inside: bool,
    dark: bool,
    num: int,
    den: int,
)
    requires
        state.gain_index <= 16,
        is_demand(k, state, m, d),
        forall|b: bool| #[trigger] call_ensures(K::in_deadband, (&k, m), b) ==> b == inside,
        forall|b: bool| #[trigger] call_ensures(K::too_dark, (&k, m), b) ==> b == dark,
        forall|current: i64, p: u128| #[trigger]
            call_ensures(K::product, (&k, m, current), p) ==> p < RATIO_MAX && den * (64 * p) == num
                * (current * LINE),
    ensures
        d is None <==> inside,
        d matches Some(d) ==> d.brighten == dark && den * (64 * d.product) == num * ((state.exposure
            * GAIN_TABLE[state.gain_index as int]) * LINE),
{
    let g = GAIN_TABLE[state.gain_index as int];
    lemma_gain_bounds(state.gain_index as int);
    assert(i64::MIN <= state.exposure * g <= i64::MAX) by (nonlinear_arith)
        requires
            i32::MIN <= state.exposure <= i32::MAX,
            64 <= g <= 1024,
    ;
}

/// A nudge goes the wanted way, by one line where exposure has room and by one gain step
/// where it has none, and moves nothing else.
pub proof fn law_nudge_goes_the_wanted_way(cfg: AeConfig, s: AeState, brighten: bool)
    requires
        in_limits(cfg, s),
    ensures
        ({
            let t = nudged(cfg, s, brighten);
            &&& t.vblank == s.vblank
            &&& brighten && s.exposure < 1088 + s.vblank - 4 ==> t.exposure == s.exposure + 1
                && t.gain_index == s.gain_index
            &&& brighten && s.exposure == 1088 + s.vblank - 4 ==> t.exposure == s.exposure && (
            t.gain_index == s.gain_index + 1 || (t.gain_index == s.gain_index && (s.gain_index == 16
                || s.gain_index == cfg.max_gain_index)))
            &&& !brighten && s.exposure > 4 ==> t.exposure == s.exposure - 1 && t.gain_index
                == s.gain_index
            &&& !brighten && s.exposure == 4 ==> t.exposure == s.exposure && t.gain_index == (
            if s.gain_index == 0 {
                0
            } else {
                s.gain_index - 1
            })
            &&& t.gain_index <= cfg.max_gain_index
        }),
{
}

/// The least light: a demand for four lines or less at unity gain gets the four lines that
/// are the shortest exposure, in the shortest frame, unless that is the state already.
pub proof fn law_least_light_is_four_lines(cfg: AeConfig, state: AeState, d: Demand, next: AeState)
    requires
        cfg.wf(),
        is_step(cfg, state, Some(d), next),
        d.product <= 4 * LINE,
    ensures
        ({
            let least = AeState { exposure: 4, gain_index: 0, vblank: 162 };
            &&& state != least ==> next == least
            &&& state == least && !d.brighten ==> next == least
            &&& state == least && d.brighten ==> next == (AeState { exposure: 5, ..least })
        }),
{
    let a = choose|a: AeState| #[trigger]
        is_allocation(cfg, wanted(d), a) && next == (if a == state {
            nudged(cfg, a, d.brighten)
        } else {
            a
        });
    assert(wanted(d) == 4 * LINE);
}

/// Inside the deadband nothing moves; outside it, what comes next is decided by the demand,
/// and not by the state that it comes after, but for a state that meets it already.
pub proof fn law_demand_decides_the_next_state(
    cfg: AeConfig,
    a: AeState,
    b: AeState,
    d: Demand,
    next_a: AeState,
    next_b: AeState,
    same: AeState,
)
    requires
        cfg.wf(),
        d.product <= RATIO_MAX,
        is_step(cfg, a, Some(d), next_a),
        is_step(cfg, b, Some(d), next_b),
        is_step(cfg, a, None, same),
        next_a != a,
        next_b != b,
    ensures
        same == a,
        next_a == next_b || next_a == nudged(cfg, a, d.brighten) || next_b == nudged(
            cfg,
            b,
            d.brighten,
        ),
{
    let x = choose|x: AeState| #[trigger]
        is_allocation(cfg, wanted(d), x) && next_a == (if x == a {
            nudged(cfg, x, d.brighten)
        } else {
            x
        });
    let y = choose|y: AeState| #[trigger]
        is_allocation(cfg, wanted(d), y) && next_b == (if y == b {
            nudged(cfg, y, d.brighten)
        } else {
            y
        });
    lemma_allocation_is_unique(cfg, wanted(d), x, y);
}

/// A product has one allocation.
proof fn lemma_allocation_is_unique(cfg: AeConfig, product: int, x: AeState, y: AeState)
    requires
        cfg.wf(),
        EXPOSURE_MIN * LINE <= product <= RATIO_MAX,
        is_allocation(cfg, product, x),
        is_allocation(cfg, product, y),
    ensures
        x == y,
{
    let cap = exposure_max_spec(vblank_for_fps_spec(cfg.min_fps));
    if product > cap * LINE && product > exposure_max_spec(VBLANK_MIN as int) * LINE {
        lemma_makes_up_monotone(
            product,
            product,
            cap,
            cfg.ceiling_spec(),
            x.gain_index,
            y.gain_index,
        );
        lemma_makes_up_monotone(
            product,
            product,
            cap,
            cfg.ceiling_spec(),
            y.gain_index,
            x.gain_index,
        );
    }
}

} // verus!
