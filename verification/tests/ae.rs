//! Exposure allocation, driven by a damped real-valued correction.

use gc2607_isp::ae::{
    current_product, demand, exposure_max, frame_rate, pick_gain_index, step, vblank_for_fps,
    AeConfig, AeState, Demand, Metering, Ratio, EXPOSURE_MIN, GAIN_TABLE, LINE, MAX_GAIN_INDEX,
    RATIO_MAX, VBLANK_MAX, VBLANK_MIN,
};

const TARGET: f64 = 0.35;
const DEADBAND: f64 = 0.12;
const DAMPING: f64 = 0.7;
const MAX_STEP: f64 = 8.0;
const MIN_FPS: f64 = 15.0;

fn gain(index: u8) -> f64 {
    GAIN_TABLE[index as usize] as f64 / 64.0
}

fn fps(vblank: i32) -> f64 {
    let r = frame_rate(vblank);
    r.num as f64 / r.den as f64
}

/// The damped correction towards the target.
struct Damped;

fn ratio(metric: f64) -> f64 {
    TARGET / metric.max(1e-4)
}

impl Metering for Damped {
    type M = f64;

    fn in_deadband(&self, m: f64) -> bool {
        (1.0 - DEADBAND..=1.0 + DEADBAND).contains(&ratio(m))
    }

    fn too_dark(&self, m: f64) -> bool {
        ratio(m) > 1.0
    }

    fn product(&self, m: f64, current: i64) -> u128 {
        let r = ratio(m).powf(DAMPING).clamp(1.0 / MAX_STEP, MAX_STEP);
        let product = (current as f64 / 64.0 * r).max(EXPOSURE_MIN as f64);
        (product * LINE as f64) as u128
    }
}

fn step_on(cfg: &AeConfig, state: AeState, metric: f64) -> AeState {
    step(cfg, state, demand(&Damped, state, metric))
}

#[test]
fn gain_table_anchors() {
    assert!((GAIN_TABLE[0] as f64 / 64.0 - 1.0).abs() < 1e-9);
    assert!((GAIN_TABLE[4] as f64 / 64.0 - 2.0).abs() < 1e-9);
    assert!((GAIN_TABLE[8] as f64 / 64.0 - 4.0).abs() < 1e-9);
    assert!((GAIN_TABLE[12] as f64 / 64.0 - 8.0).abs() < 1e-9);
    assert!((GAIN_TABLE[16] as f64 / 64.0 - 16.0).abs() < 1e-9);
}

#[test]
fn frame_rate_default_is_30fps() {
    assert!((fps(VBLANK_MIN) - 30.0).abs() < 0.05);
}

#[test]
fn frame_rate_is_exact() {
    let r = frame_rate(VBLANK_MIN);
    assert_eq!(r.num, 102_937_500);
    assert_eq!(r.den, 2745 * 1250);
    assert_eq!(r.num, 30 * r.den);
}

#[test]
fn pick_gain_nearest() {
    assert_eq!(pick_gain_index(Ratio { num: 1, den: 1 }), 0);
    assert_eq!(pick_gain_index(Ratio { num: 4, den: 1 }), 8);
    assert_eq!(pick_gain_index(Ratio { num: 100, den: 1 }), 16); // clamps to the top entry
    assert_eq!(pick_gain_index(Ratio { num: 1, den: 10 }), 0); // clamps to unity
}

#[test]
fn pick_gain_breaks_ties_downward() {
    // Halfway between 64/64 and 75/64.
    assert_eq!(pick_gain_index(Ratio { num: 139, den: 128 }), 0);
    assert_eq!(pick_gain_index(Ratio { num: 140, den: 128 }), 1);
}

#[test]
fn converged_metric_holds_state() {
    let cfg = AeConfig::default();
    let st = AeState { exposure: 600, gain_index: 0, vblank: VBLANK_MIN };
    // metric == target -> ratio 1.0, inside deadband.
    assert_eq!(step_on(&cfg, st, TARGET), st);
}

#[test]
fn too_dark_raises_exposure_before_gain() {
    let cfg = AeConfig::default();
    let st = AeState { exposure: 100, gain_index: 0, vblank: VBLANK_MIN };
    // Half the target brightness -> needs more light, still fits at 30 fps.
    let next = step_on(&cfg, st, TARGET / 2.0);
    assert!(next.exposure > st.exposure);
    assert_eq!(next.gain_index, 0);
    assert_eq!(next.vblank, VBLANK_MIN);
}

#[test]
fn very_dark_extends_frame_then_uses_gain() {
    let cfg = AeConfig::default();
    // Start already near the 30 fps exposure cap.
    let st = AeState { exposure: exposure_max(VBLANK_MIN), gain_index: 0, vblank: VBLANK_MIN };
    // Very dark: needs far more light than one 30 fps frame can give.
    let next = step_on(&cfg, st, 0.01);
    assert!(next.vblank > VBLANK_MIN, "frame should be extended");
    assert!(fps(next.vblank) >= MIN_FPS - 0.01);
}

#[test]
fn too_bright_reduces_light() {
    let cfg = AeConfig::default();
    let st = AeState { exposure: 1200, gain_index: 8, vblank: VBLANK_MIN };
    // Way over target -> product must shrink.
    let before = st.exposure as f64 * gain(st.gain_index);
    let next = step_on(&cfg, st, TARGET * 4.0);
    let after = next.exposure as f64 * gain(next.gain_index);
    assert!(after < before);
}

#[test]
fn converges_with_nonlinear_metric() {
    // A non-linear response, metric = (k * product)^(1/2.4): the loop must
    // converge on any monotonic metric.
    let cfg = AeConfig::default();
    let mut st = AeState::default();
    let k = 3.0e-4f64; // scene gain; converged product well within 30 fps range
    for _ in 0..120 {
        let product = st.exposure as f64 * gain(st.gain_index);
        let metric = (k * product).powf(1.0 / 2.4).min(1.0);
        st = step_on(&cfg, st, metric);
    }
    let product = st.exposure as f64 * gain(st.gain_index);
    let metric = (k * product).powf(1.0 / 2.4);
    assert!(
        (metric - TARGET).abs() < TARGET * DEADBAND * 1.5,
        "non-linear metric {metric} should converge near target {}",
        TARGET
    );
}

#[test]
fn converges_in_a_few_frames() {
    let cfg = AeConfig::default();
    let mut st = AeState::default();
    // A scene where true brightness == k * exposure product, with the converged
    // product well within reach.
    let k = TARGET / 4000.0;
    for _ in 0..40 {
        let product = st.exposure as f64 * gain(st.gain_index);
        let metric = (k * product).min(1.0);
        st = step_on(&cfg, st, metric);
    }
    let product = st.exposure as f64 * gain(st.gain_index);
    let metric = k * product;
    assert!(
        (metric - TARGET).abs() < TARGET * DEADBAND * 1.5,
        "metric {metric} should be near target {}",
        TARGET
    );
}

#[test]
fn default_state_is_half_a_frame_at_unity() {
    let s = AeState::default();
    assert_eq!(s, AeState { exposure: 625, gain_index: 0, vblank: 162 });
    assert_eq!(current_product(s), 625 * 64);
}

#[test]
fn blanking_follows_the_frame_rate_floor() {
    assert_eq!(vblank_for_fps(Ratio { num: 15, den: 1 }), 1412);
    assert_eq!(vblank_for_fps(Ratio { num: 30, den: 1 }), VBLANK_MIN);
    assert_eq!(vblank_for_fps(Ratio { num: 60, den: 1 }), VBLANK_MIN);
    assert_eq!(vblank_for_fps(Ratio { num: 1, den: 1 }), VBLANK_MAX);
    assert_eq!(vblank_for_fps(Ratio { num: 0, den: 1 }), VBLANK_MAX);
    // 12.5 fps: 3000 lines.
    assert_eq!(vblank_for_fps(Ratio { num: 25, den: 2 }), 3000 - 1088);
    // The longest frame that still reaches 13 fps has 2884 lines.
    let vb = vblank_for_fps(Ratio { num: 13, den: 1 });
    assert!(fps(vb) >= 13.0);
    assert!(fps(vb + 1) < 13.0);
}

fn lines(n: u128) -> Demand {
    Demand { product: n * LINE, brighten: true }
}

#[test]
fn allocation_goes_exposure_then_frame_then_gain() {
    let cfg = AeConfig::default();
    let st = AeState { exposure: 4, gain_index: 3, vblank: VBLANK_MIN };
    assert_eq!(exposure_max(VBLANK_MIN), 1246);
    assert_eq!(
        step(&cfg, st, Some(lines(1246))),
        AeState { exposure: 1246, gain_index: 0, vblank: VBLANK_MIN }
    );
    assert_eq!(
        step(&cfg, st, Some(lines(1247))),
        AeState { exposure: 1247, gain_index: 0, vblank: 163 }
    );
    assert_eq!(
        step(&cfg, st, Some(lines(2496))),
        AeState { exposure: 2496, gain_index: 0, vblank: 1412 }
    );
    assert_eq!(
        step(&cfg, st, Some(lines(2496 * 4))),
        AeState { exposure: 2496, gain_index: 8, vblank: 1412 }
    );
    assert_eq!(
        step(&cfg, st, Some(Demand { product: RATIO_MAX, brighten: true })).gain_index,
        MAX_GAIN_INDEX
    );
    let capped = AeConfig { max_gain_index: 6, ..cfg };
    assert_eq!(step(&capped, st, Some(lines(2496 * 16))).gain_index, 6);
}

#[test]
fn gain_never_leaves_the_table() {
    let cfg = AeConfig { max_gain_index: 17, ..AeConfig::default() };
    assert_eq!(cfg.ceiling(), MAX_GAIN_INDEX);
    let full = AeState { exposure: 2496, gain_index: 16, vblank: 1412 };
    let next = step_on(&cfg, full, 0.01);
    assert_eq!(next, full);
    // The result can be fed back.
    assert!(demand(&Damped, next, 0.01).is_some());
}

#[test]
fn dark_steps_extend_the_frame_before_they_use_gain() {
    let cfg = AeConfig::default();
    for exposure in [4, 9, 100, 1245, 1246, 1247, 2000, 2495, 2496] {
        for gain_index in [0, 3, 16] {
            let vblank = (exposure + 4 - 1088).max(VBLANK_MIN);
            let next = step_on(&cfg, AeState { exposure, gain_index, vblank }, 0.3);
            if next.gain_index > 0 {
                assert_eq!((next.exposure, next.vblank), (2496, 1412));
            }
            if next.vblank > VBLANK_MIN {
                assert_eq!(next.exposure, exposure_max(next.vblank));
            }
        }
    }
}

#[test]
fn products_round_half_up_and_never_below_the_minimum() {
    let cfg = AeConfig::default();
    let st = AeState::default();
    let half = Demand { product: 100 * LINE + LINE / 2, brighten: false };
    assert_eq!(step(&cfg, st, Some(half)).exposure, 101);
    let less = Demand { product: 100 * LINE + LINE / 2 - 1, brighten: false };
    assert_eq!(step(&cfg, st, Some(less)).exposure, 100);
    let none = Demand { product: 0, brighten: false };
    assert_eq!(step(&cfg, st, Some(none)).exposure, EXPOSURE_MIN);
}

#[test]
fn loop_is_nudged_when_rounding_changes_nothing() {
    let cfg = AeConfig::default();
    let st = AeState { exposure: 5, gain_index: 0, vblank: VBLANK_MIN };
    let up = Demand { product: 5 * LINE + 1, brighten: true };
    assert_eq!(step(&cfg, st, Some(up)).exposure, 6);
    let down = Demand { product: 5 * LINE, brighten: false };
    assert_eq!(step(&cfg, st, Some(down)).exposure, 4);
    // Nothing left to give: the state stays.
    let dark = AeState { exposure: EXPOSURE_MIN, gain_index: 0, vblank: VBLANK_MIN };
    assert_eq!(step(&cfg, dark, Some(Demand { product: 0, brighten: false })), dark);
    let bright = AeState { exposure: 2496, gain_index: 16, vblank: 1412 };
    assert_eq!(step(&cfg, bright, Some(lines(2496 * 16))), bright);
    // At the exposure cap the nudge raises gain.
    let cap = AeState { exposure: 2496, gain_index: 0, vblank: 1412 };
    assert_eq!(step(&cfg, cap, Some(lines(2496))).gain_index, 1);
}

#[test]
fn more_demand_gives_no_less_light() {
    let cfg = AeConfig::default();
    let far = AeState { exposure: -1, gain_index: 0, vblank: 0 };
    let mut last = 0;
    for n in 1u128..5000 {
        let p = current_product(step(&cfg, far, Some(lines(n * 9))));
        assert!(p >= last);
        last = p;
    }
}

#[test]
fn demands_follow_the_metric() {
    let st = AeState { exposure: 100, gain_index: 4, vblank: VBLANK_MIN };
    assert_eq!(demand(&Damped, st, TARGET), None);
    let d = demand(&Damped, st, TARGET * 4.0).unwrap();
    assert!(!d.brighten);
    let want = 200.0 * 0.25f64.powf(DAMPING);
    assert!((d.product as f64 / LINE as f64 - want).abs() < 1e-6);
    assert!(demand(&Damped, st, TARGET / 4.0).unwrap().brighten);
}

/// A correction without bound.
struct Wild;

impl Metering for Wild {
    type M = u8;

    fn in_deadband(&self, m: u8) -> bool {
        m == 0
    }

    fn too_dark(&self, m: u8) -> bool {
        m > 1
    }

    fn product(&self, _: u8, _: i64) -> u128 {
        u128::MAX
    }
}

#[test]
fn demands_are_cut_beyond_every_state() {
    let st = AeState::default();
    assert_eq!(demand(&Wild, st, 0), None);
    assert_eq!(demand(&Wild, st, 1), Some(Demand { product: RATIO_MAX, brighten: false }));
    assert_eq!(demand(&Wild, st, 2), Some(Demand { product: RATIO_MAX, brighten: true }));
}

/// A metering that halves the gap to a goal, in lines at unity gain.
struct Halving {
    goal: u128,
}

impl Metering for Halving {
    type M = i64;

    fn in_deadband(&self, light64: i64) -> bool {
        (light64 as u128 * LINE / 64).abs_diff(self.goal) * 2 <= LINE
    }

    fn too_dark(&self, light64: i64) -> bool {
        (light64 as u128 * LINE / 64) < self.goal
    }

    fn product(&self, _: i64, current: i64) -> u128 {
        (current as u128 * LINE / 64 + self.goal) / 2
    }
}

#[test]
fn halving_the_gap_converges_geometrically() {
    let cfg = AeConfig::default();
    for goal in [4 * LINE, 20 * LINE + LINE / 3, 1000 * LINE, 1246 * LINE] {
        let k = Halving { goal };
        let mut st = AeState { exposure: 300, gain_index: 0, vblank: VBLANK_MIN };
        let gap = |s: AeState| (s.exposure as u128 * LINE).abs_diff(goal);
        let mut frames = 0;
        while let Some(d) = demand(&k, st, current_product(st)) {
            let next = step(&cfg, st, Some(d));
            assert!(gap(next) < gap(st));
            assert!(2 * gap(next) <= gap(st) + LINE);
            assert_eq!(next.gain_index, 0);
            st = next;
            frames += 1;
        }
        assert!(2 * gap(st) <= LINE);
        assert!(frames <= 12, "{frames} frames");
    }
}

#[test]
fn gains_land_within_a_tenth_of_the_product() {
    let cfg = AeConfig::default();
    for n in (2497..=2496 * 16).step_by(97) {
        let s = step(&cfg, AeState::default(), Some(lines(n)));
        let light = current_product(s) as u128;
        assert!(10 * light.abs_diff(64 * n) <= 64 * n, "{n}");
    }
}
