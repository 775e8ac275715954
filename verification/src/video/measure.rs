//! Measuring the sensor's exposure and gain apply delay on a static scene.
//!
//! Exposure is calibrated at unity gain for a mid-range image; then exposure, and
//! separately gain, is stepped up, and the means of the following frames show when
//! the step takes effect. The procedure is a machine that is told how the scene
//! answered and says what to set and how long to watch. Means are real-valued and
//! compared by order key (see [`crate::order`]); a mean that is not a finite
//! number has none.

use vstd::prelude::*;

use crate::ae::{exposure_max, exposure_max_spec, AeState, EXPOSURE_MIN, VBLANK_MIN};

verus! {

/// Calibration rounds at most.
pub const CAL_ITERS: u32 = 12;

/// Frames to let a setting settle (about 0.8 s at 30 fps, well past any delay).
pub const SETTLE: u32 = 24;

/// Frames observed after each step.
pub const WINDOW: u32 = 16;

/// Gain index of the gain step (about twice unity).
pub const GAIN_STEP: u8 = 4;

/// What calibration makes of a settled mean.
#[derive(Debug, Clone, Copy, PartialEq, Eq, Structural)]
pub enum Verdict {
    /// The mean is in range.
    Good,
    /// Exposure is to be scaled to this many lines, before limits.
    Rescale(i32),
}

/// What happened.
#[derive(Debug, Clone, Copy, PartialEq, Eq, Structural)]
pub enum Seen {
    /// The setting settled during calibration.
    Calibrated(Verdict),
    /// The setting settled before a step.
    Settled,
    /// The frames after a step were recorded.
    Recorded,
    /// Capture timed out while settling.
    Timeout,
}

/// What to do next.
#[derive(Debug, Clone, Copy, PartialEq, Eq, Structural)]
pub enum Task {
    /// Apply this state and let it settle for `SETTLE` frames.
    Settle(AeState),
    /// Apply `scaled`, then `base`, and let that settle for `SETTLE` frames.
    Rebase { scaled: AeState, base: AeState },
    /// Drop what is pending, apply this state and record `WINDOW` frames.
    Step(AeState),
    /// Both steps were recorded: report.
    Report,
    /// Give up.
    Abort,
}

/// Where the procedure stands.
#[derive(Debug, Clone, Copy, PartialEq, Eq, Structural)]
pub enum Stage {
    /// Calibrating; this many rounds have been judged.
    Calibrate { rounds: u32 },
    /// Settling below the exposure step.
    ExposureBase,
    /// Watching the exposure step.
    ExposureStep,
    /// Settling below the gain step.
    GainBase,
    /// Watching the gain step.
    GainStep,
    /// Finished.
    Over,
}

/// The procedure: the state last applied, the calibrated exposure and the stage.
#[derive(Debug, Clone, Copy, PartialEq, Eq, Structural)]
pub struct Measure {
    pub stage: Stage,
    pub exposure: i32,
}

/// An exposure within the limits of the shortest frame.
pub open spec fn limited(exposure: int) -> int {
    let max = exposure_max_spec(VBLANK_MIN as int);
    if exposure < EXPOSURE_MIN {
        EXPOSURE_MIN as int
    } else if exposure > max {
        max
    } else {
        exposure
    }
}

/// Lines, at least the shortest integration.
pub open spec fn at_least_min(lines: int) -> int {
    if lines < EXPOSURE_MIN {
        EXPOSURE_MIN as int
    } else {
        lines
    }
}

/// A state at the shortest frame.
pub open spec fn setting(exposure: int, gain_index: u8) -> AeState {
    AeState { exposure: exposure as i32, gain_index, vblank: VBLANK_MIN }
}

/// The exposure step starts at a third of the calibrated exposure.
pub open spec fn step_base(e: int) -> int {
    at_least_min(e / 3)
}

/// The gain step runs at half the calibrated exposure.
pub open spec fn gain_base(e: int) -> int {
    at_least_min(e / 2)
}

/// What `m` becomes, and what is done, when `seen` happens.
pub open spec fn measure_spec(m: Measure, seen: Seen) -> (Measure, Task) {
    let e = m.exposure as int;
    let exposure_base = (
        Measure { stage: Stage::ExposureBase, ..m },
        Task::Settle(setting(step_base(e), 0)),
    );
    match seen {
        Seen::Timeout => (Measure { stage: Stage::Over, ..m }, Task::Abort),
        Seen::Calibrated(Verdict::Good) => exposure_base,
        Seen::Calibrated(Verdict::Rescale(lines)) => {
            let scaled = Measure { exposure: limited(lines as int) as i32, ..m };
            if m.stage == (Stage::Calibrate { rounds: (CAL_ITERS - 1) as u32 }) {
                (
                    Measure { stage: Stage::ExposureBase, ..scaled },
                    Task::Rebase {
                        scaled: setting(limited(lines as int), 0),
                        base: setting(step_base(limited(lines as int)), 0),
                    },
                )
            } else {
                (
                    Measure {
                        stage: Stage::Calibrate { rounds: (m.stage->rounds + 1) as u32 },
                        ..scaled
                    },
                    Task::Settle(setting(limited(lines as int), 0)),
                )
            }
        },
        Seen::Settled => if m.stage == Stage::ExposureBase {
            (Measure { stage: Stage::ExposureStep, ..m }, Task::Step(setting(e, 0)))
        } else {
            (Measure { stage: Stage::GainStep, ..m }, Task::Step(setting(gain_base(e), GAIN_STEP)))
        },
        Seen::Recorded => if m.stage == Stage::ExposureStep {
            (Measure { stage: Stage::GainBase, ..m }, Task::Settle(setting(gain_base(e), 0)))
        } else {
            (Measure { stage: Stage::Over, ..m }, Task::Report)
        },
    }
}

impl Measure {
    /// The exposure is within limits and rounds are bounded.
    pub open spec fn wf(&self) -> bool {
        &&& EXPOSURE_MIN <= self.exposure <= exposure_max_spec(VBLANK_MIN as int)
        &&& match self.stage {
            Stage::Calibrate { rounds } => rounds < CAL_ITERS,
            _ => true,
        }
    }

    /// The procedure waits for this.
    pub open spec fn expects(&self, seen: Seen) -> bool {
        match (self.stage, seen) {
            (Stage::Calibrate { .. }, Seen::Calibrated(_)) => true,
            (Stage::ExposureBase, Seen::Settled) => true,
            (Stage::GainBase, Seen::Settled) => true,
            (Stage::ExposureStep, Seen::Recorded) => true,
            (Stage::GainStep, Seen::Recorded) => true,
            (Stage::Calibrate { .. }, Seen::Timeout) => true,
            (Stage::ExposureBase, Seen::Timeout) => true,
            (Stage::GainBase, Seen::Timeout) => true,
            _ => false,
        }
    }

    /// Start from the sensor's current exposure: the shortest frame at unity gain.
    pub fn start(exposure: i32) -> (r: (Measure, Task))
        ensures
            r.0.wf(),
            r.0.stage == (Stage::Calibrate { rounds: 0 }),
            r.0.exposure == limited(exposure as int),
            r.1 == Task::Settle(setting(limited(exposure as int), 0)),
    {
        let e: i32 = limit(exposure);
        (
            Measure { stage: Stage::Calibrate { rounds: 0 }, exposure: e },
            Task::Settle(AeState { exposure: e, gain_index: 0, vblank: VBLANK_MIN }),
        )
    }

    /// Take in what happened and answer what to do next.
    pub fn next(&mut self, seen: Seen) -> (task: Task)
        requires
            old(self).wf(),
            old(self).expects(seen),
        ensures
            final(self).wf(),
            (*final(self), task) == measure_spec(*old(self), seen),
    {
        match seen {
            Seen::Timeout => {
                self.stage = Stage::Over;
                Task::Abort
            },
            Seen::Calibrated(verdict) => {
                let last: bool = match self.stage {
                    Stage::Calibrate { rounds } => rounds == CAL_ITERS - 1,
                    _ => true,
                };
                match verdict {
                    Verdict::Good => {
                        self.stage = Stage::ExposureBase;
                        Task::Settle(set(min_lines(self.exposure / 3), 0))
                    },
                    Verdict::Rescale(lines) => {
                        self.exposure = limit(lines);
                        if last {
                            self.stage = Stage::ExposureBase;
                            Task::Rebase {
                                scaled: set(self.exposure, 0),
                                base: set(min_lines(self.exposure / 3), 0),
                            }
                        } else {
                            let rounds: u32 = match self.stage {
                                Stage::Calibrate { rounds } => rounds,
                                _ => 0,
                            };
                            self.stage = Stage::Calibrate { rounds: rounds + 1 };
                            Task::Settle(set(self.exposure, 0))
                        }
                    },
                }
            },
            Seen::Settled => match self.stage {
                Stage::ExposureBase => {
                    self.stage = Stage::ExposureStep;
                    Task::Step(set(self.exposure, 0))
                },
                _ => {
                    self.stage = Stage::GainStep;
                    Task::Step(set(min_lines(self.exposure / 2), GAIN_STEP))
                },
            },
            Seen::Recorded => match self.stage {
                Stage::ExposureStep => {
                    self.stage = Stage::GainBase;
                    Task::Settle(set(min_lines(self.exposure / 2), 0))
                },
                _ => {
                    self.stage = Stage::Over;
                    Task::Report
                },
            },
        }
    }
}

/// An exposure within the limits of the shortest frame.
fn limit(exposure: i32) -> (e: i32)
    ensures
        e == limited(exposure as int),
        EXPOSURE_MIN <= e <= exposure_max_spec(VBLANK_MIN as int),
{
    let max: i32 = exposure_max(VBLANK_MIN);
    if exposure < EXPOSURE_MIN {
        EXPOSURE_MIN
    } else if exposure > max {
        max
    } else {
        exposure
    }
}

/// Lines, at least the shortest integration.
fn min_lines(lines: i32) -> (e: i32)
    ensures
        e == at_least_min(lines as int),
{
    if lines < EXPOSURE_MIN {
        EXPOSURE_MIN
    } else {
        lines
    }
}

/// A state at the shortest frame.
fn set(exposure: i32, gain_index: u8) -> (s: AeState)
    ensures
        s == setting(exposure as int, gain_index),
{
    AeState { exposure, gain_index, vblank: VBLANK_MIN }
}

/// The states that a task sets, in order.
pub open spec fn states_set(t: Task) -> Seq<AeState> {
    match t {
        Task::Settle(s) => seq![s],
        Task::Rebase { scaled, base } => seq![scaled, base],
        Task::Step(s) => seq![s],
        _ => Seq::empty(),
    }
}

/// Whatever the scene answers, nothing out of the sensor's range is ever set: the
/// frame is the shortest, exposure fits it, and gain is unity or the gain step.
pub proof fn law_settings_stay_in_range(m: Measure, seen: Seen, i: int)
    requires
        m.wf(),
        m.expects(seen),
        0 <= i < states_set(measure_spec(m, seen).1).len(),
    ensures
        ({
            let s = states_set(measure_spec(m, seen).1)[i];
            &&& EXPOSURE_MIN <= s.exposure <= exposure_max_spec(VBLANK_MIN as int)
            &&& s.vblank == VBLANK_MIN
            &&& s.gain_index == 0 || s.gain_index == GAIN_STEP
        }),
{
}

/// How far the procedure is from its end, at most.
pub open spec fn remaining(m: Measure) -> int {
    match m.stage {
        Stage::Calibrate { rounds } => 4 + CAL_ITERS - rounds,
        Stage::ExposureBase => 4,
        Stage::ExposureStep => 3,
        Stage::GainBase => 2,
        Stage::GainStep => 1,
        Stage::Over => 0,
    }
}

/// The procedure ends: every answer brings it closer.
pub proof fn law_procedure_ends(m: Measure, seen: Seen)
    requires
        m.wf(),
        m.expects(seen),
    ensures
        0 <= remaining(measure_spec(m, seen).0) < remaining(m) <= 16,
{
}

/// The frames that make up the settled level after a step: the last four.
pub fn plateau_start(count: usize) -> (start: usize)
    ensures
        start == (if count < 4 {
            0
        } else {
            count - 4
        }),
{
    if count < 4 {
        0
    } else {
        count - 4
    }
}

/// `i` is the first of `means` that reaches the threshold.
pub open spec fn is_first_crossing(means: Seq<Option<i64>>, threshold: i64, i: int) -> bool {
    &&& 0 <= i < means.len()
    &&& crosses(means[i], threshold)
    &&& forall|j: int| 0 <= j < i ==> !crosses(#[trigger] means[j], threshold)
}

/// A finite mean that reaches the threshold.
pub open spec fn crosses(mean: Option<i64>, threshold: i64) -> bool {
    match mean {
        Some(m) => m >= threshold,
        None => false,
    }
}

/// First frame (counted from one) whose mean reaches the threshold, halfway
/// between `base` and `plateau`: the observed apply delay for a rising step.
/// `None` if it was never seen, or if the step did not rise.
pub fn detect_delay(
    base: Option<i64>,
    plateau: Option<i64>,
    threshold: i64,
    means: &[Option<i64>],
) -> (delay: Option<usize>)
    ensures
        match (base, plateau) {
            (Some(b), Some(p)) => if p <= b {
                delay is None
            } else {
                match delay {
                    Some(d) => d >= 1 && is_first_crossing(means@, threshold, d - 1),
                    None => forall|j: int|
                        0 <= j < means.len() ==> !crosses(#[trigger] means@[j], threshold),
                }
            },
            _ => delay is None,
        },
{
    match (base, plateau) {
        (Some(b), Some(p)) => {
            if p <= b {
                return None;
            }
        },
        _ => {
            return None;
        },
    }
    let mut i: usize = 0;
    while i < means.len()
        invariant
            i <= means.len(),
            base is Some && plateau is Some && plateau->0 > base->0,
            forall|j: int| 0 <= j < i ==> !crosses(#[trigger] means@[j], threshold),
        decreases means.len() - i,
    {
        let reached: bool = match means[i] {
            Some(m) => m >= threshold,
            None => false,
        };
        if reached {
            return Some(i + 1);
        }
        i += 1;
    }
    None
}

/// The settle count that both delays suggest: the larger; nothing unless both
/// were detected.
pub fn suggested_settle(exposure: Option<usize>, gain: Option<usize>) -> (n: Option<usize>)
    ensures
        n == (match (exposure, gain) {
            (Some(a), Some(b)) => Some(if a < b {
                b
            } else {
                a
            }),
            _ => None,
        }),
{
    match (exposure, gain) {
        (Some(a), Some(b)) => Some(if a < b {
            b
        } else {
            a
        }),
        _ => None,
    }
}

/// The exposure step is from a third of the calibrated exposure to all of it, at unity gain:
/// what is settled below it and what is then watched differ in nothing else. (A third of
/// less than twelve lines is four lines, the shortest there is.)
pub proof fn law_exposure_step_is_threefold(m: Measure)
    requires
        m.wf(),
        m.stage is Calibrate,
    ensures
        ({
            let (settling, low) = measure_spec(m, Seen::Calibrated(Verdict::Good));
            let (watching, high) = measure_spec(settling, Seen::Settled);
            match (low, high) {
                (Task::Settle(a), Task::Step(b)) => {
                    &&& b.exposure == m.exposure
                    &&& 3 * a.exposure <= b.exposure < 3 * (a.exposure + 1) || (a.exposure == 4
                        && b.exposure < 12)
                    &&& a.gain_index == 0 && b.gain_index == 0
                    &&& a.vblank == b.vblank
                },
                _ => false,
            }
        }),
{
}

/// The gain step is from unity gain to the fourth step of the table, at one exposure, half
/// the calibrated one: what is settled below it and what is then watched differ in the gain
/// alone. It follows the exposure step, and the report follows it.
pub proof fn law_gain_step_moves_gain_alone(m: Measure)
    requires
        m.wf(),
        m.stage == Stage::ExposureStep,
    ensures
        ({
            let (settling, low) = measure_spec(m, Seen::Recorded);
            let (watching, high) = measure_spec(settling, Seen::Settled);
            let (over, last) = measure_spec(watching, Seen::Recorded);
            &&& match (low, high) {
                (Task::Settle(a), Task::Step(b)) => {
                    &&& 2 * a.exposure <= m.exposure < 2 * (a.exposure + 1) || (a.exposure == 4
                        && m.exposure < 8)
                    &&& b.exposure == a.exposure && b.vblank == a.vblank
                    &&& a.gain_index == 0
                    &&& b.gain_index == 4
                },
                _ => false,
            }
            &&& last == Task::Report
            &&& over.exposure == m.exposure
        }),
{
}

/// Calibration sets what it is asked for: the lines asked for, where a frame of the shortest
/// length can hold them (4 to 1246 lines), and the nearest it can hold otherwise. They are
/// applied as they are kept, and judged again up to the twelfth round; after that they are
/// taken as they are.
pub proof fn law_calibration_sets_what_is_asked(m: Measure, lines: i32)
    requires
        m.wf(),
        m.stage is Calibrate,
    ensures
        ({
            let (t, task) = measure_spec(m, Seen::Calibrated(Verdict::Rescale(lines)));
            &&& 4 <= lines <= 1246 ==> t.exposure == lines
            &&& lines < 4 ==> t.exposure == 4
            &&& lines > 1246 ==> t.exposure == 1246
            &&& match task {
                Task::Settle(a) => m.stage->rounds < 11 && a.exposure == t.exposure && a.gain_index
                    == 0 && t.stage == (Stage::Calibrate { rounds: (m.stage->rounds + 1) as u32 }),
                Task::Rebase { scaled, base } => {
                    &&& m.stage->rounds == 11
                    &&& scaled.exposure == t.exposure && scaled.gain_index == 0
                    &&& Task::Settle(base) == measure_spec(
                        Measure { exposure: t.exposure, ..m },
                        Seen::Calibrated(Verdict::Good),
                    ).1
                    &&& t.stage == Stage::ExposureBase
                },
                _ => false,
            }
        }),
        measure_spec(m, Seen::Calibrated(Verdict::Good)).0.exposure == m.exposure,
        measure_spec(m, Seen::Timeout).1 == Task::Abort,
{
}

/// The delay that is seen is the first frame to reach the threshold: every earlier frame
/// stays below it or has no mean, and a later threshold is never reached sooner.
pub proof fn law_delay_grows_with_the_threshold(
    means: Seq<Option<i64>>,
    low: i64,
    high: i64,
    i: int,
    j: int,
)
    requires
        low <= high,
        is_first_crossing(means, low, i),
        is_first_crossing(means, high, j),
    ensures
        i <= j,
        means[i] matches Some(m) && m >= low,
        forall|n: int| 0 <= n < i ==> (#[trigger] means[n] is None || means[n]->0 < low),
{
    if j < i {
        assert(crosses(means[j], low));
    }
}

/// A step that did not rise, or whose levels are unknown, has no delay; and the settle count
/// is enough for either step and no more than one of them needs.
pub proof fn law_settle_count_covers_both_steps(
    base: Option<i64>,
    plateau: Option<i64>,
    threshold: i64,
    means: &[Option<i64>],
    delay: Option<usize>,
    exposure: Option<usize>,
    gain: Option<usize>,
    settle: Option<usize>,
)
    requires
        call_ensures(detect_delay, (base, plateau, threshold, means), delay),
        call_ensures(suggested_settle, (exposure, gain), settle),
    ensures
        base is None || plateau is None || plateau->0 <= base->0 ==> delay is None,
        settle is Some <==> exposure is Some && gain is Some,
        settle matches Some(n) ==> n >= exposure->0 && n >= gain->0 && (n == exposure->0 || n
            == gain->0),
{
}

} // verus!
