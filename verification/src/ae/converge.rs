//! Convergence of the exposure loop.
//!
//! The response of the scene and the damping are real-valued. What is asked of them
//! here is little: the product they ask for lies between the light of the current
//! state and a goal, and closes a fixed share of the gap ([`closes_in`]). From that it
//! follows that the loop closes in on the goal frame by frame, for all that exposure
//! is a whole number of lines and gain a table.

use vstd::arithmetic::power::pow;
use vstd::prelude::*;

use crate::ae::{
    clamped, exposure_max_spec, gain_error, is_allocation, is_demand, is_nearest_gain, is_step,
    lemma_gain_bounds, lemma_gain_order, lemma_unity, nudged, product64, rounded,
    vblank_for_fps_spec, wanted, AeConfig, AeState, Demand, Metering, Ratio, EXPOSURE_MARGIN,
    EXPOSURE_MIN, GAIN_STEPS, GAIN_TABLE, LINE, MAX_GAIN_INDEX, NATIVE_HEIGHT, RATIO_MAX,
    VBLANK_MIN,
};

verus! {

/// The light of a state: its exposure-gain product, in 1/`LINE` lines.
pub open spec fn light(s: AeState) -> int {
    product64(s) * (LINE as int / 64)
}

/// How far apart two amounts of light are.
pub open spec fn apart(a: int, b: int) -> int {
    if a < b {
        b - a
    } else {
        a - b
    }
}

/// The most light that unity gain gives at the frame rate floor.
pub open spec fn unity_most(cfg: AeConfig) -> int {
    exposure_max_spec(vblank_for_fps_spec(cfg.min_fps)) * LINE
}

/// A state at unity gain, in a frame no longer than its exposure needs: what an
/// allocation within unity gain leaves.
pub open spec fn at_unity(cfg: AeConfig, s: AeState) -> bool {
    let floor = vblank_for_fps_spec(cfg.min_fps);
    &&& s.gain_index == 0
    &&& EXPOSURE_MIN <= s.exposure <= exposure_max_spec(floor)
    &&& s.vblank == clamped(
        s.exposure + EXPOSURE_MARGIN - NATIVE_HEIGHT,
        VBLANK_MIN as int,
        floor,
    )
}

/// Metered in `state`, the loop is asked to move towards `goal`: the direction is
/// right, and the product lies between the current light and the goal and leaves no
/// more than `num` in `den` of the gap.
pub open spec fn closes_in<K: Metering>(
    k: K,
    state: AeState,
    m: K::M,
    goal: int,
    num: int,
    den: int,
) -> bool {
    &&& forall|dark: bool| #[trigger]
        call_ensures(K::too_dark, (&k, m), dark) ==> dark == (light(state) < goal)
    &&& forall|p: u128| #[trigger]
        call_ensures(K::product, (&k, m, product64(state) as i64), p) ==> {
            &&& light(state) <= p <= goal || goal <= p <= light(state)
            &&& den * apart(p as int, goal) <= num * apart(light(state), goal)
        }
}

/// The goal is out of reach of rounding: more than half a line away. In a frame that
/// is extended, where exposure has no room of its own, the share that is closed must
/// be more than half a line as well.
pub open spec fn off_goal(state: AeState, goal: int, num: int, den: int) -> bool {
    let gap = apart(light(state), goal);
    &&& 2 * gap > LINE
    &&& state.exposure < exposure_max_spec(VBLANK_MIN as int) || 2 * ((den - num) * gap) > den
        * LINE
}

/// A demanded step towards a goal within unity gain stays within unity gain, brings
/// the light closer to the goal, and leaves no more than the share that metering
/// leaves and half a line.
pub proof fn law_step_closes_in<K: Metering>(
    k: K,
    cfg: AeConfig,
    state: AeState,
    m: K::M,
    d: Demand,
    next: AeState,
    goal: int,
    num: int,
    den: int,
)
    requires
        cfg.wf(),
        at_unity(cfg, state),
        EXPOSURE_MIN * LINE <= goal <= unity_most(cfg),
        0 <= num < den,
        closes_in(k, state, m, goal, num, den),
        off_goal(state, goal, num, den),
        is_demand(k, state, m, Some(d)),
        is_step(cfg, state, Some(d), next),
    ensures
        at_unity(cfg, next),
        apart(light(next), goal) < apart(light(state), goal),
        2 * (den * apart(light(next), goal)) <= 2 * (num * apart(light(state), goal)) + den * LINE,
{
    let p = choose|p: u128| #[trigger]
        call_ensures(K::product, (&k, m, product64(state) as i64), p) && d.product == (if p
            < RATIO_MAX {
            p
        } else {
            RATIO_MAX
        });
    lemma_light_at_unity(state);
    assert(d.product == p);
    assert(wanted(d) == p);
    let gap = apart(light(state), goal);
    let left = apart(p as int, goal);
    let a = choose|a: AeState| #[trigger]
        is_allocation(cfg, wanted(d), a) && next == (if a == state {
            nudged(cfg, a, d.brighten)
        } else {
            a
        });
    lemma_unity_allocation(cfg, p as int, a);
    let moved = apart(p as int, light(state));
    assert(moved == gap - left);
    assert(den * moved == den * gap - den * left) by (nonlinear_arith)
        requires
            moved == gap - left,
    ;
    assert((den - num) * gap == den * gap - num * gap) by (nonlinear_arith);
    if state.exposure >= exposure_max_spec(VBLANK_MIN as int) {
        assert(2 * moved > LINE) by (nonlinear_arith)
            requires
                2 * (den * moved) > den * LINE,
                den > 0,
        ;
        assert(a.exposure != state.exposure);
    }
    lemma_light_at_unity(a);
    lemma_light_at_unity(next);
    if a == state {
        // Rounding undid the move, so it was half a line at most.
        assert(2 * moved <= LINE);
        assert(2 * (gap - left) <= LINE);
        assert(light(next) == light(state) + LINE || light(next) == light(state) - LINE);
        assert(2 * apart(light(next), goal) <= 2 * left + LINE);
    } else {
        assert(a.exposure != state.exposure);
        assert(2 * apart(light(next), goal) <= 2 * left + LINE);
    }
    let now = apart(light(next), goal);
    assert(2 * (den * now) <= 2 * (den * left) + den * LINE) by (nonlinear_arith)
        requires
            2 * now <= 2 * left + LINE,
            den > 0,
    ;
}

/// At unity gain, light is exposure.
proof fn lemma_light_at_unity(s: AeState)
    ensures
        s.gain_index == 0 ==> light(s) == s.exposure * LINE,
{
    lemma_unity(s);
}

/// An allocation within unity gain, seen as light.
proof fn lemma_unity_allocation(cfg: AeConfig, product: int, s: AeState)
    requires
        cfg.wf(),
        EXPOSURE_MIN * LINE <= product <= unity_most(cfg),
        is_allocation(cfg, product, s),
    ensures
        at_unity(cfg, s),
        s.exposure == rounded(product),
        -(LINE as int) < 2 * (s.exposure * LINE - product) <= LINE,
{
}

/// What a gap is beyond the one at which half a line of rounding makes up for the
/// share closed, in parts.
pub open spec fn beyond(gap: int, num: int, den: int) -> int {
    2 * ((den - num) * gap) - den * LINE
}

/// A run of the loop towards a goal: each frame is metered and stepped, and asks to
/// close in while the goal is out of reach of rounding.
pub open spec fn is_approach<K: Metering>(
    k: K,
    cfg: AeConfig,
    st: Seq<AeState>,
    ms: Seq<K::M>,
    ds: Seq<Demand>,
    goal: int,
    num: int,
    den: int,
) -> bool {
    &&& st.len() == ds.len() + 1
    &&& ms.len() == ds.len()
    &&& forall|i: int|
        0 <= i < ds.len() ==> {
            &&& closes_in(k, #[trigger] st[i], ms[i], goal, num, den)
            &&& off_goal(st[i], goal, num, den)
            &&& is_demand(k, st[i], ms[i], Some(ds[i]))
            &&& is_step(cfg, st[i], Some(ds[i]), st[i + 1])
        }
}

/// The loop converges: over a run towards a goal within unity gain, the gap narrows
/// with every frame, and what it is beyond the reach of rounding falls in geometric
/// progression, by the share that metering closes. It never leaves unity gain on the
/// way.
pub proof fn law_loop_converges<K: Metering>(
    k: K,
    cfg: AeConfig,
    st: Seq<AeState>,
    ms: Seq<K::M>,
    ds: Seq<Demand>,
    goal: int,
    num: int,
    den: int,
    n: int,
)
    requires
        cfg.wf(),
        EXPOSURE_MIN * LINE <= goal <= unity_most(cfg),
        0 <= num < den,
        is_approach(k, cfg, st, ms, ds, goal, num, den),
        at_unity(cfg, st[0]),
        0 <= n <= ds.len(),
    ensures
        at_unity(cfg, st[n]),
        n > 0 ==> apart(light(st[n]), goal) < apart(light(st[n - 1]), goal),
        pow(den, n as nat) * beyond(apart(light(st[n]), goal), num, den) <= pow(num, n as nat)
            * beyond(apart(light(st[0]), goal), num, den),
    decreases n,
{
    let first = beyond(apart(light(st[0]), goal), num, den);
    if n == 0 {
        vstd::arithmetic::power::lemma_pow0(den);
        vstd::arithmetic::power::lemma_pow0(num);
    } else {
        law_loop_converges(k, cfg, st, ms, ds, goal, num, den, n - 1);
        let (s, t) = (st[n - 1], st[n]);
        assert(closes_in(k, st[n - 1], ms[n - 1], goal, num, den));
        law_step_closes_in(k, cfg, s, ms[n - 1], ds[n - 1], t, goal, num, den);
        let (g, h) = (apart(light(s), goal), apart(light(t), goal));
        let (x, y) = (beyond(g, num, den), beyond(h, num, den));
        lemma_beyond_shrinks(g, h, num, den);
        let (a, b) = (pow(den, (n - 1) as nat), pow(num, (n - 1) as nat));
        vstd::arithmetic::power::lemma_pow_positive(den, (n - 1) as nat);
        reveal_with_fuel(pow, 2);
        assert(pow(den, n as nat) == den * a);
        assert(pow(num, n as nat) == num * b);
        assert((den * a) * y <= (num * b) * first) by (nonlinear_arith)
            requires
                den * y <= num * x,
                a * x <= b * first,
                a > 0,
                num >= 0,
        {
            assert((den * a) * y == a * (den * y)) by (nonlinear_arith);
            assert(a * (den * y) <= a * (num * x)) by (nonlinear_arith)
                requires
                    den * y <= num * x,
                    a > 0,
            ;
            assert(a * (num * x) == num * (a * x)) by (nonlinear_arith);
            assert(num * (a * x) <= num * (b * first)) by (nonlinear_arith)
                requires
                    a * x <= b * first,
                    num >= 0,
            ;
            assert(num * (b * first) == (num * b) * first) by (nonlinear_arith);
        }
    }
}

/// One step takes the closed share off what a gap is beyond the reach of rounding.
proof fn lemma_beyond_shrinks(g: int, h: int, num: int, den: int)
    requires
        0 <= num < den,
        2 * (den * h) <= 2 * (num * g) + den * LINE,
    ensures
        den * beyond(h, num, den) <= num * beyond(g, num, den),
{
    let c = den - num;
    let line = LINE as int;
    assert(c * (2 * (den * h)) <= c * (2 * (num * g) + den * line)) by (nonlinear_arith)
        requires
            2 * (den * h) <= 2 * (num * g) + den * line,
            c > 0,
    ;
    assert(den * (2 * (c * h) - den * line) == c * (2 * (den * h)) - den * (den * line))
        by (nonlinear_arith);
    assert(c * (2 * (num * g) + den * line) == num * (2 * (c * g)) + c * (den * line))
        by (nonlinear_arith);
    assert(num * (2 * (c * g) - den * line) == num * (2 * (c * g)) - num * (den * line))
        by (nonlinear_arith);
    assert(c * (den * line) - den * (den * line) == -(num * (den * line))) by (nonlinear_arith)
        requires
            c == den - num,
    ;
}

/// Beyond unity gain an allocation lands within a tenth of its product, as far as the
/// gain table goes.
pub proof fn law_gain_lands_within_a_tenth(cfg: AeConfig, product: int, s: AeState)
    requires
        cfg.wf(),
        cfg.ceiling_spec() == MAX_GAIN_INDEX,
        unity_most(cfg) < product <= 16 * unity_most(cfg),
        product <= RATIO_MAX,
        is_allocation(cfg, product, s),
    ensures
        10 * apart(light(s), product) <= product,
{
    let e = exposure_max_spec(vblank_for_fps_spec(cfg.min_fps));
    let den = e * LINE;
    let mult = Ratio { num: product as u128, den: den as u128 };
    let i = choose|i: int| #[trigger]
        is_nearest_gain(i, mult) && s.gain_index == (if i < MAX_GAIN_INDEX {
            i
        } else {
            MAX_GAIN_INDEX as int
        });
    lemma_gain_bounds(i);
    lemma_nearest_is_near(i, mult);
    let g = GAIN_TABLE[i] as int;
    assert(light(s) * 64 == g * den) by (nonlinear_arith)
        requires
            light(s) == (e * g) * (LINE as int / 64),
            (LINE as int / 64) * 64 == LINE,
            den == e * LINE,
    ;
}

/// Some gain of the table is within a tenth of any multiplier between one and
/// sixteen, so the nearest one is.
proof fn lemma_nearest_is_near(i: int, mult: Ratio)
    requires
        mult.den > 0,
        mult.den <= mult.num <= 16 * mult.den,
        is_nearest_gain(i, mult),
    ensures
        10 * gain_error(i, mult) <= 64 * mult.num,
{
    let j = lemma_some_gain_is_near(mult, 16);
    assert(gain_error(i, mult) <= gain_error(j, mult));
}

/// Some gain up to entry `top` is within a tenth of a multiplier up to that entry's.
proof fn lemma_some_gain_is_near(mult: Ratio, top: int) -> (j: int)
    requires
        0 <= top < GAIN_STEPS,
        mult.den > 0,
        GAIN_TABLE[0] * mult.den <= 64 * mult.num <= GAIN_TABLE[top] * mult.den,
    ensures
        0 <= j < GAIN_STEPS,
        10 * gain_error(j, mult) <= 64 * mult.num,
    decreases top,
{
    lemma_gain_bounds(top);
    if top == 0 {
        0
    } else if 64 * mult.num <= GAIN_TABLE[top - 1] * mult.den {
        lemma_some_gain_is_near(mult, top - 1)
    } else {
        let (lo, hi, x) = (GAIN_TABLE[top - 1] as int, GAIN_TABLE[top] as int, 64 * mult.num);
        let den = mult.den as int;
        lemma_gain_bounds(top - 1);
        assert(9 * hi <= 11 * lo);
        assert(9 * (hi * den) <= 11 * (lo * den)) by (nonlinear_arith)
            requires
                9 * hi <= 11 * lo,
                den > 0,
        ;
        if 10 * (x - lo * den) <= x {
            top - 1
        } else {
            top
        }
    }
}

/// A demanded step towards any goal that the gain table reaches leaves no more than
/// the share that metering leaves, a tenth of the product asked for, and half a line.
/// This is of a step that changes the allocation; one that would not is nudged by a
/// line or a gain step instead.
pub proof fn law_step_closes_in_up_to_a_tenth<K: Metering>(
    k: K,
    cfg: AeConfig,
    state: AeState,
    m: K::M,
    d: Demand,
    next: AeState,
    goal: int,
    num: int,
    den: int,
)
    requires
        cfg.wf(),
        cfg.ceiling_spec() == MAX_GAIN_INDEX,
        EXPOSURE_MIN * LINE <= goal <= 16 * unity_most(cfg),
        light(state) <= 16 * unity_most(cfg),
        0 <= num < den,
        closes_in(k, state, m, goal, num, den),
        is_demand(k, state, m, Some(d)),
        is_step(cfg, state, Some(d), next),
        !is_allocation(cfg, wanted(d), state),
    ensures
        10 * (den * apart(light(next), goal)) <= 10 * (num * apart(light(state), goal)) + den * (
        wanted(d) + 5 * LINE),
{
    let p = choose|p: u128| #[trigger]
        call_ensures(K::product, (&k, m, product64(state) as i64), p) && d.product == (if p
            < RATIO_MAX {
            p
        } else {
            RATIO_MAX
        });
    assert(d.product == p);
    let w = wanted(d);
    assert(is_allocation(cfg, w, next));
    let left = apart(p as int, goal);
    let now = apart(light(next), goal);
    assert(apart(w, goal) <= left);
    if w <= unity_most(cfg) {
        lemma_unity_allocation(cfg, w, next);
        lemma_light_at_unity(next);
    } else {
        law_gain_lands_within_a_tenth(cfg, w, next);
    }
    assert(10 * now <= 10 * left + w + 5 * LINE);
    assert(10 * (den * now) <= 10 * (den * left) + den * (w + 5 * LINE)) by (nonlinear_arith)
        requires
            10 * now <= 10 * left + w + 5 * LINE,
            den > 0,
    ;
}

/// Whatever the ceiling, gain makes up what it can. Beyond unity gain exposure stands
/// at its cap; a product within what the ceiling's gain gives there is met within a
/// tenth, and no gain up to the ceiling meets it better; a larger product gets the
/// ceiling's gain.
pub proof fn law_gain_makes_up_what_it_can(cfg: AeConfig, product: int, s: AeState, ceiling: int)
    requires
        cfg.wf(),
        ceiling == (if cfg.max_gain_index < 16 {
            cfg.max_gain_index as int
        } else {
            16
        }),
        unity_most(cfg) < product <= RATIO_MAX,
        is_allocation(cfg, product, s),
    ensures
        s.exposure * LINE == unity_most(cfg),
        s.gain_index <= ceiling,
        64 * product > s.exposure * LINE * GAIN_TABLE[ceiling] ==> s.gain_index == ceiling,
        64 * product <= s.exposure * LINE * GAIN_TABLE[ceiling] ==> 10 * apart(
            s.exposure * LINE * GAIN_TABLE[s.gain_index as int],
            64 * product,
        ) <= 64 * product,
        forall|j: int|
            0 <= j <= ceiling ==> apart(
                s.exposure * LINE * GAIN_TABLE[s.gain_index as int],
                64 * product,
            ) <= apart(s.exposure * LINE * #[trigger] GAIN_TABLE[j], 64 * product),
{
    let e = exposure_max_spec(vblank_for_fps_spec(cfg.min_fps));
    let den = e * LINE;
    let mult = Ratio { num: product as u128, den: den as u128 };
    let i = choose|i: int| #[trigger]
        is_nearest_gain(i, mult) && s.gain_index == (if i < ceiling {
            i
        } else {
            ceiling
        });
    lemma_gain_bounds(ceiling);
    lemma_gain_bounds(i);
    assert(s.exposure * LINE == den);
    assert forall|j: int| 0 <= j < GAIN_STEPS implies den * #[trigger] GAIN_TABLE[j] == GAIN_TABLE[j]
        * den by {
        assert(den * GAIN_TABLE[j] == GAIN_TABLE[j] * den) by (nonlinear_arith);
    }
    lemma_gains_ascend(i, ceiling, den);
    lemma_gains_ascend(ceiling, i, den);
    assert forall|j: int| 0 <= j <= ceiling implies apart(
        den * GAIN_TABLE[s.gain_index as int],
        64 * product,
    ) <= apart(den * #[trigger] GAIN_TABLE[j], 64 * product) by {
        assert(gain_error(i, mult) <= gain_error(j, mult));
        assert(gain_error(i, mult) <= gain_error(ceiling, mult));
        lemma_gains_ascend(j, ceiling, den);
        assert(gain_error(j, mult) == apart(den * GAIN_TABLE[j], 64 * product));
    }
    if 64 * product > den * GAIN_TABLE[ceiling] {
        assert(gain_error(i, mult) <= gain_error(ceiling, mult));
    } else {
        assert(GAIN_TABLE[0] * den <= 64 * product);
        let j = lemma_some_gain_is_near(mult, ceiling);
        assert(10 * gain_error(i, mult) <= 64 * product);
        assert(gain_error(i, mult) <= gain_error(ceiling, mult));
    }
}

/// Larger entries of the gain table give more.
proof fn lemma_gains_ascend(i: int, j: int, den: int)
    requires
        0 <= i < GAIN_STEPS,
        0 <= j < GAIN_STEPS,
        den > 0,
    ensures
        i <= j ==> GAIN_TABLE[i] * den <= GAIN_TABLE[j] * den,
        i < j ==> GAIN_TABLE[i] * den < GAIN_TABLE[j] * den,
{
    if i < j {
        lemma_gain_order(i, j);
        assert(GAIN_TABLE[i] * den < GAIN_TABLE[j] * den) by (nonlinear_arith)
            requires
                GAIN_TABLE[i] < GAIN_TABLE[j],
                den > 0,
        ;
    }
}

/// A ceiling only cuts: against the whole table, the allocation of a product differs
/// in nothing but a gain index above the ceiling, which becomes the ceiling.
pub proof fn law_ceiling_only_cuts(
    cfg: AeConfig,
    whole: AeConfig,
    product: int,
    s: AeState,
    t: AeState,
)
    requires
        cfg.wf(),
        whole == (AeConfig { max_gain_index: 16, ..cfg }),
        EXPOSURE_MIN * LINE <= product <= RATIO_MAX,
        is_allocation(cfg, product, s),
        is_allocation(whole, product, t),
    ensures
        s.exposure == t.exposure,
        s.vblank == t.vblank,
        t.gain_index <= 16,
        s.gain_index == (if t.gain_index > cfg.max_gain_index {
            cfg.max_gain_index
        } else {
            t.gain_index
        }),
{
    if product > unity_most(cfg) && product > exposure_max_spec(VBLANK_MIN as int) * LINE {
        let e = exposure_max_spec(vblank_for_fps_spec(cfg.min_fps));
        let mult = Ratio { num: product as u128, den: (e * LINE) as u128 };
        let i = choose|i: int| #[trigger]
            is_nearest_gain(i, mult) && s.gain_index == (if i < cfg.ceiling_spec() {
                i
            } else {
                cfg.ceiling_spec() as int
            });
        let j = choose|j: int| #[trigger]
            is_nearest_gain(j, mult) && t.gain_index == (if j < whole.ceiling_spec() {
                j
            } else {
                whole.ceiling_spec() as int
            });
        assert(gain_error(i, mult) <= gain_error(j, mult));
        assert(gain_error(j, mult) <= gain_error(i, mult));
        assert(i == j);
    }
}

} // verus!
