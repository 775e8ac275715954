//! Scene estimation: from the planes of a frame to white-balance gains, colour
//! temperature, light source and colour matrices.
//!
//! Chroma and gains are real-valued. Their arithmetic is the [`Scene`] trait; what
//! stands here is which numbers it is applied to and what is chosen by the results.

use vstd::prelude::*;

use crate::order::{
    first_min, is_first_min, is_search_left, law_middle_is_a_place_when_sorted, Middle, Percentile,
};
use crate::pipeline::awb::{
    is_classified, is_stats, keeps, law_chroma_is_the_voters, law_few_pixels_are_averaged,
    law_selection_never_collapses, lemma_middle_of_ratios, lemma_none_valid, robust_neutral,
    select_ls_hyst, settled, within, AwbStats, Voters,
};
use crate::pipeline::bayer::Planes;
use crate::pipeline::colour::{
    ct_bracket, interp_acm, interp_ccm, is_acm_interpolated, is_bracket, is_interpolated,
    law_bracket_is_unique, sector_column, Bracket,
};
use crate::pipeline::lca::Lca;
use crate::rows::tabulate;
use crate::tuning::{LSC_BYTES, LSC_NLS};

verus! {

/// Calibrated colour temperatures.
pub const NUM_CCM: usize = 5;

/// Hue sectors of the advanced colour matrices.
pub const ACM_NSEC: usize = 24;

/// A scene chroma.
#[derive(Debug, Clone, Copy, PartialEq, Eq)]
pub struct Chroma<S> {
    /// Red over green.
    pub rg: S,
    /// Blue over green.
    pub bg: S,
}

/// Scene estimation result: white-balance gains, CCT, chosen LSC light source,
/// and the interpolated colour-correction matrix.
#[derive(Debug, PartialEq, Eq)]
pub struct Estimate<S, D> {
    pub chroma: Chroma<S>,
    /// R, G(=1), B
    pub gains: [D; 3],
    pub cct: D,
    pub ls: usize,
    pub ccm: [D; 9],
}

/// The per-sector colour matrices interpolated to one scene CCT, ready to apply
/// per pixel.
#[derive(Debug, PartialEq, Eq)]
pub struct AcmFrame<D> {
    pub mats: Vec<[D; 9]>,
}

/// What the colour stage applies: a scene estimate and the per-sector matrices
/// for its CCT.
#[derive(Debug, PartialEq, Eq)]
pub struct Look<S, D> {
    pub est: Estimate<S, D>,
    pub acm: AcmFrame<D>,
}

impl<S, D> Look<S, D> {
    /// The light source is a calibrated one and every hue sector has its matrix.
    pub open spec fn wf(&self) -> bool {
        &&& self.est.ls < LSC_NLS
        &&& self.acm.mats.len() == ACM_NSEC
    }
}

/// The calibration of the camera.
#[derive(Debug, Clone, PartialEq, Eq)]
pub struct Calibration<T> {
    /// Keys of the calibrated colour temperatures, ascending.
    pub cts: Vec<i64>,
    /// One global matrix per colour temperature.
    pub ccm: Vec<[T; 9]>,
    /// One matrix per colour temperature and hue sector, sector by sector.
    pub acm: Vec<[T; 9]>,
    /// The LSC gain grids.
    pub lsc: Vec<u8>,
    /// The aberration grids.
    pub lca: Lca,
}

impl<T> Calibration<T> {
    /// The tables are complete.
    pub open spec fn wf(&self) -> bool {
        &&& self.cts.len() == NUM_CCM
        &&& self.ccm.len() == NUM_CCM
        &&& self.acm.len() == NUM_CCM * ACM_NSEC
        &&& self.lsc.len() >= LSC_BYTES
        &&& self.lca.wf()
    }
}

/// The real-valued arithmetic of scene estimation, on planes of samples `V`. Keys
/// order as the numbers they stand for do (see [`crate::order`]).
pub trait Scene<V>: Sync {
    /// A sample or a chroma.
    type S: Copy + Send + Sync;

    /// A gain, a colour temperature or a matrix entry.
    type D: Copy + Send + Sync;

    /// An entry of a calibrated matrix.
    type T: Copy + Send + Sync;

    /// Green of a tile.
    fn green(&self, gr: V, gb: V) -> Self::S;

    /// The key of a green value.
    fn green_key(&self, g: Self::S) -> i32;

    /// Green is far enough from black to divide by.
    fn valid(&self, g: Self::S) -> bool;

    /// No channel is near clipping.
    fn unclipped(&self, r: V, g: Self::S, b: V) -> bool;

    /// Green reaches its bright percentile.
    fn bright(&self, g: Self::S, p: Option<Percentile>) -> bool;

    /// The chroma of a pixel lies near segment `i` of the white locus.
    fn near(&self, i: usize, r: V, g: Self::S, b: V) -> bool;

    /// The key of a sample over green.
    fn ratio_key(&self, v: V, g: Self::S) -> i32;

    /// The median that two middles average to.
    fn middle(&self, m: Middle) -> Self::S;

    /// The sum of a plane over the sum of green, at the given pixels.
    fn mean(&self, plane: &Vec<V>, green: &Vec<Self::S>, idx: &Vec<usize>) -> Self::S;

    /// The chroma of a neutral scene.
    fn neutral(&self) -> Self::S;

    /// A measurement smoothed against the previous (smoothed) value.
    fn smooth(&self, old: Self::S, new: Self::S) -> Self::S;

    /// A chroma that can be divided by: itself when it is finite and positive, else
    /// neutral.
    fn sane(&self, c: Self::S) -> Self::S;

    /// The white-balance gains for a chroma.
    fn gains(&self, c: Chroma<Self::S>) -> [Self::D; 3];

    /// The key of a chroma's distance to segment `i` of the white locus.
    fn segment_key(&self, i: usize, c: Chroma<Self::S>) -> i64;

    /// The colour temperature of a chroma projected onto segment `i`.
    fn cct(&self, i: usize, c: Chroma<Self::S>) -> Self::D;

    /// The key of a chroma's distance to light source `ls`.
    fn distance_key(&self, ls: usize, c: Chroma<Self::S>) -> i64;

    /// The key of that distance, relaxed by the switch hysteresis.
    fn relaxed_key(&self, ls: usize, c: Chroma<Self::S>) -> i64;

    /// The key of a colour temperature, moved into the calibrated range.
    fn cct_key(&self, cct: &Self::D) -> i64;

    /// A calibrated matrix entry as it is.
    fn widen(&self, t: Self::T) -> Self::D;

    /// Two calibrated matrix entries blended for a colour temperature.
    fn blend(&self, cct: &Self::D, b: Bracket, lo: Self::T, hi: Self::T) -> Self::D;
}

/// `c` is the chroma that the statistics settle on: the medians over the voters
/// where those are trusted, the means over the valid pixels where not, and neutral
/// where there are none.
pub open spec fn is_settled_chroma<V, K: Scene<V>>(
    k: K,
    p: Planes<V>,
    st: AwbStats<K::S>,
    c: Chroma<K::S>,
) -> bool {
    match (st.voters, st.chroma) {
        (Voters::Median { .. }, Some((rg, bg))) => {
            &&& call_ensures(<K as Scene<V>>::middle, (&k, rg), c.rg)
            &&& call_ensures(<K as Scene<V>>::middle, (&k, bg), c.bg)
        },
        (Voters::Mean { idx }, _) => {
            &&& call_ensures(<K as Scene<V>>::mean, (&k, &p.r, &st.green, &idx), c.rg)
            &&& call_ensures(<K as Scene<V>>::mean, (&k, &p.b, &st.green, &idx), c.bg)
        },
        _ => {
            &&& call_ensures(<K as Scene<V>>::neutral, (&k,), c.rg)
            &&& call_ensures(<K as Scene<V>>::neutral, (&k,), c.bg)
        },
    }
}

/// `c` is the scene chroma of the planes.
pub open spec fn is_scene_chroma<V, K: Scene<V>>(k: K, p: Planes<V>, c: Chroma<K::S>) -> bool {
    exists|st: AwbStats<K::S>| #[trigger]
        is_stats::<V, K>(k, p, st) && is_settled_chroma::<V, K>(k, p, st, c)
}

/// Measure the scene chroma of the planes.
pub fn scene_chroma<V: Copy, K: Scene<V>>(p: &Planes<V>, k: &K) -> (c: Chroma<K::S>)
    requires
        p.wf(),
    ensures
        is_scene_chroma::<V, K>(*k, *p, c),
{
    let st: AwbStats<K::S> = robust_neutral(p, k);
    let c: Chroma<K::S> = match (&st.voters, st.chroma) {
        (Voters::Median { .. }, Some((rg, bg))) => Chroma { rg: k.middle(rg), bg: k.middle(bg) },
        (Voters::Mean { idx }, _) => Chroma {
            rg: k.mean(&p.r, &st.green, idx),
            bg: k.mean(&p.b, &st.green, idx),
        },
        _ => Chroma { rg: k.neutral(), bg: k.neutral() },
    };
    assert(is_settled_chroma::<V, K>(*k, *p, st, c));
    c
}

/// `out` is `new` smoothed against the previous value: the measurement itself
/// when there is none.
pub open spec fn is_smoothed<V, K: Scene<V>>(
    k: K,
    prev: Option<Chroma<K::S>>,
    new: Chroma<K::S>,
    out: Chroma<K::S>,
) -> bool {
    match prev {
        Some(p) => {
            &&& call_ensures(<K as Scene<V>>::smooth, (&k, p.rg, new.rg), out.rg)
            &&& call_ensures(<K as Scene<V>>::smooth, (&k, p.bg, new.bg), out.bg)
        },
        None => out == new,
    }
}

/// Smooth a freshly measured scene chroma against the previous (smoothed) value;
/// `None` returns the measurement unchanged (first frame).
pub fn smooth_chroma<V, K: Scene<V>>(
    prev: Option<Chroma<K::S>>,
    new: Chroma<K::S>,
    k: &K,
) -> (out: Chroma<K::S>)
    ensures
        is_smoothed::<V, K>(*k, prev, new, out),
{
    match prev {
        Some(p) => Chroma { rg: k.smooth(p.rg, new.rg), bg: k.smooth(p.bg, new.bg) },
        None => new,
    }
}

/// `keys` are the keys of the chroma's distances to the segments of the white
/// locus, which joins the calibrated colour temperatures.
pub open spec fn are_segment_keys<V, K: Scene<V>>(k: K, c: Chroma<K::S>, keys: Seq<i64>) -> bool {
    &&& keys.len() == NUM_CCM - 1
    &&& forall|i: int|
        0 <= i < NUM_CCM - 1 ==> call_ensures(
            <K as Scene<V>>::segment_key,
            (&k, i as usize, c),
            #[trigger] keys[i],
        )
}

/// `cct` is the colour temperature of the chroma, on the first of the segments
/// nearest to it.
pub open spec fn is_cct<V, K: Scene<V>>(k: K, c: Chroma<K::S>, cct: K::D) -> bool {
    exists|keys: Seq<i64>, i: int|
        {
            &&& #[trigger] are_segment_keys::<V, K>(k, c, keys)
            &&& #[trigger] is_first_min(keys, i)
            &&& call_ensures(<K as Scene<V>>::cct, (&k, i as usize, c), cct)
        }
}

/// Project a chroma onto the white locus and read off its colour temperature.
pub fn estimate_cct<V, K: Scene<V>>(c: Chroma<K::S>, k: &K) -> (cct: K::D)
    ensures
        is_cct::<V, K>(*k, c, cct),
{
    let key_at = |i: usize| -> (key: i64)
        ensures
            call_ensures(<K as Scene<V>>::segment_key, (k, i, c), key),
        { k.segment_key(i, c) };
    let keys: Vec<i64> = tabulate(NUM_CCM - 1, &key_at);
    assert forall|i: int| 0 <= i < NUM_CCM - 1 implies call_ensures(
        <K as Scene<V>>::segment_key,
        (k, i as usize, c),
        #[trigger] keys@[i],
    ) by {
        assert(call_ensures(key_at, (i as usize,), keys@[i]));
    }
    let i: usize = first_min(&keys);
    assert(are_segment_keys::<V, K>(*k, c, keys@));
    assert(is_first_min(keys@, i as int));
    k.cct(i, c)
}

/// The keys of the chroma's distances to the calibrated light sources, plain and
/// relaxed.
pub open spec fn are_distances<V, K: Scene<V>>(
    k: K,
    c: Chroma<K::S>,
    dists: Seq<i64>,
    relaxed: Seq<i64>,
) -> bool {
    &&& dists.len() == LSC_NLS
    &&& relaxed.len() == LSC_NLS
    &&& forall|i: int|
        0 <= i < LSC_NLS ==> call_ensures(
            <K as Scene<V>>::distance_key,
            (&k, i as usize, c),
            #[trigger] dists[i],
        )
    &&& forall|i: int|
        0 <= i < LSC_NLS ==> call_ensures(
            <K as Scene<V>>::relaxed_key,
            (&k, i as usize, c),
            #[trigger] relaxed[i],
        )
}

/// `ls` is the light source chosen for the chroma: the nearest one, or the
/// previous one while it is within the relaxed distance of the nearest.
pub open spec fn is_source<V, K: Scene<V>>(
    k: K,
    c: Chroma<K::S>,
    prev: Option<usize>,
    ls: usize,
) -> bool {
    exists|dists: Seq<i64>, relaxed: Seq<i64>, best: int|
        {
            &&& #[trigger] are_distances::<V, K>(k, c, dists, relaxed)
            &&& #[trigger] is_first_min(dists, best)
            &&& ls == settled(dists, relaxed, prev, best)
        }
}

/// Choose the LSC light source for a chroma.
pub fn select_source<V, K: Scene<V>>(c: Chroma<K::S>, prev: Option<usize>, k: &K) -> (ls: usize)
    requires
        prev is Some ==> prev->0 < LSC_NLS,
    ensures
        ls < LSC_NLS,
        is_source::<V, K>(*k, c, prev, ls),
{
    let distance_at = |i: usize| -> (key: i64)
        ensures
            call_ensures(<K as Scene<V>>::distance_key, (k, i, c), key),
        { k.distance_key(i, c) };
    let relaxed_at = |i: usize| -> (key: i64)
        ensures
            call_ensures(<K as Scene<V>>::relaxed_key, (k, i, c), key),
        { k.relaxed_key(i, c) };
    let dists: Vec<i64> = tabulate(LSC_NLS, &distance_at);
    let relaxed: Vec<i64> = tabulate(LSC_NLS, &relaxed_at);
    assert forall|i: int| 0 <= i < LSC_NLS implies call_ensures(
        <K as Scene<V>>::distance_key,
        (k, i as usize, c),
        #[trigger] dists@[i],
    ) by {
        assert(call_ensures(distance_at, (i as usize,), dists@[i]));
    }
    assert forall|i: int| 0 <= i < LSC_NLS implies call_ensures(
        <K as Scene<V>>::relaxed_key,
        (k, i as usize, c),
        #[trigger] relaxed@[i],
    ) by {
        assert(call_ensures(relaxed_at, (i as usize,), relaxed@[i]));
    }
    assert(are_distances::<V, K>(*k, c, dists@, relaxed@));
    select_ls_hyst(&dists, &relaxed, prev)
}

/// `b` brackets the colour temperature among the calibrated ones.
pub open spec fn is_cct_bracket<V, K: Scene<V>>(
    k: K,
    cal: Calibration<K::T>,
    cct: K::D,
    b: Bracket,
) -> bool {
    exists|key: i64| #[trigger]
        call_ensures(<K as Scene<V>>::cct_key, (&k, &cct), key) && is_bracket(cal.cts@, key, b)
}

/// `ccm` is the global colour matrix for a colour temperature.
pub open spec fn is_ccm<V, K: Scene<V>>(
    k: K,
    cal: Calibration<K::T>,
    cct: K::D,
    ccm: [K::D; 9],
) -> bool {
    exists|b: Bracket| #[trigger]
        is_cct_bracket::<V, K>(k, cal, cct, b) && is_interpolated::<V, K>(k, cct, cal.ccm@, b, ccm)
}

/// `acm` holds the per-sector colour matrices for a colour temperature.
pub open spec fn is_acm<V, K: Scene<V>>(
    k: K,
    cal: Calibration<K::T>,
    cct: K::D,
    acm: AcmFrame<K::D>,
) -> bool {
    exists|b: Bracket| #[trigger]
        is_cct_bracket::<V, K>(k, cal, cct, b) && is_acm_interpolated::<V, K>(
            k,
            cct,
            cal.acm@,
            NUM_CCM as int,
            b,
            acm,
        )
}

/// The per-sector colour matrices for a colour temperature.
pub fn acm_for<V, K: Scene<V>>(cct: &K::D, cal: &Calibration<K::T>, k: &K) -> (acm: AcmFrame<K::D>)
    requires
        cal.wf(),
    ensures
        is_acm::<V, K>(*k, *cal, *cct, acm),
{
    let key: i64 = k.cct_key(cct);
    let b: Bracket = ct_bracket(&cal.cts, key);
    assert(is_cct_bracket::<V, K>(*k, *cal, *cct, b));
    interp_acm::<V, K>(k, cct, &cal.acm, NUM_CCM, b)
}

/// `est` is the estimate that a scene chroma leads to: the chroma made sane, its
/// gains, its colour temperature, the light source nearest it (with hysteresis
/// towards the previous one) and the matrix for the colour temperature.
pub open spec fn is_estimate_from<V, K: Scene<V>>(
    k: K,
    cal: Calibration<K::T>,
    c: Chroma<K::S>,
    prev: Option<usize>,
    est: Estimate<K::S, K::D>,
) -> bool {
    &&& call_ensures(<K as Scene<V>>::sane, (&k, c.rg), est.chroma.rg)
    &&& call_ensures(<K as Scene<V>>::sane, (&k, c.bg), est.chroma.bg)
    &&& call_ensures(<K as Scene<V>>::gains, (&k, est.chroma), est.gains)
    &&& is_cct::<V, K>(k, est.chroma, est.cct)
    &&& is_source::<V, K>(k, est.chroma, prev, est.ls)
    &&& is_ccm::<V, K>(k, cal, est.cct, est.ccm)
}

/// Build a full scene estimate (gains, CCT, LSC source, CCM) from an already
/// chosen scene chroma. `prev` enables LSC switch hysteresis for the live
/// runtimes; stateless callers pass `None`.
pub fn estimate_from_chroma<V, K: Scene<V>>(
    c: Chroma<K::S>,
    prev: Option<usize>,
    cal: &Calibration<K::T>,
    k: &K,
) -> (est: Estimate<K::S, K::D>)
    requires
        cal.wf(),
        prev is Some ==> prev->0 < LSC_NLS,
    ensures
        est.ls < LSC_NLS,
        is_estimate_from::<V, K>(*k, *cal, c, prev, est),
{
    let chroma: Chroma<K::S> = Chroma { rg: k.sane(c.rg), bg: k.sane(c.bg) };
    let gains: [K::D; 3] = k.gains(chroma);
    let cct: K::D = estimate_cct::<V, K>(chroma, k);
    let ls: usize = select_source::<V, K>(chroma, prev, k);
    let key: i64 = k.cct_key(&cct);
    let b: Bracket = ct_bracket(&cal.cts, key);
    assert(is_cct_bracket::<V, K>(*k, *cal, cct, b));
    let ccm: [K::D; 9] = interp_ccm::<V, K>(k, &cct, &cal.ccm, b);
    Estimate { chroma, gains, cct, ls, ccm }
}

/// `look` is what a scene chroma leads to: an estimate and its matrices.
pub open spec fn is_look_from<V, K: Scene<V>>(
    k: K,
    cal: Calibration<K::T>,
    c: Chroma<K::S>,
    prev: Option<usize>,
    look: Look<K::S, K::D>,
) -> bool {
    &&& is_estimate_from::<V, K>(k, cal, c, prev, look.est)
    &&& is_acm::<V, K>(k, cal, look.est.cct, look.acm)
}

/// The estimate that a scene chroma leads to, with its matrices.
pub fn look_from_chroma<V, K: Scene<V>>(
    c: Chroma<K::S>,
    prev: Option<usize>,
    cal: &Calibration<K::T>,
    k: &K,
) -> (look: Look<K::S, K::D>)
    requires
        cal.wf(),
        prev is Some ==> prev->0 < LSC_NLS,
    ensures
        look.wf(),
        is_look_from::<V, K>(*k, *cal, c, prev, look),
{
    let est: Estimate<K::S, K::D> = estimate_from_chroma::<V, K>(c, prev, cal, k);
    let acm: AcmFrame<K::D> = acm_for::<V, K>(&est.cct, cal, k);
    Look { est, acm }
}

/// `est` is the stateless estimate of the planes: measured chroma, no smoothing,
/// plain nearest light source.
pub open spec fn is_estimate<V, K: Scene<V>>(
    k: K,
    cal: Calibration<K::T>,
    p: Planes<V>,
    est: Estimate<K::S, K::D>,
) -> bool {
    exists|c: Chroma<K::S>| #[trigger]
        is_scene_chroma::<V, K>(k, p, c) && is_estimate_from::<V, K>(k, cal, c, None, est)
}

/// Estimate WB gains, CCT, LSC light source and CCM from the (pre-LSC) planes.
/// Stateless: no temporal smoothing, plain nearest LSC source.
pub fn estimate<V: Copy, K: Scene<V>>(
    p: &Planes<V>,
    cal: &Calibration<K::T>,
    k: &K,
) -> (est: Estimate<K::S, K::D>)
    requires
        cal.wf(),
        p.wf(),
    ensures
        est.ls < LSC_NLS,
        is_estimate::<V, K>(*k, *cal, *p, est),
{
    let c: Chroma<K::S> = scene_chroma(p, k);
    estimate_from_chroma::<V, K>(c, None, cal, k)
}

/// `new` is the smoothed chroma, and `look` the look, after an estimate from the
/// planes: the measured chroma smoothed against the previous one, and what that
/// leads to with hysteresis towards the previous light source.
pub open spec fn is_followed<V, K: Scene<V>>(
    k: K,
    cal: Calibration<K::T>,
    p: Planes<V>,
    old: Option<Chroma<K::S>>,
    prev: Option<usize>,
    new: Chroma<K::S>,
    look: Look<K::S, K::D>,
) -> bool {
    &&& exists|measured: Chroma<K::S>| #[trigger]
        is_scene_chroma::<V, K>(k, p, measured) && is_smoothed::<V, K>(k, old, measured, new)
    &&& is_look_from::<V, K>(k, cal, new, prev, look)
}

/// Estimate from the planes, following the scene: the chroma is smoothed across
/// estimates and the LSC source switch is hysteretic, so white balance follows
/// lighting changes gradually instead of stepping at every estimate.
pub fn follow<V: Copy, K: Scene<V>>(
    p: &Planes<V>,
    old: Option<Chroma<K::S>>,
    prev: Option<usize>,
    cal: &Calibration<K::T>,
    k: &K,
) -> (next: (Chroma<K::S>, Look<K::S, K::D>))
    requires
        cal.wf(),
        p.wf(),
        prev is Some ==> prev->0 < LSC_NLS,
    ensures
        next.1.wf(),
        is_followed::<V, K>(*k, *cal, *p, old, prev, next.0, next.1),
{
    let measured: Chroma<K::S> = scene_chroma(p, k);
    let new: Chroma<K::S> = smooth_chroma::<V, K>(old, measured, k);
    let look: Look<K::S, K::D> = look_from_chroma::<V, K>(new, prev, cal, k);
    (new, look)
}

/// The first estimate has no history: its look is the stateless one.
pub proof fn law_first_estimate_is_stateless<V, K: Scene<V>>(
    k: K,
    cal: Calibration<K::T>,
    p: Planes<V>,
    new: Chroma<K::S>,
    look: Look<K::S, K::D>,
)
    requires
        is_followed::<V, K>(k, cal, p, None, None, new, look),
    ensures
        is_estimate::<V, K>(k, cal, p, look.est),
{
}

/// A calibrated colour temperature gives its own matrices, global and per sector,
/// as they are; so does one outside the calibrated range, whose key is that of the
/// end it is moved to. This is of a blend that gives, at its upper end, that end.
pub proof fn law_calibrated_temperature_keeps_its_matrices<V, K: Scene<V>>(
    k: K,
    cal: Calibration<K::T>,
    cct: K::D,
    j: int,
    ccm: [K::D; 9],
    acm: AcmFrame<K::D>,
)
    requires
        cal.wf(),
        forall|a: int, b: int|
            0 <= a < b < NUM_CCM ==> #[trigger] cal.cts@[a] < #[trigger] cal.cts@[b],
        0 <= j < NUM_CCM,
        forall|key: i64| #[trigger]
            call_ensures(<K as Scene<V>>::cct_key, (&k, &cct), key) ==> key == cal.cts@[j],
        forall|i: usize, lo: K::T, hi: K::T, out: K::D| #[trigger]
            call_ensures(
                <K as Scene<V>>::blend,
                (&k, &cct, Bracket::Between(i, j as usize), lo, hi),
                out,
            ) ==> call_ensures(<K as Scene<V>>::widen, (&k, hi), out),
        is_ccm::<V, K>(k, cal, cct, ccm),
        is_acm::<V, K>(k, cal, cct, acm),
    ensures
        is_interpolated::<V, K>(k, cct, cal.ccm@, Bracket::At(j as usize), ccm),
        is_acm_interpolated::<V, K>(
            k,
            cct,
            cal.acm@,
            NUM_CCM as int,
            Bracket::At(j as usize),
            acm,
        ),
{
    let b = choose|b: Bracket| #[trigger]
        is_cct_bracket::<V, K>(k, cal, cct, b) && is_interpolated::<V, K>(k, cct, cal.ccm@, b, ccm);
    lemma_bracket_of_calibrated::<V, K>(k, cal, cct, j, b);
    lemma_blend_at_the_end::<V, K>(k, cct, cal.ccm@, j, b, ccm);
    let b = choose|b: Bracket| #[trigger]
        is_cct_bracket::<V, K>(k, cal, cct, b) && is_acm_interpolated::<V, K>(
            k,
            cct,
            cal.acm@,
            NUM_CCM as int,
            b,
            acm,
        );
    lemma_bracket_of_calibrated::<V, K>(k, cal, cct, j, b);
    assert forall|s: int| 0 <= s < ACM_NSEC implies is_interpolated::<V, K>(
        k,
        cct,
        sector_column(cal.acm@, s, NUM_CCM as int),
        Bracket::At(j as usize),
        #[trigger] acm.mats@[s],
    ) by {
        lemma_blend_at_the_end::<V, K>(
            k,
            cct,
            sector_column(cal.acm@, s, NUM_CCM as int),
            j,
            b,
            acm.mats@[s],
        );
    }
}

/// A calibrated colour temperature is bracketed at its own place or just below it.
proof fn lemma_bracket_of_calibrated<V, K: Scene<V>>(
    k: K,
    cal: Calibration<K::T>,
    cct: K::D,
    j: int,
    b: Bracket,
)
    requires
        cal.wf(),
        forall|a: int, b: int|
            0 <= a < b < NUM_CCM ==> #[trigger] cal.cts@[a] < #[trigger] cal.cts@[b],
        0 <= j < NUM_CCM,
        forall|key: i64| #[trigger]
            call_ensures(<K as Scene<V>>::cct_key, (&k, &cct), key) ==> key == cal.cts@[j],
        is_cct_bracket::<V, K>(k, cal, cct, b),
    ensures
        b == (if j == 0 {
            Bracket::At(0)
        } else {
            Bracket::Between((j - 1) as usize, j as usize)
        }),
{
    let key = choose|key: i64| #[trigger]
        call_ensures(<K as Scene<V>>::cct_key, (&k, &cct), key) && is_bracket(cal.cts@, key, b);
    let i = choose|i: int| #[trigger]
        is_search_left(cal.cts@, key, i) && b == (if i == 0 {
            Bracket::At(0)
        } else if i == cal.cts@.len() {
            Bracket::At((cal.cts@.len() - 1) as usize)
        } else {
            Bracket::Between((i - 1) as usize, i as usize)
        });
    if i < j {
        assert(cal.cts@[i] < cal.cts@[j]);
    }
    if j < i {
        assert(cal.cts@[j] < key);
    }
}

/// A matrix blended at the upper end of its bracket is that end's.
proof fn lemma_blend_at_the_end<V, K: Scene<V>>(
    k: K,
    cct: K::D,
    m: Seq<[K::T; 9]>,
    j: int,
    b: Bracket,
    out: [K::D; 9],
)
    requires
        0 <= j < NUM_CCM,
        b == (if j == 0 {
            Bracket::At(0)
        } else {
            Bracket::Between((j - 1) as usize, j as usize)
        }),
        forall|i: usize, lo: K::T, hi: K::T, out: K::D| #[trigger]
            call_ensures(
                <K as Scene<V>>::blend,
                (&k, &cct, Bracket::Between(i, j as usize), lo, hi),
                out,
            ) ==> call_ensures(<K as Scene<V>>::widen, (&k, hi), out),
        is_interpolated::<V, K>(k, cct, m, b, out),
    ensures
        is_interpolated::<V, K>(k, cct, m, Bracket::At(j as usize), out),
{
    assert forall|n: int| 0 <= n < 9 implies call_ensures(
        <K as Scene<V>>::widen,
        (&k, m[j][n]),
        #[trigger] out@[n],
    ) by {
        if j > 0 {
            assert(call_ensures(
                <K as Scene<V>>::blend,
                (&k, &cct, Bracket::Between((j - 1) as usize, j as usize), m[j - 1][n], m[j][n]),
                out@[n],
            ));
        }
    }
}

/// The global and the per-sector matrices of one look are blended at the same
/// place: between the same two calibrations, or at the same one. This is of
/// arithmetic that gives one key per colour temperature.
pub proof fn law_matrices_share_their_bracket<V, K: Scene<V>>(
    k: K,
    cal: Calibration<K::T>,
    cct: K::D,
    ccm: [K::D; 9],
    acm: AcmFrame<K::D>,
)
    requires
        forall|x: i64, y: i64| #[trigger]
            call_ensures(<K as Scene<V>>::cct_key, (&k, &cct), x) && #[trigger] call_ensures(
                <K as Scene<V>>::cct_key,
                (&k, &cct),
                y,
            ) ==> x == y,
        is_ccm::<V, K>(k, cal, cct, ccm),
        is_acm::<V, K>(k, cal, cct, acm),
    ensures
        exists|b: Bracket| #[trigger]
            is_cct_bracket::<V, K>(k, cal, cct, b) && is_interpolated::<V, K>(
                k,
                cct,
                cal.ccm@,
                b,
                ccm,
            ) && is_acm_interpolated::<V, K>(k, cct, cal.acm@, NUM_CCM as int, b, acm),
{
    let b = choose|b: Bracket| #[trigger]
        is_cct_bracket::<V, K>(k, cal, cct, b) && is_interpolated::<V, K>(k, cct, cal.ccm@, b, ccm);
    let c = choose|c: Bracket| #[trigger]
        is_cct_bracket::<V, K>(k, cal, cct, c) && is_acm_interpolated::<V, K>(
            k,
            cct,
            cal.acm@,
            NUM_CCM as int,
            c,
            acm,
        );
    let x = choose|x: i64| #[trigger]
        call_ensures(<K as Scene<V>>::cct_key, (&k, &cct), x) && is_bracket(cal.cts@, x, b);
    let y = choose|y: i64| #[trigger]
        call_ensures(<K as Scene<V>>::cct_key, (&k, &cct), y) && is_bracket(cal.cts@, y, c);
    law_bracket_is_unique(cal.cts@, x, b, c);
}

/// A frame without a pixel to divide by counts as neutral.
pub proof fn law_black_frame_is_neutral<V, K: Scene<V>>(
    k: K,
    p: Planes<V>,
    st: AwbStats<K::S>,
    c: Chroma<K::S>,
)
    requires
        is_stats::<V, K>(k, p, st),
        is_settled_chroma::<V, K>(k, p, st, c),
        forall|i: int| 0 <= i < st.flags.len() ==> !(#[trigger] st.flags@[i]).valid,
    ensures
        call_ensures(<K as Scene<V>>::neutral, (&k,), c.rg),
        call_ensures(<K as Scene<V>>::neutral, (&k,), c.bg),
{
    lemma_none_valid(st.flags@);
    law_selection_never_collapses(st.flags@, st.voters);
}

/// An evenly lit frame has its own chroma, whichever pixels vote and however they are
/// summed up: where red over green is one ratio at every valid pixel, and blue over green
/// is one, those are the chroma. This is of arithmetic for which the median of one value,
/// and the mean of pixels of one ratio, is that: `ratio` reads the ratio of a sample and a
/// green, and `val` a chroma.
pub proof fn law_even_light_has_its_own_chroma<V, K: Scene<V>>(
    k: K,
    p: Planes<V>,
    c: Chroma<K::S>,
    ratio: spec_fn(V, K::S) -> i32,
    val: spec_fn(K::S) -> int,
    red: i32,
    blue: i32,
    i: int,
)
    requires
        p.wf(),
        is_scene_chroma::<V, K>(k, p, c),
        forall|v: V, g: K::S, key: i32| #[trigger]
            call_ensures(<K as Scene<V>>::ratio_key, (&k, v, g), key) ==> key == ratio(v, g),
        forall|a: i32, s: K::S| #[trigger]
            call_ensures(<K as Scene<V>>::middle, (&k, Middle { lo: a, hi: a }), s) ==> val(s) == a,
        forall|plane: Vec<V>, green: Vec<K::S>, idx: Vec<usize>, a: i32, s: K::S|
            #![trigger
                call_ensures(<K as Scene<V>>::mean, (&k, &plane, &green, &idx), s),
                is_one_ratio(plane@, green@, idx@, ratio, a)]
            call_ensures(<K as Scene<V>>::mean, (&k, &plane, &green, &idx), s) && is_one_ratio(
                plane@,
                green@,
                idx@,
                ratio,
                a,
            ) ==> val(s) == a,
        forall|n: int, g: K::S|
            #![trigger call_ensures(<K as Scene<V>>::green, (&k, p.gr@[n], p.gb@[n]), g)]
            0 <= n < p.r.len() && call_ensures(<K as Scene<V>>::green, (&k, p.gr@[n], p.gb@[n]), g)
                && !call_ensures(<K as Scene<V>>::valid, (&k, g), false) ==> ratio(p.r@[n], g)
                == red && ratio(p.b@[n], g) == blue,
        forall|g: K::S| #![trigger call_ensures(<K as Scene<V>>::valid, (&k, g), true)]
            !(call_ensures(<K as Scene<V>>::valid, (&k, g), true) && call_ensures(
                <K as Scene<V>>::valid,
                (&k, g),
                false,
            )),
        0 <= i < p.r.len(),
        forall|g: K::S| #[trigger]
            call_ensures(<K as Scene<V>>::green, (&k, p.gr@[i], p.gb@[i]), g) ==> !call_ensures(
                <K as Scene<V>>::valid,
                (&k, g),
                false,
            ),
    ensures
        val(c.rg) == red,
        val(c.bg) == blue,
{
    let st = choose|st: AwbStats<K::S>| #[trigger]
        is_stats::<V, K>(k, p, st) && is_settled_chroma::<V, K>(k, p, st, c);
    assert(is_classified::<V, K>(
        k,
        p.r[i],
        st.green@[i],
        p.b[i],
        st.bright,
        st.flags@[i],
    ));
    assert(call_ensures(<K as Scene<V>>::green, (&k, p.gr@[i], p.gb@[i]), st.green@[i]));
    assert(st.flags@[i].valid);
    law_few_pixels_are_averaged(st.flags@, st.voters, seq![i]);
    assert forall|n: int| 0 <= n < st.flags.len() && (#[trigger] st.flags@[n]).valid implies ratio(
        p.r@[n],
        st.green@[n],
    ) == red && ratio(p.b@[n], st.green@[n]) == blue by {
        assert(is_classified::<V, K>(
            k,
            p.r[n],
            st.green@[n],
            p.b[n],
            st.bright,
            st.flags@[n],
        ));
        assert(call_ensures(<K as Scene<V>>::valid, (&k, st.green@[n]), true));
        assert(call_ensures(<K as Scene<V>>::green, (&k, p.gr@[n], p.gb@[n]), st.green@[n]));
    }
    match st.voters {
        Voters::Median { mask, idx } => {
            let red_keys = Seq::new(idx@.len(), |j: int| red);
            let blue_keys = Seq::new(idx@.len(), |j: int| blue);
            assert forall|j: int| 0 <= j < idx.len() implies st.flags@[#[trigger] idx@[j] as int].valid
                by {
                assert(keeps(mask, st.flags@[idx@[j] as int]));
            }
            law_chroma_is_the_voters::<V, K>(k, p, st, red_keys, blue_keys);
            let (rg, bg) = st.chroma->0;
            assert(within(rg, red as int, red as int));
            assert(within(bg, blue as int, blue as int));
            assert(rg == (Middle { lo: red, hi: red }));
            assert(bg == (Middle { lo: blue, hi: blue }));
        },
        Voters::Mean { idx } => {
            assert forall|j: int| 0 <= j < idx.len() implies 0 <= #[trigger] idx@[j] < p.r.len()
                && st.flags@[idx@[j] as int].valid by {
                assert(idx@.contains(idx@[j]));
            }
            assert(is_one_ratio(p.r@, st.green@, idx@, ratio, red));
            assert(is_one_ratio(p.b@, st.green@, idx@, ratio, blue));
        },
        Voters::Neutral => {},
    }
}

/// The plane over green is one ratio at the given pixels, of which there are some.
pub open spec fn is_one_ratio<V, S>(
    plane: Seq<V>,
    green: Seq<S>,
    idx: Seq<usize>,
    ratio: spec_fn(V, S) -> i32,
    a: i32,
) -> bool {
    &&& idx.len() > 0
    &&& forall|j: int|
        0 <= j < idx.len() ==> ratio(plane[#[trigger] idx[j] as int], green[idx[j] as int]) == a
}

/// Smoothing moves the chroma part of the way: from the previous one towards the measured
/// one, red over green by red over green and blue over green by blue over green. Without a
/// previous one it is the measured one. This is of arithmetic that moves a value by `part`
/// in `whole` of the way; `val` reads it.
pub proof fn law_smoothing_moves_part_of_the_way<V, K: Scene<V>>(
    k: K,
    prev: Option<Chroma<K::S>>,
    new: Chroma<K::S>,
    out: Chroma<K::S>,
    val: spec_fn(K::S) -> int,
    part: int,
    whole: int,
)
    requires
        is_smoothed::<V, K>(k, prev, new, out),
        forall|a: K::S, b: K::S, c: K::S| #[trigger]
            call_ensures(<K as Scene<V>>::smooth, (&k, a, b), c) ==> whole * (val(c) - val(a))
                == part * (val(b) - val(a)),
    ensures
        match prev {
            Some(p) => {
                &&& whole * (val(out.rg) - val(p.rg)) == part * (val(new.rg) - val(p.rg))
                &&& whole * (val(out.bg) - val(p.bg)) == part * (val(new.bg) - val(p.bg))
            },
            None => val(out.rg) == val(new.rg) && val(out.bg) == val(new.bg),
        },
{
}

/// A followed scene moves part of the way to what was measured, and the estimate is made
/// of where it got to, not of the measurement. `red` and `blue` are what the planes
/// measure, and the arithmetic is as in [`law_smoothing_moves_part_of_the_way`]. `clean`
/// says what a chroma is made sane to, and `gains` what the gains for a chroma are: those
/// of the sane one.
pub proof fn law_followed_scene_lags_the_measurement<V, K: Scene<V>>(
    k: K,
    cal: Calibration<K::T>,
    p: Planes<V>,
    old: Chroma<K::S>,
    prev: Option<usize>,
    new: Chroma<K::S>,
    look: Look<K::S, K::D>,
    val: spec_fn(K::S) -> int,
    clean: spec_fn(int) -> int,
    gains: spec_fn(int, int) -> Seq<K::D>,
    red: int,
    blue: int,
    part: int,
    whole: int,
)
    requires
        is_followed::<V, K>(k, cal, p, Some(old), prev, new, look),
        forall|c: Chroma<K::S>| #[trigger]
            is_scene_chroma::<V, K>(k, p, c) ==> val(c.rg) == red && val(c.bg) == blue,
        forall|a: K::S, b: K::S, c: K::S| #[trigger]
            call_ensures(<K as Scene<V>>::smooth, (&k, a, b), c) ==> whole * (val(c) - val(a))
                == part * (val(b) - val(a)),
        forall|a: K::S, b: K::S| #[trigger]
            call_ensures(<K as Scene<V>>::sane, (&k, a), b) ==> val(b) == clean(val(a)),
        forall|c: Chroma<K::S>, g: [K::D; 3]| #[trigger]
            call_ensures(<K as Scene<V>>::gains, (&k, c), g) ==> g@ == gains(val(c.rg), val(c.bg)),
    ensures
        whole * (val(new.rg) - val(old.rg)) == part * (red - val(old.rg)),
        whole * (val(new.bg) - val(old.bg)) == part * (blue - val(old.bg)),
        val(look.est.chroma.rg) == clean(val(new.rg)),
        val(look.est.chroma.bg) == clean(val(new.bg)),
        look.est.gains@ == gains(clean(val(new.rg)), clean(val(new.bg))),
{
}

/// The colour temperature is read off the nearest of the four segments of the white locus,
/// the first of several equally near. `dist` is how far the chroma is from each, and
/// `degrees` what it projects to there.
pub proof fn law_temperature_is_that_of_the_nearest_segment<V, K: Scene<V>>(
    k: K,
    c: Chroma<K::S>,
    cct: K::D,
    dist: Seq<i64>,
    degrees: spec_fn(K::D) -> int,
    projected: Seq<int>,
    i: int,
)
    requires
        is_cct::<V, K>(k, c, cct),
        dist.len() == 4,
        projected.len() == 4,
        forall|s: usize, key: i64| #[trigger]
            call_ensures(<K as Scene<V>>::segment_key, (&k, s, c), key) && s < 4 ==> key
                == dist[s as int],
        forall|s: usize, t: K::D| #[trigger]
            call_ensures(<K as Scene<V>>::cct, (&k, s, c), t) && s < 4 ==> degrees(t)
                == projected[s as int],
        0 <= i < 4,
        forall|j: int| 0 <= j < i ==> dist[i] < #[trigger] dist[j],
        forall|j: int| i < j < 4 ==> dist[i] <= #[trigger] dist[j],
    ensures
        degrees(cct) == projected[i],
{
    let (keys, n) = choose|keys: Seq<i64>, n: int|
        {
            &&& #[trigger] are_segment_keys::<V, K>(k, c, keys)
            &&& #[trigger] is_first_min(keys, n)
            &&& call_ensures(<K as Scene<V>>::cct, (&k, n as usize, c), cct)
        };
    assert forall|j: int| 0 <= j < 4 implies keys[j] == dist[j] by {
        assert(call_ensures(<K as Scene<V>>::segment_key, (&k, j as usize, c), keys[j]));
    }
    assert(keys =~= dist);
    if n < i {
        assert(dist[i] < dist[n]);
        assert(keys[n] <= keys[i]);
    }
    if n > i {
        assert(keys[n] < keys[i]);
        assert(dist[i] <= dist[n]);
    }
}

/// An estimate's colour temperature is that of its own chroma, which was made sane, as in
/// [`law_temperature_is_that_of_the_nearest_segment`].
pub proof fn law_estimated_temperature_is_that_of_its_chroma<V, K: Scene<V>>(
    k: K,
    cal: Calibration<K::T>,
    c: Chroma<K::S>,
    prev: Option<usize>,
    est: Estimate<K::S, K::D>,
    dist: Seq<i64>,
    degrees: spec_fn(K::D) -> int,
    projected: Seq<int>,
    i: int,
)
    requires
        is_estimate_from::<V, K>(k, cal, c, prev, est),
        dist.len() == 4,
        projected.len() == 4,
        forall|s: usize, key: i64| #[trigger]
            call_ensures(<K as Scene<V>>::segment_key, (&k, s, est.chroma), key) && s < 4 ==> key
                == dist[s as int],
        forall|s: usize, t: K::D| #[trigger]
            call_ensures(<K as Scene<V>>::cct, (&k, s, est.chroma), t) && s < 4 ==> degrees(t)
                == projected[s as int],
        0 <= i < 4,
        forall|j: int| 0 <= j < i ==> dist[i] < #[trigger] dist[j],
        forall|j: int| i < j < 4 ==> dist[i] <= #[trigger] dist[j],
    ensures
        degrees(est.cct) == projected[i],
{
    law_temperature_is_that_of_the_nearest_segment::<V, K>(
        k,
        est.chroma,
        est.cct,
        dist,
        degrees,
        projected,
        i,
    );
}

/// An estimate's light source is the first of the nearest of the five, unless there is a
/// previous one no further than the nearest one's relaxed distance: that is kept. `dist`
/// is how far the estimate's chroma is from each, and `relaxed` the relaxed distances.
pub proof fn law_estimated_source_is_near<V, K: Scene<V>>(
    k: K,
    cal: Calibration<K::T>,
    c: Chroma<K::S>,
    prev: Option<usize>,
    est: Estimate<K::S, K::D>,
    dist: Seq<i64>,
    relaxed: Seq<i64>,
    i: int,
)
    requires
        is_estimate_from::<V, K>(k, cal, c, prev, est),
        prev is Some ==> prev->0 < 5,
        dist.len() == 5,
        relaxed.len() == 5,
        forall|s: usize, key: i64| #[trigger]
            call_ensures(<K as Scene<V>>::distance_key, (&k, s, est.chroma), key) && s < 5 ==> key
                == dist[s as int],
        forall|s: usize, key: i64| #[trigger]
            call_ensures(<K as Scene<V>>::relaxed_key, (&k, s, est.chroma), key) && s < 5 ==> key
                == relaxed[s as int],
        0 <= i < 5,
        forall|j: int| 0 <= j < i ==> dist[i] < #[trigger] dist[j],
        forall|j: int| i < j < 5 ==> dist[i] <= #[trigger] dist[j],
    ensures
        prev is None ==> est.ls == i,
        prev is Some && dist[prev->0 as int] <= relaxed[i] ==> est.ls == prev->0,
        prev is Some && dist[prev->0 as int] > relaxed[i] ==> est.ls == i,
{
    let (ds, rs, best) = choose|ds: Seq<i64>, rs: Seq<i64>, best: int|
        {
            &&& #[trigger] are_distances::<V, K>(k, est.chroma, ds, rs)
            &&& #[trigger] is_first_min(ds, best)
            &&& est.ls == settled(ds, rs, prev, best)
        };
    assert forall|j: int| 0 <= j < 5 implies ds[j] == dist[j] && rs[j] == relaxed[j] by {
        assert(call_ensures(<K as Scene<V>>::distance_key, (&k, j as usize, est.chroma), ds[j]));
        assert(call_ensures(<K as Scene<V>>::relaxed_key, (&k, j as usize, est.chroma), rs[j]));
    }
    assert(ds =~= dist && rs =~= relaxed);
    if best < i {
        assert(dist[i] < dist[best]);
        assert(ds[best] <= ds[i]);
    }
    if best > i {
        assert(ds[best] < ds[i]);
        assert(dist[i] <= dist[best]);
    }
}

/// The matrices of an estimate come from the calibrations on either side of its colour
/// temperature: entry by entry, the global one from those two global ones, and each of the
/// twenty-four sectors from that sector's two; at or below the first calibration, and above
/// the last one, they are that calibration's. `key` is the temperature's key, and `lo` and
/// `hi` the calibrations around it (the same one at an end). `between` is what the
/// arithmetic makes of two entries, and `val` reads a matrix entry.
pub proof fn law_matrices_come_from_around_the_temperature<V, K: Scene<V>>(
    k: K,
    cal: Calibration<K::T>,
    c: Chroma<K::S>,
    prev: Option<usize>,
    look: Look<K::S, K::D>,
    key: i64,
    lo: int,
    hi: int,
    between: spec_fn(int, int, K::T, K::T) -> K::D,
    alone: spec_fn(K::T) -> K::D,
    s: int,
    n: int,
)
    requires
        cal.wf(),
        is_look_from::<V, K>(k, cal, c, prev, look),
        forall|a: i64| #[trigger]
            call_ensures(<K as Scene<V>>::cct_key, (&k, &look.est.cct), a) ==> a == key,
        forall|i: usize, j: usize, a: K::T, b: K::T, d: K::D| #[trigger]
            call_ensures(
                <K as Scene<V>>::blend,
                (&k, &look.est.cct, Bracket::Between(i, j), a, b),
                d,
            ) ==> d == between(i as int, j as int, a, b),
        forall|a: K::T, d: K::D| #[trigger]
            call_ensures(<K as Scene<V>>::widen, (&k, a), d) ==> d == alone(a),
        forall|i: int, j: int| 0 <= i < j < 5 ==> #[trigger] cal.cts@[i] < #[trigger] cal.cts@[j],
        0 <= lo <= hi < 5,
        lo == hi && hi == 0 ==> key <= cal.cts@[0],
        lo == hi && hi != 0 ==> hi == 4 && key > cal.cts@[4],
        lo < hi ==> hi == lo + 1 && cal.cts@[lo] < key <= cal.cts@[hi],
        0 <= s < 24,
        0 <= n < 9,
    ensures
        lo < hi ==> look.est.ccm@[n] == between(lo, hi, cal.ccm@[lo]@[n], cal.ccm@[hi]@[n]),
        lo < hi ==> look.acm.mats@[s]@[n] == between(
            lo,
            hi,
            cal.acm@[24 * lo + s]@[n],
            cal.acm@[24 * hi + s]@[n],
        ),
        lo == hi ==> look.est.ccm@[n] == alone(cal.ccm@[lo]@[n]),
        lo == hi ==> look.acm.mats@[s]@[n] == alone(cal.acm@[24 * lo + s]@[n]),
{
    let want = if lo < hi {
        Bracket::Between(lo as usize, hi as usize)
    } else {
        Bracket::At(lo as usize)
    };
    let j: int = if lo < hi {
        hi
    } else if lo == 0 {
        0
    } else {
        5
    };
    assert forall|i: int| 0 <= i < j implies #[trigger] cal.cts@[i] < key by {
        if lo < hi && i < lo {
            assert(cal.cts@[i] < cal.cts@[lo]);
        }
        if lo == hi && i < 4 {
            assert(cal.cts@[i] < cal.cts@[4]);
        }
    }
    assert(is_search_left(cal.cts@, key, j));
    assert(is_bracket(cal.cts@, key, want));
    let b = choose|b: Bracket| #[trigger]
        is_cct_bracket::<V, K>(k, cal, look.est.cct, b) && is_interpolated::<V, K>(
            k,
            look.est.cct,
            cal.ccm@,
            b,
            look.est.ccm,
        );
    let x = choose|x: i64| #[trigger]
        call_ensures(<K as Scene<V>>::cct_key, (&k, &look.est.cct), x) && is_bracket(
            cal.cts@,
            x,
            b,
        );
    law_bracket_is_unique(cal.cts@, key, b, want);
    let d = choose|d: Bracket| #[trigger]
        is_cct_bracket::<V, K>(k, cal, look.est.cct, d) && is_acm_interpolated::<V, K>(
            k,
            look.est.cct,
            cal.acm@,
            NUM_CCM as int,
            d,
            look.acm,
        );
    let y = choose|y: i64| #[trigger]
        call_ensures(<K as Scene<V>>::cct_key, (&k, &look.est.cct), y) && is_bracket(
            cal.cts@,
            y,
            d,
        );
    law_bracket_is_unique(cal.cts@, key, d, want);
    let column = sector_column(cal.acm@, s, NUM_CCM as int);
    assert(is_interpolated::<V, K>(k, look.est.cct, column, want, look.acm.mats@[s]));
    assert(column[lo] == cal.acm@[24 * lo + s]);
    assert(column[hi] == cal.acm@[24 * hi + s]);
}

/// A followed scene keeps its light source while that is near enough, as in
/// [`law_estimated_source_is_near`], and its matrices and gains are those of one look, so
/// that the source is judged by the very chroma that the gains are made of.
pub proof fn law_followed_scene_keeps_a_near_source<V, K: Scene<V>>(
    k: K,
    cal: Calibration<K::T>,
    p: Planes<V>,
    old: Option<Chroma<K::S>>,
    prev: Option<usize>,
    new: Chroma<K::S>,
    look: Look<K::S, K::D>,
    dist: Seq<i64>,
    relaxed: Seq<i64>,
    i: int,
)
    requires
        is_followed::<V, K>(k, cal, p, old, prev, new, look),
        prev is Some ==> prev->0 < 5,
        dist.len() == 5,
        relaxed.len() == 5,
        forall|s: usize, key: i64| #[trigger]
            call_ensures(<K as Scene<V>>::distance_key, (&k, s, look.est.chroma), key) && s < 5
                ==> key == dist[s as int],
        forall|s: usize, key: i64| #[trigger]
            call_ensures(<K as Scene<V>>::relaxed_key, (&k, s, look.est.chroma), key) && s < 5
                ==> key == relaxed[s as int],
        0 <= i < 5,
        forall|j: int| 0 <= j < i ==> dist[i] < #[trigger] dist[j],
        forall|j: int| i < j < 5 ==> dist[i] <= #[trigger] dist[j],
    ensures
        prev is None ==> look.est.ls == i,
        prev is Some && dist[prev->0 as int] <= relaxed[i] ==> look.est.ls == prev->0,
        prev is Some && dist[prev->0 as int] > relaxed[i] ==> look.est.ls == i,
{
    law_estimated_source_is_near::<V, K>(k, cal, new, prev, look.est, dist, relaxed, i);
}

/// The chroma is the median of the voters' ratios, red over green and blue over green apart:
/// the average of the two middle ones once they are sorted (`red` and `blue`), which are the
/// same one for an odd number of voters. This is of arithmetic that averages two middles;
/// `val` reads a chroma, and `ratio` the key of a sample over a green.
pub proof fn law_chroma_is_the_median<V, K: Scene<V>>(
    k: K,
    p: Planes<V>,
    st: AwbStats<K::S>,
    c: Chroma<K::S>,
    idx: Vec<usize>,
    ratio: spec_fn(V, K::S) -> i32,
    val: spec_fn(K::S) -> int,
    red: Seq<i32>,
    blue: Seq<i32>,
)
    requires
        is_stats::<V, K>(k, p, st),
        is_settled_chroma::<V, K>(k, p, st, c),
        st.voters matches Voters::Median { mask: _, idx: voters } && voters == idx,
        forall|v: V, g: K::S, key: i32| #[trigger]
            call_ensures(<K as Scene<V>>::ratio_key, (&k, v, g), key) ==> key == ratio(v, g),
        forall|m: Middle, s: K::S| #[trigger]
            call_ensures(<K as Scene<V>>::middle, (&k, m), s) ==> 2 * val(s) == m.lo + m.hi,
        red.to_multiset() == Seq::new(
            idx@.len(),
            |j: int| ratio(p.r@[idx@[j] as int], st.green@[idx@[j] as int]),
        ).to_multiset(),
        blue.to_multiset() == Seq::new(
            idx@.len(),
            |j: int| ratio(p.b@[idx@[j] as int], st.green@[idx@[j] as int]),
        ).to_multiset(),
        forall|i: int, j: int| 0 <= i <= j < red.len() ==> #[trigger] red[i] <= #[trigger] red[j],
        forall|i: int, j: int|
            0 <= i <= j < blue.len() ==> #[trigger] blue[i] <= #[trigger] blue[j],
    ensures
        idx.len() >= 100,
        ({
            let n = idx@.len();
            &&& 2 * val(c.rg) == red[(n - 1) / 2] + red[n - 1 - (n - 1) / 2]
            &&& 2 * val(c.bg) == blue[(n - 1) / 2] + blue[n - 1 - (n - 1) / 2]
        }),
{
    let reds = Seq::new(
        idx@.len(),
        |j: int| ratio(p.r@[idx@[j] as int], st.green@[idx@[j] as int]),
    );
    let blues = Seq::new(
        idx@.len(),
        |j: int| ratio(p.b@[idx@[j] as int], st.green@[idx@[j] as int]),
    );
    let (rg, bg) = st.chroma->0;
    lemma_middle_of_ratios::<V, K>(k, p.r@, st.green@, idx@, reds, rg);
    lemma_middle_of_ratios::<V, K>(k, p.b@, st.green@, idx@, blues, bg);
    law_middle_is_a_place_when_sorted(reds, red, rg);
    law_middle_is_a_place_when_sorted(blues, blue, bg);
}

/// Where too few pixels are valid for a median, the chroma is the mean over all of them:
/// red of the red plane and blue of the blue plane, both over green. `mean` is what the
/// arithmetic makes of a plane, green and a list of pixels.
pub proof fn law_few_pixels_give_their_mean<V, K: Scene<V>>(
    k: K,
    p: Planes<V>,
    st: AwbStats<K::S>,
    c: Chroma<K::S>,
    idx: Vec<usize>,
    mean: spec_fn(Seq<V>, Seq<K::S>, Seq<usize>) -> int,
    val: spec_fn(K::S) -> int,
)
    requires
        p.wf(),
        is_stats::<V, K>(k, p, st),
        is_settled_chroma::<V, K>(k, p, st, c),
        st.voters matches Voters::Mean { idx: voters } && voters == idx,
        forall|plane: Vec<V>, green: Vec<K::S>, at: Vec<usize>, s: K::S| #[trigger]
            call_ensures(<K as Scene<V>>::mean, (&k, &plane, &green, &at), s) ==> val(s) == mean(
                plane@,
                green@,
                at@,
            ),
    ensures
        val(c.rg) == mean(p.r@, st.green@, idx@),
        val(c.bg) == mean(p.b@, st.green@, idx@),
        forall|i: int|
            0 <= i < p.r.len() ==> (#[trigger] idx@.contains(i as usize) <==> st.flags@[i].valid),
{
    law_few_pixels_are_averaged(st.flags@, st.voters, Seq::empty());
}

} // verus!
