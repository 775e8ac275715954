//! Where the arithmetic gives one result per input, so does the pipeline.
//!
//! Contracts elsewhere say that a result is one that the arithmetic yields. For
//! arithmetic that yields equal results on equal inputs ([`is_determined`]), as
//! floating point does, the laws here turn that into equality: of statistics,
//! estimates and images, byte for byte.

use vstd::prelude::*;

use crate::order::{
    is_first_min, is_middle, is_percentile, law_rank_is_unique, Middle, Percentile,
};
use crate::pipeline::awb::{
    are_keys, are_near, are_ratios, is_choice, is_classified, is_ratio_middle, is_selection,
    is_stats, keeps, kept, lemma_kept_positive, settled, strictness, AwbStats, Mask, PixelFlags,
    Voters, AWB_BRIGHT_PERCENTILE,
};
use crate::pipeline::bayer::{is_split, site_at, Planes, Site};
use crate::pipeline::colour::{
    is_acm_color, is_acm_interpolated, is_bracket, is_coloured, is_hue_corrected, is_interpolated,
    is_sector_entry, is_sector_matrix, law_bracket_is_unique, sector_column, Bracket,
};
use crate::pipeline::kernels::{Band, Hue, Kernels};
use crate::pipeline::lca::Lca;
use crate::pipeline::mhc::{
    channels, is_debayered, is_mhc, is_planar, planar_rgb, taps_at, Debayer, Filtered, Planar,
    Taps,
};
use crate::pipeline::processor::{
    is_full, is_look, is_processed, is_render, is_render_mhc, is_step, law_first_frame_is_one_shot,
    out_dims, DebayerMode, Processed, Processor,
};
use crate::pipeline::render::{
    gains_at, is_displaced, is_full_pixel, is_half_pixel, is_half_render, is_lca_pixel,
    is_lca_render, is_mhc_pixel, is_mhc_render, is_offset, is_sampled, is_shift,
    law_zero_shift_changes_nothing, pixel, samples_at, stays, zeros, Rgb8, Shift, Spot, Tile,
};
use crate::pipeline::scene::{
    are_distances, are_segment_keys, is_cct, is_cct_bracket, is_look_from, is_scene_chroma,
    is_settled_chroma, is_source, Calibration, Chroma, Look, Scene, ACM_NSEC, NUM_CCM,
};
use crate::pipeline::shading::{is_cfa_of_frame, is_grids, Grids, Quad};
use crate::raw::{is_blc_frame, Fraction, RawFrame, RAW_BYTES};
use crate::rows::{at, lemma_cell_of_index, lemma_grids_equal};

verus! {

/// Equal inputs give equal results in scene estimation. Lists are equal when they
/// hold the same values.
pub open spec fn scene_is_determined<V, K: Scene<V>>(k: K) -> bool {
    &&& forall|gr: V, gb: V, a: K::S, b: K::S| #[trigger]
        call_ensures(<K as Scene<V>>::green, (&k, gr, gb), a) && #[trigger] call_ensures(
            <K as Scene<V>>::green,
            (&k, gr, gb),
            b,
        ) ==> a == b
    &&& forall|g: K::S, a: i32, b: i32| #[trigger]
        call_ensures(<K as Scene<V>>::green_key, (&k, g), a) && #[trigger] call_ensures(
            <K as Scene<V>>::green_key,
            (&k, g),
            b,
        ) ==> a == b
    &&& forall|g: K::S, a: bool, b: bool| #[trigger]
        call_ensures(<K as Scene<V>>::valid, (&k, g), a) && #[trigger] call_ensures(
            <K as Scene<V>>::valid,
            (&k, g),
            b,
        ) ==> a == b
    &&& forall|r: V, g: K::S, c: V, a: bool, b: bool| #[trigger]
        call_ensures(<K as Scene<V>>::unclipped, (&k, r, g, c), a) && #[trigger] call_ensures(
            <K as Scene<V>>::unclipped,
            (&k, r, g, c),
            b,
        ) ==> a == b
    &&& forall|g: K::S, p: Option<Percentile>, a: bool, b: bool| #[trigger]
        call_ensures(<K as Scene<V>>::bright, (&k, g, p), a) && #[trigger] call_ensures(
            <K as Scene<V>>::bright,
            (&k, g, p),
            b,
        ) ==> a == b
    &&& forall|i: usize, r: V, g: K::S, c: V, a: bool, b: bool| #[trigger]
        call_ensures(<K as Scene<V>>::near, (&k, i, r, g, c), a) && #[trigger] call_ensures(
            <K as Scene<V>>::near,
            (&k, i, r, g, c),
            b,
        ) ==> a == b
    &&& forall|v: V, g: K::S, a: i32, b: i32| #[trigger]
        call_ensures(<K as Scene<V>>::ratio_key, (&k, v, g), a) && #[trigger] call_ensures(
            <K as Scene<V>>::ratio_key,
            (&k, v, g),
            b,
        ) ==> a == b
    &&& forall|m: Middle, a: K::S, b: K::S| #[trigger]
        call_ensures(<K as Scene<V>>::middle, (&k, m), a) && #[trigger] call_ensures(
            <K as Scene<V>>::middle,
            (&k, m),
            b,
        ) ==> a == b
    &&& forall|
        p: Vec<V>,
        q: Vec<V>,
        g: Vec<K::S>,
        h: Vec<K::S>,
        i: Vec<usize>,
        j: Vec<usize>,
        a: K::S,
        b: K::S,
    |
        p@ == q@ && g@ == h@ && i@ == j@ && #[trigger] call_ensures(
            <K as Scene<V>>::mean,
            (&k, &p, &g, &i),
            a,
        ) && #[trigger] call_ensures(<K as Scene<V>>::mean, (&k, &q, &h, &j), b) ==> a == b
    &&& forall|a: K::S, b: K::S| #[trigger]
        call_ensures(<K as Scene<V>>::neutral, (&k,), a) && #[trigger] call_ensures(
            <K as Scene<V>>::neutral,
            (&k,),
            b,
        ) ==> a == b
    &&& forall|c: K::S, a: K::S, b: K::S| #[trigger]
        call_ensures(<K as Scene<V>>::sane, (&k, c), a) && #[trigger] call_ensures(
            <K as Scene<V>>::sane,
            (&k, c),
            b,
        ) ==> a == b
    &&& forall|c: Chroma<K::S>, a: [K::D; 3], b: [K::D; 3]| #[trigger]
        call_ensures(<K as Scene<V>>::gains, (&k, c), a) && #[trigger] call_ensures(
            <K as Scene<V>>::gains,
            (&k, c),
            b,
        ) ==> a == b
    &&& forall|i: usize, c: Chroma<K::S>, a: i64, b: i64| #[trigger]
        call_ensures(<K as Scene<V>>::segment_key, (&k, i, c), a) && #[trigger] call_ensures(
            <K as Scene<V>>::segment_key,
            (&k, i, c),
            b,
        ) ==> a == b
    &&& forall|i: usize, c: Chroma<K::S>, a: K::D, b: K::D| #[trigger]
        call_ensures(<K as Scene<V>>::cct, (&k, i, c), a) && #[trigger] call_ensures(
            <K as Scene<V>>::cct,
            (&k, i, c),
            b,
        ) ==> a == b
    &&& forall|i: usize, c: Chroma<K::S>, a: i64, b: i64| #[trigger]
        call_ensures(<K as Scene<V>>::distance_key, (&k, i, c), a) && #[trigger] call_ensures(
            <K as Scene<V>>::distance_key,
            (&k, i, c),
            b,
        ) ==> a == b
    &&& forall|i: usize, c: Chroma<K::S>, a: i64, b: i64| #[trigger]
        call_ensures(<K as Scene<V>>::relaxed_key, (&k, i, c), a) && #[trigger] call_ensures(
            <K as Scene<V>>::relaxed_key,
            (&k, i, c),
            b,
        ) ==> a == b
    &&& forall|cct: K::D, a: i64, b: i64| #[trigger]
        call_ensures(<K as Scene<V>>::cct_key, (&k, &cct), a) && #[trigger] call_ensures(
            <K as Scene<V>>::cct_key,
            (&k, &cct),
            b,
        ) ==> a == b
    &&& forall|t: K::T, a: K::D, b: K::D| #[trigger]
        call_ensures(<K as Scene<V>>::widen, (&k, t), a) && #[trigger] call_ensures(
            <K as Scene<V>>::widen,
            (&k, t),
            b,
        ) ==> a == b
    &&& forall|cct: K::D, at: Bracket, lo: K::T, hi: K::T, a: K::D, b: K::D| #[trigger]
        call_ensures(<K as Scene<V>>::blend, (&k, &cct, at, lo, hi), a) && #[trigger] call_ensures(
            <K as Scene<V>>::blend,
            (&k, &cct, at, lo, hi),
            b,
        ) ==> a == b
}

/// Equal inputs give equal results in the debayer filters.
pub open spec fn debayer_is_determined<T, U, K: Debayer<T, U>>(k: K) -> bool {
    forall|t: Taps<T>, a: Filtered<U>, b: Filtered<U>| #[trigger]
        call_ensures(<K as Debayer<T, U>>::filters, (&k, t), a) && #[trigger] call_ensures(
            <K as Debayer<T, U>>::filters,
            (&k, t),
            b,
        ) ==> a == b
}

/// Equal inputs give equal results in the whole arithmetic.
pub open spec fn is_determined<K: Kernels>(k: K) -> bool {
    &&& scene_is_determined::<u16, K>(k)
    &&& debayer_is_determined::<K::S, K::S, K>(k)
    &&& forall|q: Quad<u32>, fy: Fraction, fx: Fraction, a: K::G, b: K::G| #[trigger]
        call_ensures(<K as Kernels>::bilinear, (&k, q, fy, fx), a) && #[trigger] call_ensures(
            <K as Kernels>::bilinear,
            (&k, q, fy, fx),
            b,
        ) ==> a == b
    &&& forall|v: u16, g: K::G, d: K::D, a: K::S, b: K::S| #[trigger]
        call_ensures(<K as Kernels>::shade, (&k, v, g, d), a) && #[trigger] call_ensures(
            <K as Kernels>::shade,
            (&k, v, g, d),
            b,
        ) ==> a == b
    &&& forall|m: [K::D; 3], t: Tile<u16>, g: Tile<K::G>, a: K::P, b: K::P| #[trigger]
        call_ensures(<K as Kernels>::tile, (&k, &m, t, g), a) && #[trigger] call_ensures(
            <K as Kernels>::tile,
            (&k, &m, t, g),
            b,
        ) ==> a == b
    &&& forall|r: K::S, g: K::S, c: K::S, a: K::P, b: K::P| #[trigger]
        call_ensures(<K as Kernels>::linear, (&k, r, g, c), a) && #[trigger] call_ensures(
            <K as Kernels>::linear,
            (&k, r, g, c),
            b,
        ) ==> a == b
    &&& forall|p: K::P, a: K::P, b: K::P| #[trigger]
        call_ensures(<K as Kernels>::highlight, (&k, p), a) && #[trigger] call_ensures(
            <K as Kernels>::highlight,
            (&k, p),
            b,
        ) ==> a == b
    &&& forall|m: [K::D; 9], p: K::P, a: K::P, b: K::P| #[trigger]
        call_ensures(<K as Kernels>::matrix, (&k, &m, p), a) && #[trigger] call_ensures(
            <K as Kernels>::matrix,
            (&k, &m, p),
            b,
        ) ==> a == b
    &&& forall|p: K::P, a: Option<Hue<K::Q>>, b: Option<Hue<K::Q>>| #[trigger]
        call_ensures(<K as Kernels>::hue, (&k, p), a) && #[trigger] call_ensures(
            <K as Kernels>::hue,
            (&k, p),
            b,
        ) ==> a == b
    &&& forall|q: K::Q, x: K::D, y: K::D, a: K::D, b: K::D| #[trigger]
        call_ensures(<K as Kernels>::mix, (&k, q, x, y), a) && #[trigger] call_ensures(
            <K as Kernels>::mix,
            (&k, q, x, y),
            b,
        ) ==> a == b
    &&& forall|at: Band, p: K::P, a: K::P, b: K::P| #[trigger]
        call_ensures(<K as Kernels>::desaturate, (&k, at, p), a) && #[trigger] call_ensures(
            <K as Kernels>::desaturate,
            (&k, at, p),
            b,
        ) ==> a == b
    &&& forall|p: K::P, a: Rgb8, b: Rgb8| #[trigger]
        call_ensures(<K as Kernels>::encode, (&k, p), a) && #[trigger] call_ensures(
            <K as Kernels>::encode,
            (&k, p),
            b,
        ) ==> a == b
    &&& forall|p: K::P, a: Rgb8, b: Rgb8| #[trigger]
        call_ensures(<K as Kernels>::encode_fast, (&k, p), a) && #[trigger] call_ensures(
            <K as Kernels>::encode_fast,
            (&k, p),
            b,
        ) ==> a == b
    &&& forall|y: usize, x: usize, a: Spot<K::W>, b: Spot<K::W>| #[trigger]
        call_ensures(<K as Kernels>::cell, (&k, y, x), a) && #[trigger] call_ensures(
            <K as Kernels>::cell,
            (&k, y, x),
            b,
        ) ==> a == b
    &&& forall|q: Quad<u32>, w: K::W, a: K::S, b: K::S| #[trigger]
        call_ensures(<K as Kernels>::offset, (&k, q, w), a) && #[trigger] call_ensures(
            <K as Kernels>::offset,
            (&k, q, w),
            b,
        ) ==> a == b
    &&& forall|y: usize, x: usize, dx: K::S, dy: K::S, a: Spot<K::W>, b: Spot<K::W>| #[trigger]
        call_ensures(<K as Kernels>::displace, (&k, y, x, dx, dy), a) && #[trigger] call_ensures(
            <K as Kernels>::displace,
            (&k, y, x, dx, dy),
            b,
        ) ==> a == b
    &&& forall|q: Quad<K::S>, w: K::W, a: K::S, b: K::S| #[trigger]
        call_ensures(<K as Kernels>::resample, (&k, q, w), a) && #[trigger] call_ensures(
            <K as Kernels>::resample,
            (&k, q, w),
            b,
        ) ==> a == b
}

/// The planes hold the same samples.
pub open spec fn same_planes<V>(p: Planes<V>, q: Planes<V>) -> bool {
    &&& p.hh == q.hh
    &&& p.ww == q.ww
    &&& p.gr@ == q.gr@
    &&& p.r@ == q.r@
    &&& p.b@ == q.b@
    &&& p.gb@ == q.gb@
}

/// The same pixels vote.
pub open spec fn same_voters(a: Voters, b: Voters) -> bool {
    match (a, b) {
        (Voters::Median { mask: m, idx: i }, Voters::Median { mask: n, idx: j }) => m == n && i@
            == j@,
        (Voters::Mean { idx: i }, Voters::Mean { idx: j }) => i@ == j@,
        (Voters::Neutral, Voters::Neutral) => true,
        _ => false,
    }
}

/// The statistics say the same.
pub open spec fn same_stats<S>(a: AwbStats<S>, b: AwbStats<S>) -> bool {
    &&& a.green@ == b.green@
    &&& a.bright == b.bright
    &&& a.flags@ == b.flags@
    &&& same_voters(a.voters, b.voters)
    &&& a.chroma == b.chroma
}

/// Ascending lists of the same places are the same list.
proof fn lemma_ascending_unique(a: Seq<usize>, b: Seq<usize>)
    requires
        forall|i: int, j: int| 0 <= i < j < a.len() ==> #[trigger] a[i] < #[trigger] a[j],
        forall|i: int, j: int| 0 <= i < j < b.len() ==> #[trigger] b[i] < #[trigger] b[j],
        forall|i: int| 0 <= i < a.len() ==> b.contains(#[trigger] a[i]),
        forall|i: int| 0 <= i < b.len() ==> a.contains(#[trigger] b[i]),
    ensures
        a == b,
    decreases a.len(),
{
    if a.len() == 0 {
        if b.len() > 0 {
            assert(a.contains(b[0]));
        }
        assert(a =~= b);
    } else {
        assert(b.contains(a[0]));
        let (la, lb) = (a[a.len() - 1], b[b.len() - 1]);
        assert(b.contains(la) && a.contains(lb));
        let i = choose|i: int| 0 <= i < b.len() && b[i] == la;
        let j = choose|j: int| 0 <= j < a.len() && a[j] == lb;
        assert(la <= lb) by {
            if i < b.len() - 1 {
                assert(b[i] < b[b.len() - 1]);
            }
        }
        assert(lb <= la) by {
            if j < a.len() - 1 {
                assert(a[j] < a[a.len() - 1]);
            }
        }
        let (ra, rb) = (a.drop_last(), b.drop_last());
        assert forall|i: int| 0 <= i < ra.len() implies rb.contains(#[trigger] ra[i]) by {
            assert(b.contains(a[i]));
            let n = choose|n: int| 0 <= n < b.len() && b[n] == a[i];
            assert(a[i] < a[a.len() - 1]);
            assert(rb[n] == a[i]);
        }
        assert forall|i: int| 0 <= i < rb.len() implies ra.contains(#[trigger] rb[i]) by {
            assert(a.contains(b[i]));
            let n = choose|n: int| 0 <= n < a.len() && a[n] == b[i];
            assert(b[i] < b[b.len() - 1]);
            assert(ra[n] == b[i]);
        }
        lemma_ascending_unique(ra, rb);
        assert(a =~= ra.push(la));
        assert(b =~= rb.push(lb));
    }
}

/// A mask selects one list of pixels.
proof fn lemma_selection_unique(flags: Seq<PixelFlags>, m: Mask, a: Seq<usize>, b: Seq<usize>)
    requires
        is_selection(flags, m, a),
        is_selection(flags, m, b),
    ensures
        a == b,
{
    assert forall|i: int| 0 <= i < a.len() implies b.contains(#[trigger] a[i]) by {
        assert(keeps(m, flags[a[i] as int]));
    }
    assert forall|i: int| 0 <= i < b.len() implies a.contains(#[trigger] b[i]) by {
        assert(keeps(m, flags[b[i] as int]));
    }
    lemma_ascending_unique(a, b);
}

/// The flags call for one choice of voters.
proof fn lemma_choice_unique(flags: Seq<PixelFlags>, a: Voters, b: Voters)
    requires
        is_choice(flags, a),
        is_choice(flags, b),
    ensures
        same_voters(a, b),
{
    match (a, b) {
        (Voters::Median { mask: m, idx: i }, Voters::Median { mask: n, idx: j }) => {
            assert(kept(flags, m) >= 100 && kept(flags, n) >= 100);
            assert(!(strictness(m) < strictness(n)) && !(strictness(n) < strictness(m)));
            assert(m == n);
            lemma_selection_unique(flags, m, i@, j@);
        },
        (Voters::Mean { idx: i }, Voters::Mean { idx: j }) => {
            lemma_selection_unique(flags, Mask::Valid, i@, j@);
        },
        (Voters::Median { mask: m, idx: _ }, _) => {
            assert(kept(flags, m) >= 100);
        },
        (_, Voters::Median { mask: m, idx: _ }) => {
            assert(kept(flags, m) >= 100);
        },
        (Voters::Mean { idx: i }, Voters::Neutral) => {
            assert(keeps(Mask::Valid, flags[i@[0] as int]));
            lemma_kept_positive(flags, Mask::Valid, i@[0] as int);
        },
        (Voters::Neutral, Voters::Mean { idx: i }) => {
            assert(keeps(Mask::Valid, flags[i@[0] as int]));
            lemma_kept_positive(flags, Mask::Valid, i@[0] as int);
        },
        (Voters::Neutral, Voters::Neutral) => {},
    }
}

/// A pixel is classified one way.
proof fn lemma_classified_unique<V, K: Scene<V>>(
    k: K,
    r: V,
    g: K::S,
    b: V,
    bright: Option<Percentile>,
    x: PixelFlags,
    y: PixelFlags,
)
    requires
        scene_is_determined::<V, K>(k),
        is_classified::<V, K>(k, r, g, b, bright, x),
        is_classified::<V, K>(k, r, g, b, bright, y),
    ensures
        x == y,
{
    if x.valid {
        let m = choose|near: Seq<bool>| #[trigger]
            are_near::<V, K>(k, r, g, b, near) && x.near == near.contains(true);
        let n = choose|near: Seq<bool>| #[trigger]
            are_near::<V, K>(k, r, g, b, near) && y.near == near.contains(true);
        assert forall|i: int| 0 <= i < m.len() implies m[i] == n[i] by {
            assert(call_ensures(<K as Scene<V>>::near, (&k, i as usize, r, g, b), m[i]));
            assert(call_ensures(<K as Scene<V>>::near, (&k, i as usize, r, g, b), n[i]));
        }
        assert(m =~= n);
    }
}

/// A plane over green has one middle among the voters.
proof fn lemma_ratio_middle_unique<V, K: Scene<V>>(
    k: K,
    plane: Seq<V>,
    green: Seq<K::S>,
    idx: Seq<usize>,
    x: Middle,
    y: Middle,
)
    requires
        scene_is_determined::<V, K>(k),
        is_ratio_middle::<V, K>(k, plane, green, idx, x),
        is_ratio_middle::<V, K>(k, plane, green, idx, y),
    ensures
        x == y,
{
    let a = choose|keys: Seq<i32>| #[trigger]
        are_ratios::<V, K>(k, plane, green, idx, keys) && is_middle(keys, x);
    let b = choose|keys: Seq<i32>| #[trigger]
        are_ratios::<V, K>(k, plane, green, idx, keys) && is_middle(keys, y);
    assert forall|j: int| 0 <= j < a.len() implies a[j] == b[j] by {
        let args = (&k, plane[idx[j] as int], green[idx[j] as int]);
        assert(call_ensures(<K as Scene<V>>::ratio_key, args, a[j]));
        assert(call_ensures(<K as Scene<V>>::ratio_key, args, b[j]));
    }
    assert(a =~= b);
    law_rank_is_unique(a, (a.len() - 1) / 2, x.lo, y.lo);
    law_rank_is_unique(a, a.len() as int / 2, x.hi, y.hi);
}

/// Green has one bright percentile.
proof fn lemma_bright_unique<V, K: Scene<V>>(
    k: K,
    green: Seq<K::S>,
    x: Percentile,
    y: Percentile,
    a: Seq<i32>,
    b: Seq<i32>,
)
    requires
        scene_is_determined::<V, K>(k),
        are_keys::<V, K>(k, green, a),
        are_keys::<V, K>(k, green, b),
        is_percentile(a, AWB_BRIGHT_PERCENTILE as int, x),
        is_percentile(b, AWB_BRIGHT_PERCENTILE as int, y),
    ensures
        x == y,
{
    assert forall|i: int| 0 <= i < a.len() implies a[i] == b[i] by {
        assert(call_ensures(<K as Scene<V>>::green_key, (&k, green[i]), a[i]));
        assert(call_ensures(<K as Scene<V>>::green_key, (&k, green[i]), b[i]));
    }
    assert(a =~= b);
    let pos = (a.len() - 1) * AWB_BRIGHT_PERCENTILE;
    law_rank_is_unique(a, pos / 100, x.lo, y.lo);
    law_rank_is_unique(
        a,
        if pos % 100 == 0 {
            pos / 100
        } else {
            pos / 100 + 1
        },
        x.hi,
        y.hi,
    );
}

/// Equal planes give equal white-balance statistics: nothing but the planes has a
/// say in them, whatever was measured before.
pub proof fn law_statistics_are_determined<V, K: Scene<V>>(
    k: K,
    p: Planes<V>,
    q: Planes<V>,
    a: AwbStats<K::S>,
    b: AwbStats<K::S>,
)
    requires
        scene_is_determined::<V, K>(k),
        same_planes(p, q),
        is_stats::<V, K>(k, p, a),
        is_stats::<V, K>(k, q, b),
    ensures
        same_stats(a, b),
{
    let n = p.hh * p.ww;
    assert forall|i: int| 0 <= i < n implies a.green@[i] == b.green@[i] by {
        assert(p.gr[i] == p.gr@[i] && q.gr[i] == q.gr@[i]);
        assert(p.gb[i] == p.gb@[i] && q.gb[i] == q.gb@[i]);
        assert(call_ensures(<K as Scene<V>>::green, (&k, p.gr[i], p.gb[i]), a.green@[i]));
        assert(call_ensures(<K as Scene<V>>::green, (&k, q.gr[i], q.gb[i]), b.green@[i]));
    }
    assert(a.green@ =~= b.green@);
    if let (Some(x), Some(y)) = (a.bright, b.bright) {
        let s = choose|keys: Seq<i32>| #[trigger]
            are_keys::<V, K>(k, a.green@, keys) && is_percentile(
                keys,
                AWB_BRIGHT_PERCENTILE as int,
                x,
            );
        let t = choose|keys: Seq<i32>| #[trigger]
            are_keys::<V, K>(k, b.green@, keys) && is_percentile(
                keys,
                AWB_BRIGHT_PERCENTILE as int,
                y,
            );
        lemma_bright_unique::<V, K>(k, a.green@, x, y, s, t);
    }
    assert(a.bright == b.bright);
    assert forall|i: int| 0 <= i < n implies a.flags@[i] == b.flags@[i] by {
        assert(p.r[i] == p.r@[i] && q.r[i] == q.r@[i]);
        assert(p.b[i] == p.b@[i] && q.b[i] == q.b@[i]);
        lemma_classified_unique::<V, K>(
            k,
            p.r[i],
            a.green@[i],
            p.b[i],
            a.bright,
            a.flags@[i],
            b.flags@[i],
        );
    }
    assert(a.flags@ =~= b.flags@);
    lemma_choice_unique(a.flags@, a.voters, b.voters);
    if let (Voters::Median { mask: _, idx: i }, Voters::Median { mask: _, idx: j }) = (
        a.voters,
        b.voters,
    ) {
        if let (Some((rg, bg)), Some((sg, tg))) = (a.chroma, b.chroma) {
            lemma_ratio_middle_unique::<V, K>(k, p.r@, a.green@, i@, rg, sg);
            lemma_ratio_middle_unique::<V, K>(k, p.b@, a.green@, i@, bg, tg);
        }
    }
}

/// Equal planes give one scene chroma.
pub proof fn law_scene_chroma_is_determined<V, K: Scene<V>>(
    k: K,
    p: Planes<V>,
    q: Planes<V>,
    c: Chroma<K::S>,
    d: Chroma<K::S>,
)
    requires
        scene_is_determined::<V, K>(k),
        same_planes(p, q),
        is_scene_chroma::<V, K>(k, p, c),
        is_scene_chroma::<V, K>(k, q, d),
    ensures
        c == d,
{
    let a = choose|st: AwbStats<K::S>| #[trigger]
        is_stats::<V, K>(k, p, st) && is_settled_chroma::<V, K>(k, p, st, c);
    let b = choose|st: AwbStats<K::S>| #[trigger]
        is_stats::<V, K>(k, q, st) && is_settled_chroma::<V, K>(k, q, st, d);
    law_statistics_are_determined::<V, K>(k, p, q, a, b);
}

/// A chroma has one colour temperature.
proof fn lemma_cct_unique<V, K: Scene<V>>(k: K, c: Chroma<K::S>, x: K::D, y: K::D)
    requires
        scene_is_determined::<V, K>(k),
        is_cct::<V, K>(k, c, x),
        is_cct::<V, K>(k, c, y),
    ensures
        x == y,
{
    let (a, i) = choose|keys: Seq<i64>, i: int|
        {
            &&& #[trigger] are_segment_keys::<V, K>(k, c, keys)
            &&& #[trigger] is_first_min(keys, i)
            &&& call_ensures(<K as Scene<V>>::cct, (&k, i as usize, c), x)
        };
    let (b, j) = choose|keys: Seq<i64>, i: int|
        {
            &&& #[trigger] are_segment_keys::<V, K>(k, c, keys)
            &&& #[trigger] is_first_min(keys, i)
            &&& call_ensures(<K as Scene<V>>::cct, (&k, i as usize, c), y)
        };
    assert forall|n: int| 0 <= n < a.len() implies a[n] == b[n] by {
        assert(call_ensures(<K as Scene<V>>::segment_key, (&k, n as usize, c), a[n]));
        assert(call_ensures(<K as Scene<V>>::segment_key, (&k, n as usize, c), b[n]));
    }
    assert(a =~= b);
    assert(a[i] <= a[j] && a[j] <= a[i]);
}

/// A chroma has one light source.
proof fn lemma_source_unique<V, K: Scene<V>>(
    k: K,
    c: Chroma<K::S>,
    prev: Option<usize>,
    x: usize,
    y: usize,
)
    requires
        scene_is_determined::<V, K>(k),
        is_source::<V, K>(k, c, prev, x),
        is_source::<V, K>(k, c, prev, y),
    ensures
        x == y,
{
    let (a, ra, i) = choose|dists: Seq<i64>, relaxed: Seq<i64>, best: int|
        {
            &&& #[trigger] are_distances::<V, K>(k, c, dists, relaxed)
            &&& #[trigger] is_first_min(dists, best)
            &&& x == settled(dists, relaxed, prev, best)
        };
    let (b, rb, j) = choose|dists: Seq<i64>, relaxed: Seq<i64>, best: int|
        {
            &&& #[trigger] are_distances::<V, K>(k, c, dists, relaxed)
            &&& #[trigger] is_first_min(dists, best)
            &&& y == settled(dists, relaxed, prev, best)
        };
    assert forall|n: int| 0 <= n < a.len() implies a[n] == b[n] && ra[n] == rb[n] by {
        assert(call_ensures(<K as Scene<V>>::distance_key, (&k, n as usize, c), a[n]));
        assert(call_ensures(<K as Scene<V>>::distance_key, (&k, n as usize, c), b[n]));
        assert(call_ensures(<K as Scene<V>>::relaxed_key, (&k, n as usize, c), ra[n]));
        assert(call_ensures(<K as Scene<V>>::relaxed_key, (&k, n as usize, c), rb[n]));
    }
    assert(a =~= b);
    assert(ra =~= rb);
    assert(a[i] <= a[j] && a[j] <= a[i]);
}

/// A colour temperature has one bracket.
proof fn lemma_cct_bracket_unique<V, K: Scene<V>>(
    k: K,
    cal: Calibration<K::T>,
    cct: K::D,
    a: Bracket,
    b: Bracket,
)
    requires
        scene_is_determined::<V, K>(k),
        is_cct_bracket::<V, K>(k, cal, cct, a),
        is_cct_bracket::<V, K>(k, cal, cct, b),
    ensures
        a == b,
{
    let x = choose|key: i64| #[trigger]
        call_ensures(<K as Scene<V>>::cct_key, (&k, &cct), key)
            && is_bracket(cal.cts@, key, a);
    let y = choose|key: i64| #[trigger]
        call_ensures(<K as Scene<V>>::cct_key, (&k, &cct), key)
            && is_bracket(cal.cts@, key, b);
    law_bracket_is_unique(cal.cts@, x, a, b);
}

/// Calibrated matrices have one interpolation at a bracket.
proof fn lemma_interpolated_unique<V, K: Scene<V>>(
    k: K,
    cct: K::D,
    m: Seq<[K::T; 9]>,
    at: Bracket,
    a: [K::D; 9],
    b: [K::D; 9],
)
    requires
        scene_is_determined::<V, K>(k),
        is_interpolated::<V, K>(k, cct, m, at, a),
        is_interpolated::<V, K>(k, cct, m, at, b),
    ensures
        a == b,
{
    assert forall|n: int| 0 <= n < 9 implies a@[n] == b@[n] by {
        match at {
            Bracket::At(j) => {
                assert(call_ensures(<K as Scene<V>>::widen, (&k, m[j as int][n]), a@[n]));
                assert(call_ensures(<K as Scene<V>>::widen, (&k, m[j as int][n]), b@[n]));
            },
            Bracket::Between(i, j) => {
                let args = (&k, &cct, at, m[i as int][n], m[j as int][n]);
                assert(call_ensures(<K as Scene<V>>::blend, args, a@[n]));
                assert(call_ensures(<K as Scene<V>>::blend, args, b@[n]));
            },
        }
    }
    assert(a =~= b);
}

/// The looks apply the same: equal estimates and equal matrices.
pub open spec fn same_look<S, D>(a: Look<S, D>, b: Look<S, D>) -> bool {
    &&& a.est == b.est
    &&& a.acm.mats@ == b.acm.mats@
}

/// A scene chroma leads to one look.
pub proof fn law_look_is_determined<V, K: Scene<V>>(
    k: K,
    cal: Calibration<K::T>,
    c: Chroma<K::S>,
    prev: Option<usize>,
    x: Look<K::S, K::D>,
    y: Look<K::S, K::D>,
)
    requires
        scene_is_determined::<V, K>(k),
        is_look_from::<V, K>(k, cal, c, prev, x),
        is_look_from::<V, K>(k, cal, c, prev, y),
    ensures
        same_look(x, y),
{
    let (e, f) = (x.est, y.est);
    assert(e.chroma == f.chroma);
    assert(e.gains == f.gains);
    lemma_cct_unique::<V, K>(k, e.chroma, e.cct, f.cct);
    lemma_source_unique::<V, K>(k, e.chroma, prev, e.ls, f.ls);
    let cct = e.cct;
    let a = choose|b: Bracket| #[trigger]
        is_cct_bracket::<V, K>(k, cal, cct, b) && is_interpolated::<V, K>(
            k,
            cct,
            cal.ccm@,
            b,
            e.ccm,
        );
    let b = choose|b: Bracket| #[trigger]
        is_cct_bracket::<V, K>(k, cal, cct, b) && is_interpolated::<V, K>(
            k,
            cct,
            cal.ccm@,
            b,
            f.ccm,
        );
    lemma_cct_bracket_unique::<V, K>(k, cal, cct, a, b);
    lemma_interpolated_unique::<V, K>(k, cct, cal.ccm@, a, e.ccm, f.ccm);
    let c1 = choose|b: Bracket| #[trigger]
        is_cct_bracket::<V, K>(k, cal, cct, b) && is_acm_interpolated::<V, K>(
            k,
            cct,
            cal.acm@,
            NUM_CCM as int,
            b,
            x.acm,
        );
    let c2 = choose|b: Bracket| #[trigger]
        is_cct_bracket::<V, K>(k, cal, cct, b) && is_acm_interpolated::<V, K>(
            k,
            cct,
            cal.acm@,
            NUM_CCM as int,
            b,
            y.acm,
        );
    lemma_cct_bracket_unique::<V, K>(k, cal, cct, c1, c2);
    assert forall|s: int| 0 <= s < ACM_NSEC implies x.acm.mats@[s] == y.acm.mats@[s] by {
        lemma_interpolated_unique::<V, K>(
            k,
            cct,
            sector_column(cal.acm@, s, NUM_CCM as int),
            c1,
            x.acm.mats@[s],
            y.acm.mats@[s],
        );
    }
    assert(x.acm.mats@ =~= y.acm.mats@);
}

/// The grids hold the same gains.
pub open spec fn same_grids<G>(a: Grids<G>, b: Grids<G>) -> bool {
    &&& a.ww == b.ww
    &&& a.hh == b.hh
    &&& forall|s: Site| #[trigger] a.plane(s) == b.plane(s)
}

/// A light source has one set of grids.
proof fn lemma_grids_unique<K: Kernels>(
    k: K,
    blob: Seq<u8>,
    ls: int,
    hh: int,
    ww: int,
    a: Grids<K::G>,
    b: Grids<K::G>,
)
    requires
        is_determined(k),
        0 <= hh,
        0 <= ww,
        is_grids(k, blob, ls, hh, ww, a),
        is_grids(k, blob, ls, hh, ww, b),
    ensures
        same_grids(a, b),
{
    assert forall|s: Site| #[trigger] a.plane(s) == b.plane(s) by {
        let (p, q) = (a.plane(s), b.plane(s));
        assert forall|y: int, x: int| 0 <= y < hh && 0 <= x < ww implies #[trigger] at(p, ww, y, x)
            == at(q, ww, y, x) by {
            assert(at(q, ww, y, x) == at(q, ww, y, x));
        }
        lemma_grids_equal(p, q, hh, ww);
    }
}

/// A frame has one shaded mosaic.
proof fn lemma_cfa_unique<K: Kernels>(
    k: K,
    raw: RawFrame<u16>,
    g: Grids<K::G>,
    h: Grids<K::G>,
    gains: [K::D; 3],
    a: Seq<K::S>,
    b: Seq<K::S>,
)
    requires
        is_determined(k),
        same_grids(g, h),
        is_cfa_of_frame(k, raw, g, gains, a),
        is_cfa_of_frame(k, raw, h, gains, b),
    ensures
        a == b,
{
    let w = raw.w as int;
    assert forall|y: int, x: int| 0 <= y < raw.h && 0 <= x < raw.w implies #[trigger] at(a, w, y, x)
        == at(b, w, y, x) by {
        let s = site_at(y, x);
        assert(g.plane(s) == h.plane(s));
        assert(g.gain(s, y / 2, x / 2) == h.gain(s, y / 2, x / 2));
        assert(at(b, w, y, x) == at(b, w, y, x));
    }
    lemma_grids_equal(a, b, raw.h as int, w);
}

/// A mosaic has one triple at a place.
proof fn lemma_mhc_unique<T, U, K: Debayer<T, U>>(
    k: K,
    cfa: Seq<T>,
    w: int,
    h: int,
    y: int,
    x: int,
    a: (U, U, U),
    b: (U, U, U),
)
    requires
        debayer_is_determined::<T, U, K>(k),
        is_mhc::<T, U, K>(k, cfa, w, h, y, x, a),
        is_mhc::<T, U, K>(k, cfa, w, h, y, x, b),
    ensures
        a == b,
{
    let s = site_at(y, x);
    let t = taps_at(cfa, w, h, y, x);
    let f = choose|f: Filtered<U>| #[trigger]
        call_ensures(<K as Debayer<T, U>>::filters, (&k, t), f) && a == channels(s, f);
    let g = choose|g: Filtered<U>| #[trigger]
        call_ensures(<K as Debayer<T, U>>::filters, (&k, t), g) && b == channels(s, g);
    assert(f == g);
}

/// The row-parallel debayer with its unclamped interior gives, element for element,
/// what the plain one gives: the planes one after the other.
pub proof fn law_planes_equal_the_plain_debayer<T, U, K: Debayer<T, U>>(
    k: K,
    cfa: Seq<T>,
    w: int,
    h: int,
    p: Planar<U>,
    plain: Seq<U>,
)
    requires
        debayer_is_determined::<T, U, K>(k),
        is_planar::<T, U, K>(k, cfa, w, h, p),
        is_debayered::<T, U, K>(k, cfa, w, h, plain),
    ensures
        plain == p.r@ + p.g@ + p.b@,
{
    let n = h * w;
    let all = p.r@ + p.g@ + p.b@;
    assert forall|i: int| 0 <= i < 3 * n implies plain[i] == all[i] by {
        if i < n {
            lemma_debayered_at::<T, U, K>(k, cfa, w, h, p, plain, i);
        } else if i < 2 * n {
            lemma_debayered_at::<T, U, K>(k, cfa, w, h, p, plain, i - n);
        } else {
            lemma_debayered_at::<T, U, K>(k, cfa, w, h, p, plain, i - 2 * n);
        }
    }
    assert(plain =~= all);
}

/// The two debayers agree at a place.
proof fn lemma_debayered_at<T, U, K: Debayer<T, U>>(
    k: K,
    cfa: Seq<T>,
    w: int,
    h: int,
    p: Planar<U>,
    plain: Seq<U>,
    j: int,
)
    requires
        debayer_is_determined::<T, U, K>(k),
        is_planar::<T, U, K>(k, cfa, w, h, p),
        is_debayered::<T, U, K>(k, cfa, w, h, plain),
        0 <= j < h * w,
    ensures
        plain[j] == p.r@[j],
        plain[h * w + j] == p.g@[j],
        plain[2 * (h * w) + j] == p.b@[j],
{
    lemma_cell_of_index(h, w, j);
    let (y, x) = (j / w, j % w);
    let triple = planar_rgb(plain, w, h, y, x);
    lemma_mhc_unique::<T, U, K>(k, cfa, w, h, y, x, triple, p.rgb(y, x));
}

/// A hue has one matrix.
proof fn lemma_sector_matrix_unique<K: Kernels>(
    k: K,
    p: Look<K::S, K::D>,
    q: Look<K::S, K::D>,
    hue: Hue<K::Q>,
    a: [K::D; 9],
    b: [K::D; 9],
)
    requires
        is_determined(k),
        same_look(p, q),
        is_sector_matrix(k, p, hue, a),
        is_sector_matrix(k, q, hue, b),
    ensures
        a == b,
{
    assert forall|n: int| 0 <= n < 9 implies a@[n] == b@[n] by {
        let g = p.est.ccm@[n];
        let x = p.acm.mats@[hue.sector as int % ACM_NSEC as int]@[n];
        let y = p.acm.mats@[(hue.sector as int + 1) % ACM_NSEC as int]@[n];
        assert(is_sector_entry(k, hue, g, x, y, a@[n]));
        assert(is_sector_entry(k, hue, g, x, y, b@[n]));
        let s = choose|ms: K::D| #[trigger]
            call_ensures(<K as Kernels>::mix, (&k, hue.frac, x, y), ms) && call_ensures(
                <K as Kernels>::mix,
                (&k, hue.weight, g, ms),
                a@[n],
            );
        let t = choose|ms: K::D| #[trigger]
            call_ensures(<K as Kernels>::mix, (&k, hue.frac, x, y), ms) && call_ensures(
                <K as Kernels>::mix,
                (&k, hue.weight, g, ms),
                b@[n],
            );
        assert(s == t);
    }
    assert(a =~= b);
}

/// A linear pixel has one colour under a look.
proof fn lemma_coloured_unique<K: Kernels>(
    k: K,
    p: Look<K::S, K::D>,
    q: Look<K::S, K::D>,
    lin: K::P,
    a: K::P,
    b: K::P,
)
    requires
        is_determined(k),
        same_look(p, q),
        is_coloured(k, p, lin, a),
        is_coloured(k, q, lin, b),
    ensures
        a == b,
{
    let h = choose|h: K::P| #[trigger]
        call_ensures(<K as Kernels>::highlight, (&k, lin), h) && is_acm_color(k, p, h, a);
    let i = choose|h: K::P| #[trigger]
        call_ensures(<K as Kernels>::highlight, (&k, lin), h) && is_acm_color(k, q, h, b);
    assert(h == i);
    let (g1, u1) = choose|global: K::P, hue: Option<Hue<K::Q>>|
        {
            &&& #[trigger] call_ensures(<K as Kernels>::matrix, (&k, &p.est.ccm, h), global)
            &&& #[trigger] call_ensures(<K as Kernels>::hue, (&k, global), hue)
            &&& match hue {
                Some(hue) => is_hue_corrected(k, p, hue, h, a),
                None => a == global,
            }
        };
    let (g2, u2) = choose|global: K::P, hue: Option<Hue<K::Q>>|
        {
            &&& #[trigger] call_ensures(<K as Kernels>::matrix, (&k, &q.est.ccm, h), global)
            &&& #[trigger] call_ensures(<K as Kernels>::hue, (&k, global), hue)
            &&& match hue {
                Some(hue) => is_hue_corrected(k, q, hue, h, b),
                None => b == global,
            }
        };
    assert(g1 == g2);
    assert(u1 == u2);
    if let Some(hue) = u1 {
        let (m1, c1, s1) = choose|m: [K::D; 9], corrected: K::P, skin: K::P|
            {
                &&& is_sector_matrix(k, p, hue, m)
                &&& #[trigger] call_ensures(<K as Kernels>::matrix, (&k, &m, h), corrected)
                &&& #[trigger] call_ensures(
                    <K as Kernels>::desaturate,
                    (&k, Band::Skin, corrected),
                    skin,
                )
                &&& call_ensures(<K as Kernels>::desaturate, (&k, Band::Yellow, skin), a)
            };
        let (m2, c2, s2) = choose|m: [K::D; 9], corrected: K::P, skin: K::P|
            {
                &&& is_sector_matrix(k, q, hue, m)
                &&& #[trigger] call_ensures(<K as Kernels>::matrix, (&k, &m, h), corrected)
                &&& #[trigger] call_ensures(
                    <K as Kernels>::desaturate,
                    (&k, Band::Skin, corrected),
                    skin,
                )
                &&& call_ensures(<K as Kernels>::desaturate, (&k, Band::Yellow, skin), b)
            };
        lemma_sector_matrix_unique(k, p, q, hue, m1, m2);
        assert(c1 == c2);
        assert(s1 == s2);
    }
}

/// A tile has one pixel.
proof fn lemma_half_pixel_unique<K: Kernels>(
    k: K,
    p: Look<K::S, K::D>,
    q: Look<K::S, K::D>,
    t: Tile<u16>,
    g: Tile<K::G>,
    a: Rgb8,
    b: Rgb8,
)
    requires
        is_determined(k),
        same_look(p, q),
        is_half_pixel(k, p, t, g, a),
        is_half_pixel(k, q, t, g, b),
    ensures
        a == b,
{
    let (l1, o1) = choose|lin: K::P, out: K::P|
        {
            &&& #[trigger] call_ensures(<K as Kernels>::tile, (&k, &p.est.gains, t, g), lin)
            &&& #[trigger] is_coloured(k, p, lin, out)
            &&& call_ensures(<K as Kernels>::encode, (&k, out), a)
        };
    let (l2, o2) = choose|lin: K::P, out: K::P|
        {
            &&& #[trigger] call_ensures(<K as Kernels>::tile, (&k, &q.est.gains, t, g), lin)
            &&& #[trigger] is_coloured(k, q, lin, out)
            &&& call_ensures(<K as Kernels>::encode, (&k, out), b)
        };
    assert(l1 == l2);
    lemma_coloured_unique(k, p, q, l1, o1, o2);
}

/// A triple has one pixel.
proof fn lemma_full_pixel_unique<K: Kernels>(
    k: K,
    p: Look<K::S, K::D>,
    q: Look<K::S, K::D>,
    r: K::S,
    g: K::S,
    c: K::S,
    a: Rgb8,
    b: Rgb8,
)
    requires
        is_determined(k),
        same_look(p, q),
        is_full_pixel(k, p, r, g, c, a),
        is_full_pixel(k, q, r, g, c, b),
    ensures
        a == b,
{
    let (l1, o1) = choose|lin: K::P, out: K::P|
        {
            &&& #[trigger] call_ensures(<K as Kernels>::linear, (&k, r, g, c), lin)
            &&& #[trigger] is_coloured(k, p, lin, out)
            &&& call_ensures(<K as Kernels>::encode_fast, (&k, out), a)
        };
    let (l2, o2) = choose|lin: K::P, out: K::P|
        {
            &&& #[trigger] call_ensures(<K as Kernels>::linear, (&k, r, g, c), lin)
            &&& #[trigger] is_coloured(k, q, lin, out)
            &&& call_ensures(<K as Kernels>::encode_fast, (&k, out), b)
        };
    assert(l1 == l2);
    lemma_coloured_unique(k, p, q, l1, o1, o2);
}

/// Images that agree on every pixel are the same bytes.
proof fn lemma_images_equal(a: Seq<u8>, b: Seq<u8>, w: int, h: int)
    requires
        0 <= w,
        0 <= h,
        a.len() == 3 * (h * w),
        b.len() == 3 * (h * w),
        forall|y: int, x: int|
            0 <= y < h && 0 <= x < w ==> #[trigger] pixel(a, w, y, x) == pixel(b, w, y, x),
    ensures
        a == b,
{
    assert forall|i: int| 0 <= i < a.len() implies a[i] == b[i] by {
        let n = i / 3;
        lemma_cell_of_index(h, w, n);
        let (y, x) = (n / w, n % w);
        assert(pixel(a, w, y, x) == pixel(b, w, y, x));
        assert(i == 3 * n || i == 3 * n + 1 || i == 3 * n + 2);
    }
    assert(a =~= b);
}

/// Equal planes have one half-resolution render under a look.
proof fn lemma_half_render_unique<K: Kernels>(
    k: K,
    p: Look<K::S, K::D>,
    q: Look<K::S, K::D>,
    m: Planes<u16>,
    n: Planes<u16>,
    g: Grids<K::G>,
    h: Grids<K::G>,
    a: Seq<u8>,
    b: Seq<u8>,
)
    requires
        is_determined(k),
        same_look(p, q),
        same_planes(m, n),
        same_grids(g, h),
        is_half_render(k, p, m, g, a),
        is_half_render(k, q, n, h, b),
    ensures
        a == b,
{
    let w = m.ww as int;
    assert forall|y: int, x: int| 0 <= y < m.hh && 0 <= x < m.ww implies #[trigger] pixel(a, w, y, x)
        == pixel(b, w, y, x) by {
        assert(g.plane(Site::Gr) == h.plane(Site::Gr));
        assert(g.plane(Site::R) == h.plane(Site::R));
        assert(g.plane(Site::B) == h.plane(Site::B));
        assert(g.plane(Site::Gb) == h.plane(Site::Gb));
        assert(samples_at(m, y, x) == samples_at(n, y, x));
        assert(gains_at(g, y, x) == gains_at(h, y, x));
        assert(pixel(b, n.ww as int, y, x) == pixel(b, w, y, x));
        lemma_half_pixel_unique(
            k,
            p,
            q,
            samples_at(m, y, x),
            gains_at(g, y, x),
            pixel(a, w, y, x),
            pixel(b, w, y, x),
        );
    }
    lemma_images_equal(a, b, w, m.hh as int);
}

/// A mosaic has one full-resolution render without aberration correction.
proof fn lemma_mhc_render_unique<K: Kernels>(
    k: K,
    p: Look<K::S, K::D>,
    q: Look<K::S, K::D>,
    cfa: Seq<K::S>,
    w: int,
    h: int,
    a: Seq<u8>,
    b: Seq<u8>,
)
    requires
        is_determined(k),
        same_look(p, q),
        0 <= w,
        0 <= h,
        is_mhc_render(k, p, cfa, w, h, a),
        is_mhc_render(k, q, cfa, w, h, b),
    ensures
        a == b,
{
    assert forall|y: int, x: int| 0 <= y < h && 0 <= x < w implies #[trigger] pixel(a, w, y, x)
        == pixel(b, w, y, x) by {
        let (u, v) = (pixel(a, w, y, x), pixel(b, w, y, x));
        assert(is_mhc_pixel(k, p, cfa, w, h, y, x, u));
        assert(is_mhc_pixel(k, q, cfa, w, h, y, x, v));
        let s = choose|rgb: (K::S, K::S, K::S)|
            is_mhc::<K::S, K::S, K>(k, cfa, w, h, y, x, rgb) && #[trigger] is_full_pixel(
                k,
                p,
                rgb.0,
                rgb.1,
                rgb.2,
                u,
            );
        let t = choose|rgb: (K::S, K::S, K::S)|
            is_mhc::<K::S, K::S, K>(k, cfa, w, h, y, x, rgb) && #[trigger] is_full_pixel(
                k,
                q,
                rgb.0,
                rgb.1,
                rgb.2,
                v,
            );
        lemma_mhc_unique::<K::S, K::S, K>(k, cfa, w, h, y, x, s, t);
        lemma_full_pixel_unique(k, p, q, s.0, s.1, s.2, u, v);
    }
    lemma_images_equal(a, b, w, h);
}

/// Grids displace a pixel one way.
pub proof fn lemma_displaced_unique<K: Kernels>(
    k: K,
    across: Seq<u32>,
    down: Seq<u32>,
    gw: int,
    gh: int,
    cell: Spot<K::W>,
    y: int,
    x: int,
    a: Spot<K::W>,
    b: Spot<K::W>,
)
    requires
        is_determined(k),
        is_displaced(k, across, down, gw, gh, cell, y, x, a),
        is_displaced(k, across, down, gw, gh, cell, y, x, b),
    ensures
        a == b,
{
    let (i, j) = choose|dx: K::S, dy: K::S|
        {
            &&& #[trigger] is_offset(k, across, gw, gh, cell, dx)
            &&& #[trigger] is_offset(k, down, gw, gh, cell, dy)
            &&& call_ensures(<K as Kernels>::displace, (&k, y as usize, x as usize, dx, dy), a)
        };
    let (m, n) = choose|dx: K::S, dy: K::S|
        {
            &&& #[trigger] is_offset(k, across, gw, gh, cell, dx)
            &&& #[trigger] is_offset(k, down, gw, gh, cell, dy)
            &&& call_ensures(<K as Kernels>::displace, (&k, y as usize, x as usize, dx, dy), b)
        };
    assert(i == m && j == n);
}

/// The aberration grids put red and blue of a pixel in one place each.
proof fn lemma_shift_unique<K: Kernels>(
    k: K,
    lca: Lca,
    y: int,
    x: int,
    a: Shift<K::W>,
    b: Shift<K::W>,
)
    requires
        is_determined(k),
        is_shift(k, lca, y, x, a),
        is_shift(k, lca, y, x, b),
    ensures
        a == b,
{
    let (gw, gh) = (lca.gw as int, lca.gh as int);
    let c = choose|cell: Spot<K::W>| #[trigger]
        call_ensures(<K as Kernels>::cell, (&k, y as usize, x as usize), cell) && is_displaced(
            k,
            lca.rx@,
            lca.ry@,
            gw,
            gh,
            cell,
            y,
            x,
            a.red,
        ) && is_displaced(k, lca.bx@, lca.by@, gw, gh, cell, y, x, a.blue);
    let d = choose|cell: Spot<K::W>| #[trigger]
        call_ensures(<K as Kernels>::cell, (&k, y as usize, x as usize), cell) && is_displaced(
            k,
            lca.rx@,
            lca.ry@,
            gw,
            gh,
            cell,
            y,
            x,
            b.red,
        ) && is_displaced(k, lca.bx@, lca.by@, gw, gh, cell, y, x, b.blue);
    assert(c == d);
    lemma_displaced_unique(k, lca.rx@, lca.ry@, gw, gh, c, y, x, a.red, b.red);
    lemma_displaced_unique(k, lca.bx@, lca.by@, gw, gh, c, y, x, a.blue, b.blue);
}

/// A mosaic has one set of planes.
proof fn lemma_planar_unique<K: Kernels>(
    k: K,
    cfa: Seq<K::S>,
    w: int,
    h: int,
    a: Planar<K::S>,
    b: Planar<K::S>,
)
    requires
        is_determined(k),
        is_planar::<K::S, K::S, K>(k, cfa, w, h, a),
        is_planar::<K::S, K::S, K>(k, cfa, w, h, b),
    ensures
        a.r@ == b.r@,
        a.g@ == b.g@,
        a.b@ == b.b@,
{
    assert forall|y: int, x: int| 0 <= y < h && 0 <= x < w implies a.rgb(y, x) == #[trigger] b.rgb(
        y,
        x,
    ) by {
        lemma_mhc_unique::<K::S, K::S, K>(k, cfa, w, h, y, x, a.rgb(y, x), b.rgb(y, x));
    }
    assert forall|y: int, x: int| 0 <= y < h && 0 <= x < w implies #[trigger] at(a.r@, w, y, x) == at(
        b.r@,
        w,
        y,
        x,
    ) by {
        assert(a.rgb(y, x) == b.rgb(y, x));
    }
    lemma_grids_equal(a.r@, b.r@, h, w);
    assert forall|y: int, x: int| 0 <= y < h && 0 <= x < w implies #[trigger] at(a.g@, w, y, x) == at(
        b.g@,
        w,
        y,
        x,
    ) by {
        assert(a.rgb(y, x) == b.rgb(y, x));
    }
    lemma_grids_equal(a.g@, b.g@, h, w);
    assert forall|y: int, x: int| 0 <= y < h && 0 <= x < w implies #[trigger] at(a.b@, w, y, x) == at(
        b.b@,
        w,
        y,
        x,
    ) by {
        assert(a.rgb(y, x) == b.rgb(y, x));
    }
    lemma_grids_equal(a.b@, b.b@, h, w);
}

/// A mosaic has one full-resolution render with aberration correction.
proof fn lemma_lca_render_unique<K: Kernels>(
    k: K,
    p: Look<K::S, K::D>,
    q: Look<K::S, K::D>,
    lca: Lca,
    cfa: Seq<K::S>,
    w: int,
    h: int,
    m: Planar<K::S>,
    n: Planar<K::S>,
    a: Seq<u8>,
    b: Seq<u8>,
)
    requires
        is_determined(k),
        same_look(p, q),
        is_planar::<K::S, K::S, K>(k, cfa, w, h, m),
        is_planar::<K::S, K::S, K>(k, cfa, w, h, n),
        is_lca_render(k, p, lca, m, a),
        is_lca_render(k, q, lca, n, b),
    ensures
        a == b,
{
    lemma_planar_unique(k, cfa, w, h, m, n);
    assert forall|y: int, x: int| 0 <= y < h && 0 <= x < w implies #[trigger] pixel(a, w, y, x)
        == pixel(b, w, y, x) by {
        let (u, v) = (pixel(a, w, y, x), pixel(b, w, y, x));
        assert(is_lca_pixel(k, p, lca, m, y, x, pixel(a, m.w as int, y, x)));
        assert(is_lca_pixel(k, q, lca, n, y, x, pixel(b, n.w as int, y, x)));
        let (s1, r1, b1) = choose|shift: Shift<K::W>, r: K::S, b: K::S|
            {
                &&& #[trigger] is_shift(k, lca, y, x, shift)
                &&& is_sampled(k, m.r@, w, h, shift.red, r)
                &&& is_sampled(k, m.b@, w, h, shift.blue, b)
                &&& #[trigger] is_full_pixel(k, p, r, at(m.g@, w, y, x), b, u)
            };
        let (s2, r2, b2) = choose|shift: Shift<K::W>, r: K::S, b: K::S|
            {
                &&& #[trigger] is_shift(k, lca, y, x, shift)
                &&& is_sampled(k, n.r@, w, h, shift.red, r)
                &&& is_sampled(k, n.b@, w, h, shift.blue, b)
                &&& #[trigger] is_full_pixel(k, q, r, at(n.g@, w, y, x), b, v)
            };
        lemma_shift_unique(k, lca, y, x, s1, s2);
        assert(r1 == r2 && b1 == b2);
        lemma_full_pixel_unique(k, p, q, r1, at(m.g@, w, y, x), b1, u, v);
    }
    lemma_images_equal(a, b, w, h);
}

/// A mosaic has one full-resolution render.
proof fn lemma_full_unique<K: Kernels>(
    k: K,
    p: Look<K::S, K::D>,
    q: Look<K::S, K::D>,
    lca: Lca,
    on: bool,
    cfa: Seq<K::S>,
    w: int,
    h: int,
    a: Seq<u8>,
    b: Seq<u8>,
)
    requires
        is_determined(k),
        same_look(p, q),
        0 <= w,
        0 <= h,
        is_full(k, lca, cfa, w, h, on, p, a),
        is_full(k, lca, cfa, w, h, on, q, b),
    ensures
        a == b,
{
    if on {
        let m = choose|planar: Planar<K::S>| #[trigger]
            is_planar::<K::S, K::S, K>(k, cfa, w, h, planar) && is_lca_render(k, p, lca, planar, a);
        let n = choose|planar: Planar<K::S>| #[trigger]
            is_planar::<K::S, K::S, K>(k, cfa, w, h, planar) && is_lca_render(k, q, lca, planar, b);
        lemma_lca_render_unique(k, p, q, lca, cfa, w, h, m, n, a, b);
    } else {
        lemma_mhc_render_unique(k, p, q, cfa, w, h, a, b);
    }
}

/// A frame splits one way.
proof fn lemma_split_unique(raw: RawFrame<u16>, p: Planes<u16>, q: Planes<u16>)
    requires
        is_split(raw, p),
        is_split(raw, q),
    ensures
        same_planes(p, q),
{
    let (h, w) = (p.hh as int, p.ww as int);
    assert forall|s: Site| #[trigger] p.plane(s) == q.plane(s) by {
        assert forall|y: int, x: int| 0 <= y < h && 0 <= x < w implies #[trigger] at(
            p.plane(s),
            w,
            y,
            x,
        ) == at(q.plane(s), w, y, x) by {
            assert(p.tile(s, y, x) == q.tile(s, y, x));
        }
        lemma_grids_equal(p.plane(s), q.plane(s), h, w);
    }
    assert(p.plane(Site::Gr) == q.plane(Site::Gr));
    assert(p.plane(Site::R) == q.plane(Site::R));
    assert(p.plane(Site::B) == q.plane(Site::B));
    assert(p.plane(Site::Gb) == q.plane(Site::Gb));
}

/// The one-shot pipeline makes one picture of a frame, byte for byte, under one
/// look.
pub proof fn law_one_shot_is_determined<K: Kernels>(
    k: K,
    cal: Calibration<K::T>,
    raw: RawFrame<u16>,
    mode: DebayerMode,
    a: Processed<K::S, K::D>,
    b: Processed<K::S, K::D>,
)
    requires
        is_determined(k),
        is_processed(k, cal, raw, mode, a),
        is_processed(k, cal, raw, mode, b),
    ensures
        a.w == b.w,
        a.h == b.h,
        a.rgb@ == b.rgb@,
        same_look(a.look, b.look),
{
    let (x, y) = (a.look, b.look);
    let p = choose|p: Planes<u16>| #[trigger]
        is_split(raw, p) && is_look(k, cal, p, x) && match mode {
            DebayerMode::HalfRes => {
                &&& a.w == raw.w / 2
                &&& a.h == raw.h / 2
                &&& is_render(k, cal, p, x, a.rgb@)
            },
            DebayerMode::Mhc => {
                &&& a.w == raw.w
                &&& a.h == raw.h
                &&& is_render_mhc(k, cal, raw, x, a.rgb@)
            },
        };
    let q = choose|q: Planes<u16>| #[trigger]
        is_split(raw, q) && is_look(k, cal, q, y) && match mode {
            DebayerMode::HalfRes => {
                &&& b.w == raw.w / 2
                &&& b.h == raw.h / 2
                &&& is_render(k, cal, q, y, b.rgb@)
            },
            DebayerMode::Mhc => {
                &&& b.w == raw.w
                &&& b.h == raw.h
                &&& is_render_mhc(k, cal, raw, y, b.rgb@)
            },
        };
    lemma_split_unique(raw, p, q);
    let c = choose|c: Chroma<K::S>| #[trigger]
        is_scene_chroma::<u16, K>(k, p, c) && is_look_from::<u16, K>(k, cal, c, None, x);
    let d = choose|c: Chroma<K::S>| #[trigger]
        is_scene_chroma::<u16, K>(k, q, c) && is_look_from::<u16, K>(k, cal, c, None, y);
    law_scene_chroma_is_determined::<u16, K>(k, p, q, c, d);
    law_look_is_determined::<u16, K>(k, cal, c, None, x, y);
    let ls = x.est.ls as int;
    match mode {
        DebayerMode::HalfRes => {
            let (hh, ww) = (p.hh as int, p.ww as int);
            let g = choose|grids: Grids<K::G>| #[trigger]
                is_grids(k, cal.lsc@, ls, hh, ww, grids) && is_half_render(k, x, p, grids, a.rgb@);
            let h = choose|grids: Grids<K::G>| #[trigger]
                is_grids(k, cal.lsc@, ls, hh, ww, grids) && is_half_render(k, y, q, grids, b.rgb@);
            lemma_grids_unique(k, cal.lsc@, ls, hh, ww, g, h);
            lemma_half_render_unique(k, x, y, p, q, g, h, a.rgb@, b.rgb@);
        },
        DebayerMode::Mhc => {
            let (h, w) = (raw.h as int, raw.w as int);
            let (g1, c1) = choose|grids: Grids<K::G>, cfa: Seq<K::S>|
                {
                    &&& is_grids(k, cal.lsc@, ls, h / 2, w / 2, grids)
                    &&& #[trigger] is_cfa_of_frame(k, raw, grids, x.est.gains, cfa)
                    &&& is_full(k, cal.lca, cfa, w, h, true, x, a.rgb@)
                };
            let (g2, c2) = choose|grids: Grids<K::G>, cfa: Seq<K::S>|
                {
                    &&& is_grids(k, cal.lsc@, ls, h / 2, w / 2, grids)
                    &&& #[trigger] is_cfa_of_frame(k, raw, grids, y.est.gains, cfa)
                    &&& is_full(k, cal.lca, cfa, w, h, true, y, b.rgb@)
                };
            lemma_grids_unique(k, cal.lsc@, ls, h / 2, w / 2, g1, g2);
            lemma_cfa_unique(k, raw, g1, g2, x.est.gains, c1, c2);
            lemma_full_unique(k, x, y, cal.lca, true, c1, w, h, a.rgb@, b.rgb@);
        },
    }
}

/// The live processor's first frame equals the one-shot picture of the same buffer
/// byte for byte, and estimates the same. In full-res mode this is the processor with
/// aberration correction on, as the one-shot render has it.
pub proof fn law_first_frame_equals_one_shot<K: Kernels>(
    k: K,
    cal: Calibration<K::T>,
    bytes: Seq<u8>,
    raw: RawFrame<u16>,
    old: Processor<K>,
    new: Processor<K>,
    shot: Processed<K::S, K::D>,
)
    requires
        is_determined(k),
        bytes.len() >= RAW_BYTES,
        is_blc_frame(bytes, raw),
        old.wf(),
        old.look is None,
        old.mode == DebayerMode::Mhc ==> old.lca,
        is_step(k, cal, bytes, old, new),
        is_processed(k, cal, raw, old.mode, shot),
    ensures
        shot.w == out_dims(old.mode).0,
        shot.h == out_dims(old.mode).1,
        new.out@ == shot.rgb@,
        new.look is Some && same_look(new.look->0, shot.look),
{
    let first = Processed {
        w: out_dims(old.mode).0 as usize,
        h: out_dims(old.mode).1 as usize,
        rgb: new.out,
        look: new.look->0,
    };
    law_first_frame_is_one_shot(k, cal, bytes, raw, old, new, first);
    law_one_shot_is_determined(k, cal, raw, old.mode, first, shot);
}

/// Aberration grids of zeros leave every byte as it is without correction. The
/// further premises are those of [`law_zero_shift_changes_nothing`].
pub proof fn law_zero_shift_keeps_every_byte<K: Kernels>(
    k: K,
    look: Look<K::S, K::D>,
    lca: Lca,
    zero: K::S,
    cfa: Seq<K::S>,
    w: int,
    h: int,
    corrected: Seq<u8>,
    plain: Seq<u8>,
)
    requires
        is_determined(k),
        lca.wf(),
        forall|i: int| 0 <= i < lca.rx.len() ==> #[trigger] lca.rx@[i] == 0,
        forall|i: int| 0 <= i < lca.ry.len() ==> #[trigger] lca.ry@[i] == 0,
        forall|i: int| 0 <= i < lca.bx.len() ==> #[trigger] lca.bx@[i] == 0,
        forall|i: int| 0 <= i < lca.by.len() ==> #[trigger] lca.by@[i] == 0,
        forall|weights: K::W, v: K::S| #[trigger]
            call_ensures(<K as Kernels>::offset, (&k, zeros(), weights), v) ==> v == zero,
        forall|y: usize, x: usize, spot: Spot<K::W>| #[trigger]
            call_ensures(<K as Kernels>::displace, (&k, y, x, zero, zero), spot) && y < h && x < w
                ==> spot.y == y && spot.x == x && stays(k, spot.weights),
        0 <= w,
        0 <= h,
        is_full(k, lca, cfa, w, h, true, look, corrected),
        is_full(k, lca, cfa, w, h, false, look, plain),
    ensures
        corrected == plain,
{
    let planar = choose|planar: Planar<K::S>| #[trigger]
        is_planar::<K::S, K::S, K>(k, cfa, w, h, planar) && is_lca_render(
            k,
            look,
            lca,
            planar,
            corrected,
        );
    law_zero_shift_changes_nothing(k, look, lca, zero, cfa, w, h, planar, corrected);
    lemma_mhc_render_unique(k, look, look, cfa, w, h, corrected, plain);
}

} // verus!
