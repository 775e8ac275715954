//! Colour matrices: which calibrations a scene's colour temperature lies between,
//! their interpolation, and which hue sectors a colour lies between.
//!
//! Beyond the single global matrix, the tuning carries one matrix per hue sector
//! and calibration. Both are interpolated by colour temperature in the same way.
//! The blends of two numbers are real-valued arithmetic of the [`Scene`].

use vstd::prelude::*;

use crate::order::{is_search_left, search_left};
use crate::pipeline::kernels::{Band, Hue, Kernels};
use crate::pipeline::scene::{AcmFrame, Look, Scene, ACM_NSEC};

verus! {

/// Where a colour temperature falls among the calibrated ones.
#[derive(Debug, Clone, Copy, PartialEq, Eq, Structural)]
pub enum Bracket {
    /// At or beyond an end: that calibration alone.
    At(usize),
    /// Between two neighbouring calibrations.
    Between(usize, usize),
}

/// `b` brackets `c` among ascending temperatures, at the first one that is not
/// below it.
pub open spec fn is_bracket(cts: Seq<i64>, c: i64, b: Bracket) -> bool {
    exists|j: int| #[trigger]
        is_search_left(cts, c, j) && b == (if j == 0 {
            Bracket::At(0)
        } else if j == cts.len() {
            Bracket::At((cts.len() - 1) as usize)
        } else {
            Bracket::Between((j - 1) as usize, j as usize)
        })
}

/// Bracket a colour temperature among the calibrated ones (given by ascending
/// keys), at the first calibration that is not below it.
pub fn ct_bracket(cts: &[i64], c: i64) -> (b: Bracket)
    requires
        cts.len() > 0,
    ensures
        bracket_in(b, cts.len() as int),
        is_bracket(cts@, c, b),
{
    let j: usize = search_left(cts, c);
    assert(is_search_left(cts@, c, j as int));
    if j == 0 {
        Bracket::At(0)
    } else if j >= cts.len() {
        Bracket::At(cts.len() - 1)
    } else {
        Bracket::Between(j - 1, j)
    }
}

/// A bracketed colour temperature lies above the lower calibration and not above
/// the upper one.
pub proof fn law_bracket_encloses(cts: Seq<i64>, c: i64, j: int)
    requires
        is_search_left(cts, c, j),
        0 < j < cts.len(),
    ensures
        cts[j - 1] < c <= cts[j],
{
}

/// A colour temperature has one bracket.
pub proof fn law_bracket_is_unique(cts: Seq<i64>, c: i64, a: Bracket, b: Bracket)
    requires
        is_bracket(cts, c, a),
        is_bracket(cts, c, b),
    ensures
        a == b,
{
    let i = choose|i: int| #[trigger]
        is_search_left(cts, c, i) && a == (if i == 0 {
            Bracket::At(0)
        } else if i == cts.len() {
            Bracket::At((cts.len() - 1) as usize)
        } else {
            Bracket::Between((i - 1) as usize, i as usize)
        });
    let j = choose|j: int| #[trigger]
        is_search_left(cts, c, j) && b == (if j == 0 {
            Bracket::At(0)
        } else if j == cts.len() {
            Bracket::At((cts.len() - 1) as usize)
        } else {
            Bracket::Between((j - 1) as usize, j as usize)
        });
    if i < j {
        assert(cts[i] < c);
    }
    if j < i {
        assert(cts[j] < c);
    }
}

/// The two neighbouring hue sectors of a sector position, going round the circle.
pub fn sector_pair(floor: i64, sectors: usize) -> (pair: (usize, usize))
    requires
        0 < sectors <= i64::MAX,
    ensures
        pair.0 == floor as int % (sectors as int),
        pair.1 == (floor as int + 1) % (sectors as int),
        pair.0 < sectors,
        pair.1 < sectors,
{
    let n: i64 = sectors as i64;
    proof {
        vstd::arithmetic::div_mod::lemma_mod_bound(floor as int, n as int);
        vstd::arithmetic::div_mod::lemma_add_mod_noop(floor as int, 1, n as int);
        if n > 1 {
            vstd::arithmetic::div_mod::lemma_small_mod(1, n as nat);
        }
        let a = floor as int % (n as int);
        if a + 1 < n {
            vstd::arithmetic::div_mod::lemma_small_mod((a + 1) as nat, n as nat);
        } else {
            vstd::arithmetic::div_mod::lemma_mod_self_0(n as int);
        }
    }
    let a: usize = if floor >= 0 {
        (floor % n) as usize
    } else {
        let back: i64 = -(floor + 1);
        proof {
            let (q, m) = (back as int / n as int, back as int % n as int);
            vstd::arithmetic::div_mod::lemma_fundamental_div_mod(back as int, n as int);
            vstd::arithmetic::div_mod::lemma_mod_bound(back as int, n as int);
            assert(floor as int == -(q + 1) * n + (n - 1 - m)) by (nonlinear_arith)
                requires
                    -(floor + 1) == n * q + m,
            ;
            vstd::arithmetic::div_mod::lemma_fundamental_div_mod_converse(
                floor as int,
                n as int,
                -(q + 1),
                n - 1 - m,
            );
        }
        (n - 1 - back % n) as usize
    };
    let b: usize = if a + 1 < sectors {
        a + 1
    } else {
        0
    };
    (a, b)
}

/// `out` is the calibrated matrices `m` interpolated at `b`: one of them as it is,
/// or two blended entry by entry.
pub open spec fn is_interpolated<V, K: Scene<V>>(
    k: K,
    cct: K::D,
    m: Seq<[K::T; 9]>,
    b: Bracket,
    out: [K::D; 9],
) -> bool {
    match b {
        Bracket::At(j) => forall|n: int|
            0 <= n < 9 ==> call_ensures(
                <K as Scene<V>>::widen,
                (&k, m[j as int][n]),
                #[trigger] out@[n],
            ),
        Bracket::Between(i, j) => forall|n: int|
            0 <= n < 9 ==> call_ensures(
                <K as Scene<V>>::blend,
                (&k, &cct, b, m[i as int][n], m[j as int][n]),
                #[trigger] out@[n],
            ),
    }
}

/// The bracket names calibrations that are there.
pub open spec fn bracket_in(b: Bracket, n: int) -> bool {
    match b {
        Bracket::At(j) => j < n,
        Bracket::Between(i, j) => i < n && j < n,
    }
}

/// Interpolate calibrated matrices at a bracket.
pub fn interp_ccm<V, K: Scene<V>>(
    k: &K,
    cct: &K::D,
    m: &[[K::T; 9]],
    b: Bracket,
) -> (out: [K::D; 9])
    requires
        bracket_in(b, m.len() as int),
    ensures
        is_interpolated::<V, K>(*k, *cct, m@, b, out),
{
    match b {
        Bracket::At(j) => {
            let a: [K::T; 9] = m[j];
            [
                k.widen(a[0]),
                k.widen(a[1]),
                k.widen(a[2]),
                k.widen(a[3]),
                k.widen(a[4]),
                k.widen(a[5]),
                k.widen(a[6]),
                k.widen(a[7]),
                k.widen(a[8]),
            ]
        },
        Bracket::Between(i, j) => {
            let a: [K::T; 9] = m[i];
            let c: [K::T; 9] = m[j];
            [
                k.blend(cct, b, a[0], c[0]),
                k.blend(cct, b, a[1], c[1]),
                k.blend(cct, b, a[2], c[2]),
                k.blend(cct, b, a[3], c[3]),
                k.blend(cct, b, a[4], c[4]),
                k.blend(cct, b, a[5], c[5]),
                k.blend(cct, b, a[6], c[6]),
                k.blend(cct, b, a[7], c[7]),
                k.blend(cct, b, a[8], c[8]),
            ]
        },
    }
}

/// One sector's matrix at each calibration; calibrations hold their sectors one
/// after the other.
pub open spec fn sector_column<T>(acm: Seq<[T; 9]>, sector: int, calibrations: int) -> Seq<[T; 9]> {
    Seq::new(calibrations as nat, |c: int| acm[c * ACM_NSEC + sector])
}

/// `out` holds every sector's matrices interpolated at `b`.
pub open spec fn is_acm_interpolated<V, K: Scene<V>>(
    k: K,
    cct: K::D,
    acm: Seq<[K::T; 9]>,
    calibrations: int,
    b: Bracket,
    out: AcmFrame<K::D>,
) -> bool {
    &&& out.mats.len() == ACM_NSEC
    &&& forall|s: int|
        0 <= s < ACM_NSEC ==> is_interpolated::<V, K>(
            k,
            cct,
            sector_column(acm, s, calibrations),
            b,
            #[trigger] out.mats@[s],
        )
}

/// Interpolate the per-sector matrices at a bracket, identically to
/// [`interp_ccm`].
pub fn interp_acm<V, K: Scene<V>>(
    k: &K,
    cct: &K::D,
    acm: &[[K::T; 9]],
    calibrations: usize,
    b: Bracket,
) -> (out: AcmFrame<K::D>)
    requires
        acm.len() == calibrations * ACM_NSEC,
        bracket_in(b, calibrations as int),
    ensures
        is_acm_interpolated::<V, K>(*k, *cct, acm@, calibrations as int, b, out),
{
    let mut mats: Vec<[K::D; 9]> = Vec::with_capacity(ACM_NSEC);
    let mut s: usize = 0;
    while s < ACM_NSEC
        invariant
            acm.len() == calibrations * ACM_NSEC,
            bracket_in(b, calibrations as int),
            s <= ACM_NSEC,
            mats.len() == s,
            forall|n: int|
                0 <= n < s ==> is_interpolated::<V, K>(
                    *k,
                    *cct,
                    sector_column(acm@, n, calibrations as int),
                    b,
                    #[trigger] mats@[n],
                ),
        decreases ACM_NSEC - s,
    {
        let mut column: Vec<[K::T; 9]> = Vec::with_capacity(calibrations);
        let mut c: usize = 0;
        while c < calibrations
            invariant
                acm.len() == calibrations * ACM_NSEC,
                s < ACM_NSEC,
                c <= calibrations,
                column.len() == c,
                forall|n: int| 0 <= n < c ==> #[trigger] column@[n] == acm@[n * ACM_NSEC + s],
            decreases calibrations - c,
        {
            column.push(acm[c * ACM_NSEC + s]);
            c += 1;
        }
        proof {
            assert(column@ =~= sector_column(acm@, s as int, calibrations as int));
        }
        let m: [K::D; 9] = interp_ccm::<V, K>(k, cct, &column, b);
        mats.push(m);
        s += 1;
    }
    AcmFrame { mats }
}

/// `m` is the matrix for a hue: the two neighbouring sectors' matrices blended,
/// and that faded into the global one.
pub open spec fn is_sector_matrix<K: Kernels>(
    k: K,
    look: Look<K::S, K::D>,
    hue: Hue<K::Q>,
    m: [K::D; 9],
) -> bool {
    forall|n: int|
        0 <= n < 9 ==> is_sector_entry(
            k,
            hue,
            look.est.ccm@[n],
            look.acm.mats@[hue.sector as int % ACM_NSEC as int]@[n],
            look.acm.mats@[(hue.sector as int + 1) % ACM_NSEC as int]@[n],
            #[trigger] m@[n],
        )
}

/// `out` is one entry of such a matrix.
pub open spec fn is_sector_entry<K: Kernels>(
    k: K,
    hue: Hue<K::Q>,
    global: K::D,
    a: K::D,
    b: K::D,
    out: K::D,
) -> bool {
    exists|ms: K::D| #[trigger]
        call_ensures(<K as Kernels>::mix, (&k, hue.frac, a, b), ms) && call_ensures(
            <K as Kernels>::mix,
            (&k, hue.weight, global, ms),
            out,
        )
}

/// One entry of the matrix for a hue.
fn sector_entry<K: Kernels>(k: &K, hue: &Hue<K::Q>, global: K::D, a: K::D, b: K::D) -> (out: K::D)
    ensures
        is_sector_entry(*k, *hue, global, a, b, out),
{
    let ms: K::D = k.mix(hue.frac, a, b);
    k.mix(hue.weight, global, ms)
}

/// The matrix for a hue.
pub fn sector_matrix<K: Kernels>(look: &Look<K::S, K::D>, hue: &Hue<K::Q>, k: &K) -> (m: [K::D; 9])
    requires
        look.wf(),
    ensures
        is_sector_matrix(*k, *look, *hue, m),
{
    let (ia, ib): (usize, usize) = sector_pair(hue.sector, ACM_NSEC);
    let g: &[K::D; 9] = &look.est.ccm;
    let a: &[K::D; 9] = &look.acm.mats[ia];
    let b: &[K::D; 9] = &look.acm.mats[ib];
    [
        sector_entry(k, hue, g[0], a[0], b[0]),
        sector_entry(k, hue, g[1], a[1], b[1]),
        sector_entry(k, hue, g[2], a[2], b[2]),
        sector_entry(k, hue, g[3], a[3], b[3]),
        sector_entry(k, hue, g[4], a[4], b[4]),
        sector_entry(k, hue, g[5], a[5], b[5]),
        sector_entry(k, hue, g[6], a[6], b[6]),
        sector_entry(k, hue, g[7], a[7], b[7]),
        sector_entry(k, hue, g[8], a[8], b[8]),
    ]
}

/// `out` is a linear pixel after colour correction for its hue: the matrix of the
/// hue's sectors, then the skin band and the yellow band scaled down.
pub open spec fn is_hue_corrected<K: Kernels>(
    k: K,
    look: Look<K::S, K::D>,
    hue: Hue<K::Q>,
    p: K::P,
    out: K::P,
) -> bool {
    exists|m: [K::D; 9], corrected: K::P, skin: K::P|
        {
            &&& is_sector_matrix(k, look, hue, m)
            &&& #[trigger] call_ensures(<K as Kernels>::matrix, (&k, &m, p), corrected)
            &&& #[trigger] call_ensures(
                <K as Kernels>::desaturate,
                (&k, Band::Skin, corrected),
                skin,
            )
            &&& call_ensures(<K as Kernels>::desaturate, (&k, Band::Yellow, skin), out)
        }
}

/// `out` is a linear pixel after hue-sectored colour correction. The hue that
/// selects the sectors is that of the globally corrected colour, which is also the
/// result where it has none.
pub open spec fn is_acm_color<K: Kernels>(
    k: K,
    look: Look<K::S, K::D>,
    p: K::P,
    out: K::P,
) -> bool {
    exists|global: K::P, hue: Option<Hue<K::Q>>|
        {
            &&& #[trigger] call_ensures(<K as Kernels>::matrix, (&k, &look.est.ccm, p), global)
            &&& #[trigger] call_ensures(<K as Kernels>::hue, (&k, global), hue)
            &&& match hue {
                Some(hue) => is_hue_corrected(k, look, hue, p, out),
                None => out == global,
            }
        }
}

/// Apply the hue-sectored colour correction to one white-balanced linear pixel
/// (after highlight desaturation). The look holds the global matrix and the
/// per-sector ones for its CCT.
pub fn acm_color<K: Kernels>(p: K::P, look: &Look<K::S, K::D>, k: &K) -> (out: K::P)
    requires
        look.wf(),
    ensures
        is_acm_color(*k, *look, p, out),
{
    let global: K::P = k.matrix(&look.est.ccm, p);
    match k.hue(global) {
        Some(hue) => {
            let m: [K::D; 9] = sector_matrix(look, &hue, k);
            let corrected: K::P = k.matrix(&m, p);
            let skin: K::P = k.desaturate(Band::Skin, corrected);
            k.desaturate(Band::Yellow, skin)
        },
        None => global,
    }
}

/// `out` is a linear pixel after the colour stage: highlights, then colour
/// correction.
pub open spec fn is_coloured<K: Kernels>(k: K, look: Look<K::S, K::D>, p: K::P, out: K::P) -> bool {
    exists|h: K::P| #[trigger]
        call_ensures(<K as Kernels>::highlight, (&k, p), h) && is_acm_color(k, look, h, out)
}

/// The colour stage on one linear pixel.
pub fn coloured<K: Kernels>(p: K::P, look: &Look<K::S, K::D>, k: &K) -> (out: K::P)
    requires
        look.wf(),
    ensures
        is_coloured(*k, *look, p, out),
{
    let h: K::P = k.highlight(p);
    acm_color(h, look, k)
}

/// The colour stage is highlights, then a matrix, then, for a colour with a hue, the
/// skin band and the yellow band, each once. Whether it has a hue is asked of the pixel
/// after the global matrix, and a pixel without one keeps that. The matrix for a hue
/// takes the place of the global one, and does not come on top of it. `trace` reads the
/// steps that a pixel has behind it, and `vivid` says of them whether it has a hue.
pub proof fn law_colour_stages_come_in_order<K: Kernels>(
    k: K,
    look: Look<K::S, K::D>,
    p: K::P,
    out: K::P,
    trace: spec_fn(K::P) -> Seq<int>,
    tag: spec_fn([K::D; 9]) -> int,
    vivid: spec_fn(Seq<int>) -> bool,
)
    requires
        is_coloured(k, look, p, out),
        forall|a: K::P, b: K::P| #[trigger]
            call_ensures(<K as Kernels>::highlight, (&k, a), b) ==> trace(b) == trace(a).push(-1),
        forall|m: [K::D; 9], a: K::P, b: K::P| #[trigger]
            call_ensures(<K as Kernels>::matrix, (&k, &m, a), b) ==> trace(b) == trace(a).push(
                tag(m),
            ),
        forall|a: K::P, b: K::P| #[trigger]
            call_ensures(<K as Kernels>::desaturate, (&k, Band::Skin, a), b) ==> trace(b) == trace(
                a,
            ).push(-2),
        forall|a: K::P, b: K::P| #[trigger]
            call_ensures(<K as Kernels>::desaturate, (&k, Band::Yellow, a), b) ==> trace(b)
                == trace(a).push(-3),
        forall|a: K::P, hue: Option<Hue<K::Q>>| #[trigger]
            call_ensures(<K as Kernels>::hue, (&k, a), hue) ==> (hue is Some) == vivid(trace(a)),
    ensures
        !vivid(trace(p) + seq![-1, tag(look.est.ccm)]) ==> trace(out) == trace(p) + seq![
            -1,
            tag(look.est.ccm),
        ],
        vivid(trace(p) + seq![-1, tag(look.est.ccm)]) ==> exists|m: [K::D; 9]|
            trace(out) == trace(p) + seq![-1, #[trigger] tag(m), -2, -3],
{
    let h = choose|h: K::P| #[trigger]
        call_ensures(<K as Kernels>::highlight, (&k, p), h) && is_acm_color(k, look, h, out);
    let (global, hue) = choose|global: K::P, hue: Option<Hue<K::Q>>|
        {
            &&& #[trigger] call_ensures(<K as Kernels>::matrix, (&k, &look.est.ccm, h), global)
            &&& #[trigger] call_ensures(<K as Kernels>::hue, (&k, global), hue)
            &&& match hue {
                Some(hue) => is_hue_corrected(k, look, hue, h, out),
                None => out == global,
            }
        };
    assert(trace(global) =~= trace(p) + seq![-1, tag(look.est.ccm)]);
    if let Some(hue) = hue {
        let (m, corrected, skin) = choose|m: [K::D; 9], corrected: K::P, skin: K::P|
            {
                &&& is_sector_matrix(k, look, hue, m)
                &&& #[trigger] call_ensures(<K as Kernels>::matrix, (&k, &m, h), corrected)
                &&& #[trigger] call_ensures(
                    <K as Kernels>::desaturate,
                    (&k, Band::Skin, corrected),
                    skin,
                )
                &&& call_ensures(<K as Kernels>::desaturate, (&k, Band::Yellow, skin), out)
            };
        assert(trace(out) =~= trace(p) + seq![-1, tag(m), -2, -3]);
    }
}

/// The matrix for a hue is that of the sector before it and that of the one after it,
/// which follows the twenty-fourth with the first, in the ratio of the hue's place
/// between them, and of that and the global matrix in the ratio of its weight. Sector
/// positions a full circle apart are one sector. This is of blends that are linear:
/// `part` reads a weight in `whole`ths, and `val` an entry.
pub proof fn law_hue_blends_its_two_sectors<K: Kernels>(
    k: K,
    look: Look<K::S, K::D>,
    hue: Hue<K::Q>,
    m: [K::D; 9],
    val: spec_fn(K::D) -> int,
    part: spec_fn(K::Q) -> int,
    whole: int,
    circles: int,
    sector: int,
    n: int,
)
    requires
        is_sector_matrix(k, look, hue, m),
        forall|q: K::Q, a: K::D, b: K::D, c: K::D| #[trigger]
            call_ensures(<K as Kernels>::mix, (&k, q, a, b), c) ==> whole * val(c) == (whole - part(
                q,
            )) * val(a) + part(q) * val(b),
        hue.sector == 24 * circles + sector,
        0 <= sector < 24,
        0 <= n < 9,
    ensures
        ({
            let (f, u) = (part(hue.frac), part(hue.weight));
            let a = val(look.acm.mats@[sector]@[n]);
            let b = val(look.acm.mats@[if sector == 23 {
                0
            } else {
                sector + 1
            }]@[n]);
            whole * (whole * val(m@[n])) == whole * ((whole - u) * val(look.est.ccm@[n])) + u * ((
            whole - f) * a + f * b)
        }),
{
    let s = hue.sector as int;
    vstd::arithmetic::div_mod::lemma_fundamental_div_mod_converse(s, 24, circles, sector);
    if sector == 23 {
        vstd::arithmetic::div_mod::lemma_fundamental_div_mod_converse(s + 1, 24, circles + 1, 0);
    } else {
        vstd::arithmetic::div_mod::lemma_fundamental_div_mod_converse(
            s + 1,
            24,
            circles,
            sector + 1,
        );
    }
    let g = look.est.ccm@[n];
    let a = look.acm.mats@[s % 24]@[n];
    let b = look.acm.mats@[(s + 1) % 24]@[n];
    assert(is_sector_entry(k, hue, g, a, b, m@[n]));
    let ms = choose|ms: K::D| #[trigger]
        call_ensures(<K as Kernels>::mix, (&k, hue.frac, a, b), ms) && call_ensures(
            <K as Kernels>::mix,
            (&k, hue.weight, g, ms),
            m@[n],
        );
    let (f, u) = (part(hue.frac), part(hue.weight));
    let v = val(ms);
    assert(whole * val(m@[n]) == (whole - u) * val(g) + u * v);
    let blended = (whole - f) * val(a) + f * val(b);
    assert(whole * v == blended);
    let kept = (whole - u) * val(g);
    assert(whole * (kept + u * v) == whole * kept + u * (whole * v)) by (nonlinear_arith);
}

/// A colour with a hue gets the matrix of its hue: the one that
/// [`law_hue_blends_its_two_sectors`] speaks of, entry by entry. `trace` reads the steps
/// that a pixel has behind it, and of a matrix entry `n`.
pub proof fn law_colours_get_the_matrix_of_their_hue<K: Kernels>(
    k: K,
    look: Look<K::S, K::D>,
    p: K::P,
    out: K::P,
    trace: spec_fn(K::P) -> Seq<int>,
    hue: Hue<K::Q>,
    val: spec_fn(K::D) -> int,
    part: spec_fn(K::Q) -> int,
    whole: int,
    circles: int,
    sector: int,
    n: int,
)
    requires
        is_coloured(k, look, p, out),
        forall|a: K::P, b: K::P| #[trigger]
            call_ensures(<K as Kernels>::highlight, (&k, a), b) ==> trace(b) == trace(a).push(-1),
        forall|m: [K::D; 9], a: K::P, b: K::P| #[trigger]
            call_ensures(<K as Kernels>::matrix, (&k, &m, a), b) ==> trace(b) == trace(a).push(
                val(m@[n]),
            ),
        forall|a: K::P, b: K::P| #[trigger]
            call_ensures(<K as Kernels>::desaturate, (&k, Band::Skin, a), b) ==> trace(b) == trace(
                a,
            ).push(-2),
        forall|a: K::P, b: K::P| #[trigger]
            call_ensures(<K as Kernels>::desaturate, (&k, Band::Yellow, a), b) ==> trace(b)
                == trace(a).push(-3),
        forall|a: K::P, h: Option<Hue<K::Q>>| #[trigger]
            call_ensures(<K as Kernels>::hue, (&k, a), h) ==> h == Some(hue),
        forall|q: K::Q, a: K::D, b: K::D, c: K::D| #[trigger]
            call_ensures(<K as Kernels>::mix, (&k, q, a, b), c) ==> whole * val(c) == (whole - part(
                q,
            )) * val(a) + part(q) * val(b),
        hue.sector == 24 * circles + sector,
        0 <= sector < 24,
        0 <= n < 9,
    ensures
        ({
            let (f, u) = (part(hue.frac), part(hue.weight));
            let a = val(look.acm.mats@[sector]@[n]);
            let b = val(look.acm.mats@[if sector == 23 {
                0
            } else {
                sector + 1
            }]@[n]);
            let e = trace(out)[trace(p).len() as int + 1];
            &&& trace(out) == trace(p) + seq![-1, e, -2, -3]
            &&& whole * (whole * e) == whole * ((whole - u) * val(look.est.ccm@[n])) + u * ((whole
                - f) * a + f * b)
        }),
{
    let h = choose|h: K::P| #[trigger]
        call_ensures(<K as Kernels>::highlight, (&k, p), h) && is_acm_color(k, look, h, out);
    let (global, found) = choose|global: K::P, found: Option<Hue<K::Q>>|
        {
            &&& #[trigger] call_ensures(<K as Kernels>::matrix, (&k, &look.est.ccm, h), global)
            &&& #[trigger] call_ensures(<K as Kernels>::hue, (&k, global), found)
            &&& match found {
                Some(hue) => is_hue_corrected(k, look, hue, h, out),
                None => out == global,
            }
        };
    let (m, corrected, skin) = choose|m: [K::D; 9], corrected: K::P, skin: K::P|
        {
            &&& is_sector_matrix(k, look, hue, m)
            &&& #[trigger] call_ensures(<K as Kernels>::matrix, (&k, &m, h), corrected)
            &&& #[trigger] call_ensures(
                <K as Kernels>::desaturate,
                (&k, Band::Skin, corrected),
                skin,
            )
            &&& call_ensures(<K as Kernels>::desaturate, (&k, Band::Yellow, skin), out)
        };
    assert(trace(out) =~= trace(p) + seq![-1, val(m@[n]), -2, -3]);
    law_hue_blends_its_two_sectors(k, look, hue, m, val, part, whole, circles, sector, n);
}

} // verus!
