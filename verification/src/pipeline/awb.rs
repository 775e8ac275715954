//! Robust-neutral white balance: which pixels vote, and which light source is
//! chosen.
//!
//! Chroma arithmetic is real-valued: it is the [`Scene`]'s, or comes in as order
//! keys (see [`crate::order`]). The choice of voters, the order statistics over their
//! chroma and the switch between calibrated light sources stand here.

use vstd::prelude::*;

use crate::order::{
    at_most, below, first_min, is_first_min, is_middle, is_percentile, is_rank,
    law_middle_splits_in_half, law_percentile_splits, law_rank_is_in_range, lemma_at_most_below,
    lemma_below_grows, median, percentile_select, Middle, Percentile,
};
use crate::pipeline::bayer::Planes;
use crate::pipeline::scene::{Scene, NUM_CCM};
use crate::rows::tabulate;

verus! {

/// Minimum number of pixels a mask must select before its median chroma is
/// trusted; below this the next, looser mask is tried.
pub const AWB_MIN_SAMPLES: usize = 100;

/// Percentile of the green channel from which a pixel counts as bright.
pub const AWB_BRIGHT_PERCENTILE: usize = 60;

/// What is known of one pixel as a white-balance sample.
#[derive(Debug, Clone, Copy, PartialEq, Eq, Structural)]
pub struct PixelFlags {
    /// Green is far enough from black to divide by.
    pub valid: bool,
    /// No channel is near clipping.
    pub unclipped: bool,
    /// Green reaches the bright percentile.
    pub bright: bool,
    /// The chroma lies near the calibrated white locus.
    pub near: bool,
}

/// The pixel masks, in order of decreasing strictness. The two that require a
/// chroma near the white locus reject large saturated objects, which would
/// otherwise drag the gray-world median.
#[derive(Debug, Clone, Copy, PartialEq, Eq, Structural)]
pub enum Mask {
    NeutralBright,
    Neutral,
    UnclippedBright,
    Unclipped,
    Bright,
    Valid,
}

/// Place of a mask in the order in which masks are tried.
pub open spec fn strictness(m: Mask) -> int {
    match m {
        Mask::NeutralBright => 0,
        Mask::Neutral => 1,
        Mask::UnclippedBright => 2,
        Mask::Unclipped => 3,
        Mask::Bright => 4,
        Mask::Valid => 5,
    }
}

/// The mask keeps a pixel.
pub open spec fn keeps(m: Mask, f: PixelFlags) -> bool {
    match m {
        Mask::NeutralBright => f.valid && f.unclipped && f.bright && f.near,
        Mask::Neutral => f.valid && f.unclipped && f.near,
        Mask::UnclippedBright => f.valid && f.unclipped && f.bright,
        Mask::Unclipped => f.valid && f.unclipped,
        Mask::Bright => f.valid && f.bright,
        Mask::Valid => f.valid,
    }
}

/// How many pixels a mask keeps.
pub open spec fn kept(flags: Seq<PixelFlags>, m: Mask) -> nat
    decreases flags.len(),
{
    if flags.len() == 0 {
        0
    } else {
        kept(flags.drop_last(), m) + if keeps(m, flags.last()) {
            1nat
        } else {
            0nat
        }
    }
}

/// `idx` lists, in ascending order, exactly the pixels that a mask keeps.
pub open spec fn is_selection(flags: Seq<PixelFlags>, m: Mask, idx: Seq<usize>) -> bool {
    &&& forall|j: int| 0 <= j < idx.len() ==> (#[trigger] idx[j]) < flags.len() && keeps(m, flags[idx[j] as int])
    &&& forall|i: int, j: int| 0 <= i < j < idx.len() ==> #[trigger] idx[i] < #[trigger] idx[j]
    &&& forall|i: int|
        0 <= i < flags.len() && keeps(m, #[trigger] flags[i]) ==> idx.contains(i as usize)
}

/// Does the mask keep a pixel?
fn mask_keeps(m: Mask, f: PixelFlags) -> (b: bool)
    ensures
        b == keeps(m, f),
{
    match m {
        Mask::NeutralBright => f.valid && f.unclipped && f.bright && f.near,
        Mask::Neutral => f.valid && f.unclipped && f.near,
        Mask::UnclippedBright => f.valid && f.unclipped && f.bright,
        Mask::Unclipped => f.valid && f.unclipped,
        Mask::Bright => f.valid && f.bright,
        Mask::Valid => f.valid,
    }
}

/// List the pixels that a mask keeps.
pub fn awb_select(flags: &[PixelFlags], m: Mask) -> (idx: Vec<usize>)
    ensures
        is_selection(flags@, m, idx@),
        idx.len() == kept(flags@, m),
{
    let mut idx: Vec<usize> = Vec::new();
    let mut i: usize = 0;
    while i < flags.len()
        invariant
            i <= flags.len(),
            is_selection(flags@.take(i as int), m, idx@),
            idx.len() == kept(flags@.take(i as int), m),
        decreases flags.len() - i,
    {
        let ghost before = idx@;
        let ghost seen = flags@.take(i as int);
        let ghost next = flags@.take(i + 1);
        proof {
            assert(next.drop_last() =~= seen);
            assert(next.last() == flags@[i as int]);
        }
        if mask_keeps(m, flags[i]) {
            idx.push(i);
            proof {
                assert forall|k: int|
                    0 <= k < next.len() && keeps(m, #[trigger] next[k]) implies idx@.contains(
                    k as usize,
                ) by {
                    if k < i {
                        assert(seen[k] == next[k]);
                        let j = choose|j: int| 0 <= j < before.len() && before[j] == k as usize;
                        assert(idx@[j] == k as usize);
                    } else {
                        assert(idx@[before.len() as int] == k as usize);
                    }
                }
                assert forall|j: int| 0 <= j < idx@.len() implies (#[trigger] idx@[j]) < next.len()
                    && keeps(m, next[idx@[j] as int]) by {
                    if j < before.len() {
                        assert(idx@[j] == before[j]);
                        assert(seen[before[j] as int] == next[before[j] as int]);
                    }
                }
            }
        } else {
            proof {
                assert forall|k: int|
                    0 <= k < next.len() && keeps(m, #[trigger] next[k]) implies idx@.contains(
                    k as usize,
                ) by {
                    assert(k < i);
                    assert(seen[k] == next[k]);
                }
                assert forall|j: int| 0 <= j < idx@.len() implies (#[trigger] idx@[j]) < next.len()
                    && keeps(m, next[idx@[j] as int]) by {
                    assert(seen[idx@[j] as int] == next[idx@[j] as int]);
                }
            }
        }
        i += 1;
    }
    proof {
        assert(flags@.take(flags@.len() as int) =~= flags@);
    }
    idx
}

/// The pixels that vote.
#[derive(Debug, Clone, PartialEq, Eq)]
pub enum Voters {
    /// Enough pixels pass the mask: the median chroma over them is trusted.
    Median { mask: Mask, idx: Vec<usize> },
    /// Too few pixels pass any mask: the mean over these, all the valid ones.
    Mean { idx: Vec<usize> },
    /// No valid pixel at all (a near-black frame): assume neutral.
    Neutral,
}

/// `v` is the choice the flags call for: the first mask in order that keeps
/// enough pixels; failing all, the valid pixels; failing those, none.
pub open spec fn is_choice(flags: Seq<PixelFlags>, v: Voters) -> bool {
    match v {
        Voters::Median { mask, idx } => {
            &&& is_selection(flags, mask, idx@)
            &&& idx.len() == kept(flags, mask)
            &&& kept(flags, mask) >= AWB_MIN_SAMPLES
            &&& forall|m: Mask|
                strictness(m) < strictness(mask) ==> #[trigger] kept(flags, m) < AWB_MIN_SAMPLES
        },
        Voters::Mean { idx } => {
            &&& is_selection(flags, Mask::Valid, idx@)
            &&& idx.len() > 0
            &&& forall|m: Mask| #[trigger] kept(flags, m) < AWB_MIN_SAMPLES
        },
        Voters::Neutral => {
            &&& kept(flags, Mask::Valid) == 0
            &&& forall|m: Mask| #[trigger] kept(flags, m) < AWB_MIN_SAMPLES
        },
    }
}

/// Choose the voters: try the masks in order of decreasing strictness, with
/// graceful fallbacks so the selection never collapses to empty.
pub fn choose_voters(flags: &[PixelFlags]) -> (v: Voters)
    ensures
        is_choice(flags@, v),
{
    let idx: Vec<usize> = awb_select(flags, Mask::NeutralBright);
    if idx.len() >= AWB_MIN_SAMPLES {
        return Voters::Median { mask: Mask::NeutralBright, idx };
    }
    let idx: Vec<usize> = awb_select(flags, Mask::Neutral);
    if idx.len() >= AWB_MIN_SAMPLES {
        return Voters::Median { mask: Mask::Neutral, idx };
    }
    let idx: Vec<usize> = awb_select(flags, Mask::UnclippedBright);
    if idx.len() >= AWB_MIN_SAMPLES {
        return Voters::Median { mask: Mask::UnclippedBright, idx };
    }
    let idx: Vec<usize> = awb_select(flags, Mask::Unclipped);
    if idx.len() >= AWB_MIN_SAMPLES {
        return Voters::Median { mask: Mask::Unclipped, idx };
    }
    let idx: Vec<usize> = awb_select(flags, Mask::Bright);
    if idx.len() >= AWB_MIN_SAMPLES {
        return Voters::Median { mask: Mask::Bright, idx };
    }
    let idx: Vec<usize> = awb_select(flags, Mask::Valid);
    if idx.len() >= AWB_MIN_SAMPLES {
        return Voters::Median { mask: Mask::Valid, idx };
    }
    assert forall|m: Mask| #[trigger] kept(flags@, m) < AWB_MIN_SAMPLES by {
        match m {
            Mask::NeutralBright => {},
            Mask::Neutral => {},
            Mask::UnclippedBright => {},
            Mask::Unclipped => {},
            Mask::Bright => {},
            Mask::Valid => {},
        }
    }
    if idx.len() > 0 {
        Voters::Mean { idx }
    } else {
        Voters::Neutral
    }
}

/// Every pixel a mask keeps is kept by the valid mask, and a mask that adds a
/// condition keeps no more pixels than the one without it.
pub proof fn law_masks_are_nested(flags: Seq<PixelFlags>, m: Mask)
    ensures
        kept(flags, m) <= kept(flags, Mask::Valid),
        kept(flags, Mask::NeutralBright) <= kept(flags, Mask::Neutral),
        kept(flags, Mask::NeutralBright) <= kept(flags, Mask::UnclippedBright),
        kept(flags, Mask::Neutral) <= kept(flags, Mask::Unclipped),
        kept(flags, Mask::UnclippedBright) <= kept(flags, Mask::Unclipped),
        kept(flags, Mask::UnclippedBright) <= kept(flags, Mask::Bright),
    decreases flags.len(),
{
    if flags.len() > 0 {
        law_masks_are_nested(flags.drop_last(), m);
    }
}

/// The selection never collapses: the voters' chroma is a median over at least
/// `AWB_MIN_SAMPLES` pixels exactly when that many pixels are valid at all, and
/// neutral is assumed exactly when none is.
pub proof fn law_selection_never_collapses(flags: Seq<PixelFlags>, v: Voters)
    requires
        is_choice(flags, v),
    ensures
        v is Median <==> kept(flags, Mask::Valid) >= AWB_MIN_SAMPLES,
        v is Neutral <==> kept(flags, Mask::Valid) == 0,
{
    match v {
        Voters::Median { mask, idx } => {
            law_masks_are_nested(flags, mask);
        },
        Voters::Mean { idx } => {
            let i = idx@[0] as int;
            assert(i < flags.len() && keeps(Mask::Valid, flags[i]));
            lemma_kept_positive(flags, Mask::Valid, i);
            assert(kept(flags, Mask::Valid) < AWB_MIN_SAMPLES);
        },
        Voters::Neutral => {
            assert(kept(flags, Mask::Valid) < AWB_MIN_SAMPLES);
        },
    }
}

/// A kept pixel counts.
pub proof fn lemma_kept_positive(flags: Seq<PixelFlags>, m: Mask, i: int)
    requires
        0 <= i < flags.len(),
        keeps(m, flags[i]),
    ensures
        kept(flags, m) > 0,
    decreases flags.len(),
{
    if i < flags.len() - 1 {
        assert(flags.drop_last()[i] == flags[i]);
        lemma_kept_positive(flags.drop_last(), m, i);
    }
}

/// Without a valid pixel, the valid mask keeps none.
pub proof fn lemma_none_valid(flags: Seq<PixelFlags>)
    requires
        forall|i: int| 0 <= i < flags.len() ==> !(#[trigger] flags[i]).valid,
    ensures
        kept(flags, Mask::Valid) == 0,
    decreases flags.len(),
{
    if flags.len() > 0 {
        let rest = flags.drop_last();
        assert forall|i: int| 0 <= i < rest.len() implies !(#[trigger] rest[i]).valid by {
            assert(rest[i] == flags[i]);
        }
        lemma_none_valid(rest);
    }
}

/// A dominant coloured object does not vote: where enough near-neutral pixels
/// exist, no pixel off the white locus is among the voters.
pub proof fn law_coloured_objects_do_not_vote(flags: Seq<PixelFlags>, v: Voters, i: usize)
    requires
        is_choice(flags, v),
        kept(flags, Mask::Neutral) >= AWB_MIN_SAMPLES,
        i < flags.len(),
        !flags[i as int].near,
    ensures
        v is Median,
        !v->Median_idx@.contains(i),
{
    law_masks_are_nested(flags, Mask::Neutral);
    law_selection_never_collapses(flags, v);
    let mask = v->mask;
    if strictness(mask) > 1 {
        assert(kept(flags, Mask::Neutral) < AWB_MIN_SAMPLES);
    }
    let idx = v->Median_idx@;
    if idx.contains(i) {
        let j = choose|j: int| 0 <= j < idx.len() && idx[j] == i;
        assert(keeps(mask, flags[idx[j] as int]));
    }
}

/// The white-balance statistics of one frame.
#[derive(Debug, Clone, PartialEq, Eq)]
pub struct AwbStats<S> {
    /// Green of each tile.
    pub green: Vec<S>,
    /// The bright percentile of green; `None` for an empty frame.
    pub bright: Option<Percentile>,
    /// What is known of each pixel.
    pub flags: Vec<PixelFlags>,
    /// The pixels that vote.
    pub voters: Voters,
    /// The middles of red over green and blue over green among the voters; `None`
    /// unless the voters' median is trusted.
    pub chroma: Option<(Middle, Middle)>,
}

/// `keys` are the keys of `values`, one for one.
pub open spec fn are_keys<V, K: Scene<V>>(k: K, values: Seq<K::S>, keys: Seq<i32>) -> bool {
    &&& keys.len() == values.len()
    &&& forall|i: int|
        0 <= i < values.len() ==> call_ensures(
            <K as Scene<V>>::green_key,
            (&k, values[i]),
            #[trigger] keys[i],
        )
}

/// `keys` are the keys of `plane` over `green` at the voters, one for one.
pub open spec fn are_ratios<V, K: Scene<V>>(
    k: K,
    plane: Seq<V>,
    green: Seq<K::S>,
    idx: Seq<usize>,
    keys: Seq<i32>,
) -> bool {
    &&& keys.len() == idx.len()
    &&& forall|j: int|
        0 <= j < idx.len() ==> call_ensures(
            <K as Scene<V>>::ratio_key,
            (&k, plane[idx[j] as int], green[idx[j] as int]),
            #[trigger] keys[j],
        )
}

/// `m` is the middle of `plane` over `green` among the voters.
pub open spec fn is_ratio_middle<V, K: Scene<V>>(
    k: K,
    plane: Seq<V>,
    green: Seq<K::S>,
    idx: Seq<usize>,
    m: Middle,
) -> bool {
    exists|keys: Seq<i32>| #[trigger]
        are_ratios::<V, K>(k, plane, green, idx, keys) && is_middle(keys, m)
}

/// `near` says for each segment of the white locus whether a pixel's chroma lies
/// near it.
pub open spec fn are_near<V, K: Scene<V>>(k: K, r: V, g: K::S, b: V, near: Seq<bool>) -> bool {
    &&& near.len() == NUM_CCM - 1
    &&& forall|i: int|
        0 <= i < NUM_CCM - 1 ==> call_ensures(
            <K as Scene<V>>::near,
            (&k, i as usize, r, g, b),
            #[trigger] near[i],
        )
}

/// `f` is what is known of a pixel. Its chroma is looked at only when its green
/// can be divided by, and is near the locus when it is near one of the segments.
pub open spec fn is_classified<V, K: Scene<V>>(
    k: K,
    r: V,
    g: K::S,
    b: V,
    bright: Option<Percentile>,
    f: PixelFlags,
) -> bool {
    &&& call_ensures(<K as Scene<V>>::valid, (&k, g), f.valid)
    &&& call_ensures(<K as Scene<V>>::unclipped, (&k, r, g, b), f.unclipped)
    &&& call_ensures(<K as Scene<V>>::bright, (&k, g, bright), f.bright)
    &&& if f.valid {
        exists|near: Seq<bool>| #[trigger]
            are_near::<V, K>(k, r, g, b, near) && f.near == near.contains(true)
    } else {
        !f.near
    }
}

/// What is known of a pixel as a white-balance sample, given the bright percentile
/// of green.
pub fn classify<V: Copy, K: Scene<V>>(
    r: V,
    g: K::S,
    b: V,
    bright: Option<Percentile>,
    k: &K,
) -> (f: PixelFlags)
    ensures
        is_classified::<V, K>(*k, r, g, b, bright, f),
{
    let valid: bool = k.valid(g);
    let unclipped: bool = k.unclipped(r, g, b);
    let is_bright: bool = k.bright(g, bright);
    let mut near: bool = false;
    if valid {
        let ghost mut seen: Seq<bool> = Seq::empty();
        let mut i: usize = 0;
        while i < NUM_CCM - 1
            invariant
                i <= NUM_CCM - 1,
                seen.len() == i,
                near == seen.contains(true),
                forall|j: int|
                    0 <= j < i ==> call_ensures(
                        <K as Scene<V>>::near,
                        (k, j as usize, r, g, b),
                        #[trigger] seen[j],
                    ),
            decreases NUM_CCM - 1 - i,
        {
            let here: bool = k.near(i, r, g, b);
            proof {
                let next = seen.push(here);
                assert(next[i as int] == here);
                if near {
                    let j = choose|j: int| 0 <= j < seen.len() && seen[j] == true;
                    assert(next[j] == true);
                }
                seen = next;
            }
            near = near || here;
            i += 1;
        }
        assert(are_near::<V, K>(*k, r, g, b, seen));
    }
    PixelFlags { valid, unclipped, bright: is_bright, near }
}

/// `st` holds the white-balance statistics of `p`.
pub open spec fn is_stats<V, K: Scene<V>>(k: K, p: Planes<V>, st: AwbStats<K::S>) -> bool {
    let n = p.hh * p.ww;
    &&& st.green.len() == n
    &&& forall|i: int|
        0 <= i < n ==> call_ensures(
            <K as Scene<V>>::green,
            (&k, p.gr[i], p.gb[i]),
            #[trigger] st.green@[i],
        )
    &&& match st.bright {
        Some(b) => exists|keys: Seq<i32>| #[trigger]
            are_keys::<V, K>(k, st.green@, keys) && is_percentile(
                keys,
                AWB_BRIGHT_PERCENTILE as int,
                b,
            ),
        None => n == 0,
    }
    &&& st.flags.len() == n
    &&& forall|i: int|
        0 <= i < n ==> is_classified::<V, K>(
            k,
            p.r[i],
            st.green@[i],
            p.b[i],
            st.bright,
            #[trigger] st.flags@[i],
        )
    &&& is_choice(st.flags@, st.voters)
    &&& match (st.voters, st.chroma) {
        (Voters::Median { mask, idx }, Some((rg, bg))) => is_ratio_middle::<V, K>(
            k,
            p.r@,
            st.green@,
            idx@,
            rg,
        ) && is_ratio_middle::<V, K>(k, p.b@, st.green@, idx@, bg),
        (Voters::Median { mask, idx }, None) => false,
        (_, chroma) => chroma is None,
    }
}

/// The middle of one plane over green among the voters.
fn ratio_middle<V: Copy, K: Scene<V>>(
    k: &K,
    plane: &[V],
    green: &[K::S],
    idx: &[usize],
) -> (m: Middle)
    requires
        idx.len() > 0,
        plane.len() == green.len(),
        forall|j: int| 0 <= j < idx.len() ==> #[trigger] idx@[j] < plane.len(),
    ensures
        is_ratio_middle::<V, K>(*k, plane@, green@, idx@, m),
{
    let one = |j: usize| -> (key: i32)
        requires
            j < idx.len(),
        ensures
            call_ensures(
                <K as Scene<V>>::ratio_key,
                (k, plane@[idx@[j as int] as int], green@[idx@[j as int] as int]),
                key,
            ),
        {
            assert(idx@[j as int] < plane.len());
            k.ratio_key(plane[idx[j]], green[idx[j]])
        };
    let mut keys: Vec<i32> = tabulate(idx.len(), &one);
    assert forall|j: int| 0 <= j < idx.len() implies call_ensures(
        <K as Scene<V>>::ratio_key,
        (k, plane@[idx@[j] as int], green@[idx@[j] as int]),
        #[trigger] keys@[j],
    ) by {
        assert(call_ensures(one, (j as usize,), keys@[j]));
    }
    assert(are_ratios::<V, K>(*k, plane@, green@, idx@, keys@));
    match median(&mut keys) {
        Some(m) => m,
        None => Middle { lo: 0, hi: 0 },
    }
}

/// Robust-neutral statistics: green of every tile, its bright percentile, the
/// voters among bright, non-clipped, near-neutral pixels (with graceful
/// fallbacks), and the middles of their chroma.
pub fn robust_neutral<V: Copy, K: Scene<V>>(p: &Planes<V>, k: &K) -> (st: AwbStats<K::S>)
    requires
        p.wf(),
    ensures
        is_stats::<V, K>(*k, *p, st),
{
    let n: usize = p.gr.len();
    let green_at = |i: usize| -> (s: K::S)
        requires
            i < p.gr.len(),
        ensures
            call_ensures(<K as Scene<V>>::green, (k, p.gr@[i as int], p.gb@[i as int]), s),
        { k.green(p.gr[i], p.gb[i]) };
    let green: Vec<K::S> = tabulate(n, &green_at);
    assert forall|i: int| 0 <= i < n implies call_ensures(
        <K as Scene<V>>::green,
        (k, p.gr[i], p.gb[i]),
        #[trigger] green@[i],
    ) by {
        assert(call_ensures(green_at, (i as usize,), green@[i]));
    }
    let g: &Vec<K::S> = &green;
    let key_at = |i: usize| -> (key: i32)
        requires
            i < g.len(),
        ensures
            call_ensures(<K as Scene<V>>::green_key, (k, g@[i as int]), key),
        { k.green_key(g[i]) };
    let mut keys: Vec<i32> = tabulate(n, &key_at);
    assert forall|i: int| 0 <= i < n implies call_ensures(
        <K as Scene<V>>::green_key,
        (k, green@[i]),
        #[trigger] keys@[i],
    ) by {
        assert(call_ensures(key_at, (i as usize,), keys@[i]));
    }
    assert(are_keys::<V, K>(*k, green@, keys@));
    let bright: Option<Percentile> = percentile_select(&mut keys, AWB_BRIGHT_PERCENTILE);
    let flags_at = |i: usize| -> (f: PixelFlags)
        requires
            i < p.gr.len(),
        ensures
            is_classified::<V, K>(
                *k,
                p.r@[i as int],
                g@[i as int],
                p.b@[i as int],
                bright,
                f,
            ),
        { classify(p.r[i], g[i], p.b[i], bright, k) };
    let flags: Vec<PixelFlags> = tabulate(n, &flags_at);
    assert forall|i: int| 0 <= i < n implies is_classified::<V, K>(
        *k,
        p.r[i],
        green@[i],
        p.b[i],
        bright,
        #[trigger] flags@[i],
    ) by {
        assert(call_ensures(flags_at, (i as usize,), flags@[i]));
    }
    let voters: Voters = choose_voters(&flags);
    let chroma: Option<(Middle, Middle)> = match &voters {
        Voters::Median { mask: _, idx } => Some(
            (ratio_middle(k, &p.r, &green, idx), ratio_middle(k, &p.b, &green, idx)),
        ),
        _ => None,
    };
    AwbStats { green, bright, flags, voters, chroma }
}

/// The source that hysteresis settles on: the previous one while its distance is
/// within the relaxed distance of the nearest, else the nearest.
pub open spec fn settled(dists: Seq<i64>, relaxed: Seq<i64>, prev: Option<usize>, best: int) -> int {
    match prev {
        Some(p) => if dists[p as int] <= relaxed[best] {
            p as int
        } else {
            best
        },
        None => best,
    }
}

/// Choose the LSC light source nearest the scene chroma, with hysteresis: when
/// `prev` is given, keep it unless another source is closer even after its
/// distance is relaxed. Without it, pick the plain nearest source. `dists` and
/// `relaxed` are the keys of each source's distance and of its relaxed distance.
pub fn select_ls_hyst(dists: &[i64], relaxed: &[i64], prev: Option<usize>) -> (ls: usize)
    requires
        dists.len() > 0,
        relaxed.len() == dists.len(),
        prev is Some ==> prev->0 < dists.len(),
    ensures
        ls < dists.len(),
        exists|best: int| #[trigger]
            is_first_min(dists@, best) && ls == settled(dists@, relaxed@, prev, best),
{
    let best: usize = first_min(dists);
    assert(is_first_min(dists@, best as int));
    match prev {
        Some(p) => if dists[p] <= relaxed[best] {
            p
        } else {
            best
        },
        None => best,
    }
}

/// The chosen source is stable: with the scene unchanged, the next choice is the
/// same, so the shading never flips back and forth.
pub proof fn law_light_source_is_stable(
    dists: Seq<i64>,
    relaxed: Seq<i64>,
    prev: Option<usize>,
    best: int,
)
    requires
        is_first_min(dists, best),
        relaxed.len() == dists.len(),
        dists.len() <= usize::MAX,
        prev is Some ==> prev->0 < dists.len(),
        forall|k: int| 0 <= k < dists.len() ==> dists[k] <= #[trigger] relaxed[k],
    ensures
        settled(dists, relaxed, Some(settled(dists, relaxed, prev, best) as usize), best) == settled(
            dists,
            relaxed,
            prev,
            best,
        ),
{
}

/// Equal green values have equal keys, and `keys` are those of `green`.
pub open spec fn are_the_keys<V, K: Scene<V>>(k: K, green: Seq<K::S>, keys: Seq<i32>) -> bool {
    &&& keys.len() == green.len()
    &&& forall|i: int, key: i32|
        0 <= i < green.len() && #[trigger] call_ensures(
            <K as Scene<V>>::green_key,
            (&k, green[i]),
            key,
        ) ==> key == keys[i]
}

/// Brightness is judged at the 60th percentile of green: no more than 60 percent of the
/// pixels lie strictly below the level's lower bracket, and no more than 40 percent
/// strictly above its upper one. `keys` are the keys of green.
pub proof fn law_level_splits_the_frame<V, K: Scene<V>>(
    k: K,
    p: Planes<V>,
    st: AwbStats<K::S>,
    keys: Seq<i32>,
    b: Percentile,
)
    requires
        is_stats::<V, K>(k, p, st),
        st.bright == Some(b),
        are_the_keys::<V, K>(k, st.green@, keys),
    ensures
        100 * below(keys, b.lo) <= 60 * keys.len(),
        100 * (keys.len() - at_most(keys, b.hi)) <= 40 * keys.len(),
        b.lo <= b.hi,
{
    lemma_the_keys::<V, K>(k, p, st, keys, b);
    law_percentile_splits(keys, 60, b);
}

/// The level's keys are the keys.
proof fn lemma_the_keys<V, K: Scene<V>>(
    k: K,
    p: Planes<V>,
    st: AwbStats<K::S>,
    keys: Seq<i32>,
    b: Percentile,
)
    requires
        is_stats::<V, K>(k, p, st),
        st.bright == Some(b),
        are_the_keys::<V, K>(k, st.green@, keys),
    ensures
        is_percentile(keys, 60, b),
{
    let s = choose|s: Seq<i32>| #[trigger]
        are_keys::<V, K>(k, st.green@, s) && is_percentile(s, AWB_BRIGHT_PERCENTILE as int, b);
    assert forall|i: int| 0 <= i < s.len() implies s[i] == keys[i] by {
        assert(call_ensures(<K as Scene<V>>::green_key, (&k, st.green@[i]), s[i]));
    }
    assert(s =~= keys);
}

/// Shade does not vote. Where fewer than 60 percent of the pixels are darker than some
/// level of green (`dim`) and enough of the pixels pass the strictest mask, every
/// voter is at least that bright. This is of a bright gate that compares with the
/// percentile: what passes is not below its lower bracket, and is above it where the
/// percentile lies strictly between two different values.
pub proof fn law_shade_does_not_vote<V, K: Scene<V>>(
    k: K,
    p: Planes<V>,
    st: AwbStats<K::S>,
    keys: Seq<i32>,
    dim: i32,
    js: Seq<int>,
    j: int,
)
    requires
        is_stats::<V, K>(k, p, st),
        are_the_keys::<V, K>(k, st.green@, keys),
        forall|i: int, b: Percentile, pass: bool|
            0 <= i < keys.len() && #[trigger] call_ensures(
                <K as Scene<V>>::bright,
                (&k, st.green@[i], Some(b)),
                pass,
            ) && pass ==> b.lo <= keys[i] && (b.lo < b.hi && b.frac.num > 0 ==> b.lo < keys[i]),
        100 * below(keys, dim) < 60 * keys.len(),
        js.len() >= 100,
        forall|a: int, b: int| 0 <= a < b < js.len() ==> #[trigger] js[a] < #[trigger] js[b],
        forall|a: int|
            0 <= a < js.len() ==> 0 <= #[trigger] js[a] < st.flags.len() && {
                let f = st.flags@[js[a]];
                f.valid && f.unclipped && f.bright && f.near
            },
    ensures
        match st.voters {
            Voters::Median { mask: _, idx } => 0 <= j < idx.len() ==> idx@[j] < keys.len()
                && keys[idx@[j] as int] >= dim,
            _ => false,
        },
{
    law_strict_pixels_vote_alone(st.flags@, st.voters, js, j);
    let b = st.bright->0;
    if let Voters::Median { mask: _, idx } = st.voters {
        if 0 <= j < idx.len() {
            let i = idx@[j] as int;
            assert(st.flags@[i].bright);
            assert(is_classified::<V, K>(
                k,
                p.r[i],
                st.green@[i],
                p.b[i],
                st.bright,
                st.flags@[i],
            ));
            lemma_the_keys::<V, K>(k, p, st, keys, b);
            assert(call_ensures(<K as Scene<V>>::bright, (&k, st.green@[i], Some(b)), true));
            let n = keys.len() as int;
            let pos = (n - 1) * 60;
            if b.lo < dim {
                lemma_at_most_below(keys, b.lo, dim);
                // Then the rank of the lower bracket is the last dim one, and the
                // upper bracket is not dim.
                assert(below(keys, dim) > pos / 100);
                assert(pos % 100 != 0);
                if b.hi < dim {
                    lemma_at_most_below(keys, b.hi, dim);
                }
                if keys[i] < dim {
                    lemma_between_ranks(keys, pos / 100, b.lo, dim, i);
                }
            }
        }
    }
}

/// Below `dim` there are as many values as places up to rank `r`, so none of them is
/// above the one of that rank.
proof fn lemma_between_ranks(keys: Seq<i32>, r: int, lo: i32, dim: i32, i: int)
    requires
        is_rank(keys, r, lo),
        below(keys, dim) == r + 1,
        0 <= i < keys.len(),
        keys[i] < dim,
    ensures
        keys[i] <= lo,
{
    if lo < keys[i] {
        // The values up to `lo` fill every place below `dim` already.
        lemma_at_most_below(keys, lo, keys[i]);
        lemma_below_grows(keys, i, dim);
    }
}

/// The pixels that pass a condition are at least the ones listed.
proof fn lemma_kept_at_least(flags: Seq<PixelFlags>, m: Mask, js: Seq<int>)
    requires
        forall|a: int, b: int| 0 <= a < b < js.len() ==> #[trigger] js[a] < #[trigger] js[b],
        forall|a: int|
            0 <= a < js.len() ==> 0 <= #[trigger] js[a] < flags.len() && keeps(m, flags[js[a]]),
    ensures
        kept(flags, m) >= js.len(),
    decreases flags.len(),
{
    if js.len() > 0 {
        assert(0 <= js[0] < flags.len());
        let rest = flags.drop_last();
        let last = js[js.len() - 1];
        if last == flags.len() - 1 {
            let fewer = js.drop_last();
            assert forall|a: int| 0 <= a < fewer.len() implies 0 <= #[trigger] fewer[a] < rest.len()
                && keeps(m, rest[fewer[a]]) by {
                assert(fewer[a] == js[a] && js[a] < js[js.len() - 1]);
            }
            assert forall|a: int, b: int| 0 <= a < b < fewer.len() implies #[trigger] fewer[a]
                < #[trigger] fewer[b] by {
                assert(js[a] < js[b]);
            }
            lemma_kept_at_least(rest, m, fewer);
            assert(keeps(m, flags.last()));
        } else {
            assert forall|a: int| 0 <= a < js.len() implies 0 <= #[trigger] js[a] < rest.len()
                && keeps(m, rest[js[a]]) by {
                if a < js.len() - 1 {
                    assert(js[a] < js[js.len() - 1]);
                }
            }
            lemma_kept_at_least(rest, m, js);
        }
    }
}

/// Where a hundred pixels (`js`) are bright, unclipped, valid and near the white locus,
/// exactly the pixels that are all of that vote.
pub proof fn law_strict_pixels_vote_alone(
    flags: Seq<PixelFlags>,
    v: Voters,
    js: Seq<int>,
    j: int,
)
    requires
        is_choice(flags, v),
        flags.len() <= usize::MAX,
        js.len() >= 100,
        forall|a: int, b: int| 0 <= a < b < js.len() ==> #[trigger] js[a] < #[trigger] js[b],
        forall|a: int|
            0 <= a < js.len() ==> 0 <= #[trigger] js[a] < flags.len() && flags[js[a]].valid
                && flags[js[a]].unclipped && flags[js[a]].bright && flags[js[a]].near,
    ensures
        match v {
            Voters::Median { mask: _, idx } => {
                &&& 0 <= j < idx.len() ==> idx@[j] < flags.len() && {
                    let f = flags[idx@[j] as int];
                    f.valid && f.unclipped && f.bright && f.near
                }
                &&& 0 <= j < flags.len() && flags[j].valid && flags[j].unclipped && flags[j].bright
                    && flags[j].near ==> idx@.contains(j as usize)
            },
            _ => false,
        },
{
    lemma_kept_at_least(flags, Mask::NeutralBright, js);
    law_masks_are_nested(flags, Mask::NeutralBright);
    law_selection_never_collapses(flags, v);
    if let Voters::Median { mask, idx } = v {
        if strictness(mask) > strictness(Mask::NeutralBright) {
            assert(kept(flags, Mask::NeutralBright) < AWB_MIN_SAMPLES);
        }
        assert(mask == Mask::NeutralBright);
        if 0 <= j < idx.len() {
            assert(keeps(mask, flags[idx@[j] as int]));
        }
        if 0 <= j < flags.len() && keeps(mask, flags[j]) {
            assert(idx@.contains(j as usize));
        }
    }
}

/// What enough pixels are, every voter is. Where a hundred pixels (`js`) are valid, no
/// other pixel votes; where a hundred are unclipped as well, no clipped pixel votes;
/// where a hundred of those are near the white locus, none off it does.
pub proof fn law_voters_are_as_good_as_a_hundred(
    flags: Seq<PixelFlags>,
    v: Voters,
    js: Seq<int>,
    unclipped: bool,
    near: bool,
    j: int,
)
    requires
        is_choice(flags, v),
        near ==> unclipped,
        js.len() >= 100,
        forall|a: int, b: int| 0 <= a < b < js.len() ==> #[trigger] js[a] < #[trigger] js[b],
        forall|a: int|
            0 <= a < js.len() ==> 0 <= #[trigger] js[a] < flags.len() && flags[js[a]].valid && (
            unclipped ==> flags[js[a]].unclipped) && (near ==> flags[js[a]].near),
    ensures
        match v {
            Voters::Median { mask: _, idx } => {
                &&& idx.len() >= 100
                &&& 0 <= j < idx.len() ==> idx@[j] < flags.len() && {
                    let f = flags[idx@[j] as int];
                    f.valid && (unclipped ==> f.unclipped) && (near ==> f.near)
                }
            },
            _ => false,
        },
{
    let m = if near {
        Mask::Neutral
    } else if unclipped {
        Mask::Unclipped
    } else {
        Mask::Valid
    };
    lemma_kept_at_least(flags, m, js);
    law_masks_are_nested(flags, m);
    law_selection_never_collapses(flags, v);
    if let Voters::Median { mask, idx } = v {
        if strictness(mask) > strictness(m) {
            assert(kept(flags, m) < AWB_MIN_SAMPLES);
        }
        if 0 <= j < idx.len() {
            assert(keeps(mask, flags[idx@[j] as int]));
        }
    }
}

/// A pixel is near the white locus when it is near any of its four segments, and not
/// when it is near none; a pixel that cannot be divided by is not. This is of
/// arithmetic that says one thing of a pixel and a segment.
pub proof fn law_near_is_near_any_segment<V, K: Scene<V>>(
    k: K,
    p: Planes<V>,
    st: AwbStats<K::S>,
    near: Seq<bool>,
    i: int,
)
    requires
        is_stats::<V, K>(k, p, st),
        0 <= i < st.flags.len(),
        near.len() == 4,
        forall|s: usize, v: bool|
            s < 4 && #[trigger] call_ensures(
                <K as Scene<V>>::near,
                (&k, s, p.r@[i], st.green@[i], p.b@[i]),
                v,
            ) ==> v == near[s as int],
    ensures
        st.flags@[i].near == (st.flags@[i].valid && (near[0] || near[1] || near[2] || near[3])),
{
    let f = st.flags@[i];
    assert(is_classified::<V, K>(k, p.r[i], st.green@[i], p.b[i], st.bright, f));
    if f.valid {
        let n = choose|n: Seq<bool>| #[trigger]
            are_near::<V, K>(k, p.r[i], st.green@[i], p.b[i], n) && f.near == n.contains(true);
        assert forall|s: int| 0 <= s < 4 implies n[s] == near[s] by {
            assert(call_ensures(
                <K as Scene<V>>::near,
                (&k, s as usize, p.r[i], st.green@[i], p.b[i]),
                n[s],
            ));
        }
        if n.contains(true) {
            let s = choose|s: int| 0 <= s < n.len() && n[s] == true;
            assert(near[s]);
        }
        if near[0] || near[1] || near[2] || near[3] {
            let s: int = if near[0] {
                0
            } else if near[1] {
                1
            } else if near[2] {
                2
            } else {
                3
            };
            assert(n[s] == true);
        }
    }
}

/// The measured chroma is that of the voters: red over green within what the voters'
/// red over green is, and blue over green within what their blue is, with no more than
/// half of the voters strictly to either side.
pub proof fn law_chroma_is_the_voters<V, K: Scene<V>>(
    k: K,
    p: Planes<V>,
    st: AwbStats<K::S>,
    red: Seq<i32>,
    blue: Seq<i32>,
)
    requires
        is_stats::<V, K>(k, p, st),
        match st.voters {
            Voters::Median { mask: _, idx } => {
                &&& red.len() == idx.len()
                &&& blue.len() == idx.len()
                &&& forall|j: int, key: i32|
                    0 <= j < idx.len() && #[trigger] call_ensures(
                        <K as Scene<V>>::ratio_key,
                        (&k, p.r@[idx@[j] as int], st.green@[idx@[j] as int]),
                        key,
                    ) ==> key == red[j]
                &&& forall|j: int, key: i32|
                    0 <= j < idx.len() && #[trigger] call_ensures(
                        <K as Scene<V>>::ratio_key,
                        (&k, p.b@[idx@[j] as int], st.green@[idx@[j] as int]),
                        key,
                    ) ==> key == blue[j]
            },
            _ => false,
        },
    ensures
        match st.chroma {
            Some((rg, bg)) => {
                &&& 2 * below(red, rg.hi) <= red.len()
                &&& 2 * (red.len() - at_most(red, rg.lo)) <= red.len()
                &&& 2 * below(blue, bg.hi) <= blue.len()
                &&& 2 * (blue.len() - at_most(blue, bg.lo)) <= blue.len()
                &&& forall|least: int, most: int|
                    (forall|j: int| 0 <= j < red.len() ==> least <= #[trigger] red[j] <= most)
                        ==> #[trigger] within(rg, least, most)
                &&& forall|least: int, most: int|
                    (forall|j: int| 0 <= j < blue.len() ==> least <= #[trigger] blue[j] <= most)
                        ==> #[trigger] within(bg, least, most)
            },
            None => false,
        },
{
    if let (Voters::Median { mask: _, idx }, Some((rg, bg))) = (st.voters, st.chroma) {
        lemma_middle_of_ratios::<V, K>(k, p.r@, st.green@, idx@, red, rg);
        lemma_middle_of_ratios::<V, K>(k, p.b@, st.green@, idx@, blue, bg);
    }
}

/// Both middles lie in a range.
pub open spec fn within(m: Middle, least: int, most: int) -> bool {
    least <= m.lo <= most && least <= m.hi <= most
}

/// The middle of a plane over green among the voters, by its keys.
pub proof fn lemma_middle_of_ratios<V, K: Scene<V>>(
    k: K,
    plane: Seq<V>,
    green: Seq<K::S>,
    idx: Seq<usize>,
    keys: Seq<i32>,
    m: Middle,
)
    requires
        is_ratio_middle::<V, K>(k, plane, green, idx, m),
        keys.len() == idx.len(),
        idx.len() > 0,
        forall|j: int, key: i32|
            0 <= j < idx.len() && #[trigger] call_ensures(
                <K as Scene<V>>::ratio_key,
                (&k, plane[idx[j] as int], green[idx[j] as int]),
                key,
            ) ==> key == keys[j],
    ensures
        is_middle(keys, m),
        2 * below(keys, m.hi) <= keys.len(),
        2 * (keys.len() - at_most(keys, m.lo)) <= keys.len(),
        forall|least: int, most: int|
            (forall|j: int| 0 <= j < keys.len() ==> least <= #[trigger] keys[j] <= most)
                ==> #[trigger] within(m, least, most),
{
    let s = choose|s: Seq<i32>| #[trigger]
        are_ratios::<V, K>(k, plane, green, idx, s) && is_middle(s, m);
    assert forall|j: int| 0 <= j < s.len() implies s[j] == keys[j] by {
        assert(call_ensures(
            <K as Scene<V>>::ratio_key,
            (&k, plane[idx[j] as int], green[idx[j] as int]),
            s[j],
        ));
    }
    assert(s =~= keys);
    law_middle_splits_in_half(keys, m);
    assert forall|least: int, most: int|
        (forall|j: int| 0 <= j < keys.len() ==> least <= #[trigger] keys[j] <= most) implies
        #[trigger] within(m, least, most) by {
        law_rank_is_in_range(keys, (keys.len() - 1) / 2, m.lo, least, most);
        law_rank_is_in_range(keys, keys.len() as int / 2, m.hi, least, most);
    }
}

/// The chosen light source is near: without a previous one it is a nearest; with one,
/// it is the previous one exactly when that is within the relaxed distance of the first
/// nearest, which is chosen otherwise.
pub proof fn law_chosen_source_is_near(
    dists: Seq<i64>,
    relaxed: Seq<i64>,
    prev: Option<usize>,
    best: int,
    ls: int,
)
    requires
        is_first_min(dists, best),
        ls == settled(dists, relaxed, prev, best),
        relaxed.len() == dists.len(),
        prev is Some ==> prev->0 < dists.len(),
    ensures
        0 <= ls < dists.len(),
        prev is None ==> forall|j: int| 0 <= j < dists.len() ==> dists[ls] <= #[trigger] dists[j],
        prev is None ==> forall|j: int| 0 <= j < ls ==> dists[ls] < #[trigger] dists[j],
        prev is Some && ls != prev->0 ==> dists[prev->0 as int] > relaxed[ls] && forall|j: int|
            0 <= j < dists.len() ==> dists[ls] <= #[trigger] dists[j],
        prev is Some && dists[prev->0 as int] <= relaxed[best] ==> ls == prev->0,
{
}

/// The order in which kinds of pixel are preferred: by what is asked of them beside
/// being valid. Nearness to the white locus counts most, then being unclipped, then being
/// bright.
pub open spec fn kind_rank(unclipped: bool, bright: bool, near: bool) -> int {
    (if near {
        0int
    } else if unclipped {
        2int
    } else {
        4int
    }) + (if bright {
        0int
    } else {
        1int
    })
}

/// The voters are all the pixels of the most preferred kind of which there are a hundred:
/// wherever a hundred pixels (`js`) are of a kind, the voters are a hundred or more, are
/// exactly the valid pixels of one kind, and no kind is preferred to theirs of which there
/// are as many.
pub proof fn law_first_kind_with_a_hundred_votes(
    flags: Seq<PixelFlags>,
    v: Voters,
    js: Seq<int>,
    unclipped: bool,
    bright: bool,
    near: bool,
) -> (kind: (bool, bool, bool))
    requires
        is_choice(flags, v),
        flags.len() <= usize::MAX,
        near ==> unclipped,
        js.len() >= 100,
        forall|a: int, b: int| 0 <= a < b < js.len() ==> #[trigger] js[a] < #[trigger] js[b],
        forall|a: int|
            0 <= a < js.len() ==> 0 <= #[trigger] js[a] < flags.len() && {
                let f = flags[js[a]];
                f.valid && (unclipped ==> f.unclipped) && (bright ==> f.bright) && (near ==> f.near)
            },
    ensures
        kind.2 ==> kind.0,
        kind_rank(kind.0, kind.1, kind.2) <= kind_rank(unclipped, bright, near),
        match v {
            Voters::Median { mask: _, idx } => {
                &&& idx.len() >= 100
                &&& forall|i: int|
                    0 <= i < flags.len() ==> (#[trigger] idx@.contains(i as usize) <==> {
                        let f = flags[i];
                        f.valid && (kind.0 ==> f.unclipped) && (kind.1 ==> f.bright) && (kind.2
                            ==> f.near)
                    })
            },
            _ => false,
        },
{
    let m = if near {
        if bright {
            Mask::NeutralBright
        } else {
            Mask::Neutral
        }
    } else if unclipped {
        if bright {
            Mask::UnclippedBright
        } else {
            Mask::Unclipped
        }
    } else if bright {
        Mask::Bright
    } else {
        Mask::Valid
    };
    lemma_kept_at_least(flags, m, js);
    law_masks_are_nested(flags, m);
    law_selection_never_collapses(flags, v);
    match v {
        Voters::Median { mask, idx } => {
            if strictness(mask) > strictness(m) {
                assert(kept(flags, m) < AWB_MIN_SAMPLES);
            }
            let kind = match mask {
                Mask::NeutralBright => (true, true, true),
                Mask::Neutral => (true, false, true),
                Mask::UnclippedBright => (true, true, false),
                Mask::Unclipped => (true, false, false),
                Mask::Bright => (false, true, false),
                Mask::Valid => (false, false, false),
            };
            assert forall|i: int| 0 <= i < flags.len() implies (#[trigger] idx@.contains(i as usize)
                <==> keeps(mask, flags[i])) by {
                if idx@.contains(i as usize) {
                    let j = choose|j: int| 0 <= j < idx.len() && idx@[j] == i as usize;
                    assert(keeps(mask, flags[idx@[j] as int]));
                }
                if keeps(mask, flags[i]) {
                    assert(idx@.contains(i as usize));
                }
            }
            kind
        },
        _ => (true, true, true),
    }
}

/// Where no hundred pixels are valid, all the valid ones are averaged; where none is, the
/// scene counts as neutral.
pub proof fn law_few_pixels_are_averaged(flags: Seq<PixelFlags>, v: Voters, js: Seq<int>)
    requires
        is_choice(flags, v),
        flags.len() <= usize::MAX,
        forall|a: int, b: int| 0 <= a < b < js.len() ==> #[trigger] js[a] < #[trigger] js[b],
        forall|a: int|
            0 <= a < js.len() ==> 0 <= #[trigger] js[a] < flags.len() && flags[js[a]].valid,
    ensures
        match v {
            Voters::Median { mask: _, idx } => idx.len() >= 100,
            Voters::Mean { idx } => {
                &&& js.len() < 100
                &&& idx.len() > 0
                &&& forall|i: int|
                    0 <= i < flags.len() ==> (#[trigger] idx@.contains(i as usize)
                        <==> flags[i].valid)
            },
            Voters::Neutral => js.len() == 0,
        },
{
    lemma_kept_at_least(flags, Mask::Valid, js);
    law_selection_never_collapses(flags, v);
    match v {
        Voters::Mean { idx } => {
            assert(kept(flags, Mask::Valid) < AWB_MIN_SAMPLES);
            assert forall|i: int| 0 <= i < flags.len() implies (#[trigger] idx@.contains(i as usize)
                <==> flags[i].valid) by {
                if idx@.contains(i as usize) {
                    let j = choose|j: int| 0 <= j < idx.len() && idx@[j] == i as usize;
                    assert(keeps(Mask::Valid, flags[idx@[j] as int]));
                }
                if keeps(Mask::Valid, flags[i]) {
                    assert(idx@.contains(i as usize));
                }
            }
        },
        _ => {},
    }
}

/// Each pixel is judged by its own values: clipping by its red, its green and its blue,
/// validity and brightness by its green, which is that of both greens of its tile.
/// `clear`, `usable` and `shines` are what the arithmetic says of them, and `level` reads a
/// green.
pub proof fn law_pixels_are_judged_by_their_own_values<V, K: Scene<V>>(
    k: K,
    p: Planes<V>,
    st: AwbStats<K::S>,
    mix: spec_fn(V, V) -> int,
    level: spec_fn(K::S) -> int,
    clear: spec_fn(V, int, V) -> bool,
    usable: spec_fn(int) -> bool,
    shines: spec_fn(int, Option<Percentile>) -> bool,
    i: int,
)
    requires
        p.wf(),
        is_stats::<V, K>(k, p, st),
        forall|a: V, b: V, g: K::S| #[trigger]
            call_ensures(<K as Scene<V>>::green, (&k, a, b), g) ==> level(g) == mix(a, b),
        forall|r: V, g: K::S, b: V, v: bool| #[trigger]
            call_ensures(<K as Scene<V>>::unclipped, (&k, r, g, b), v) ==> v == clear(
                r,
                level(g),
                b,
            ),
        forall|g: K::S, v: bool| #[trigger]
            call_ensures(<K as Scene<V>>::valid, (&k, g), v) ==> v == usable(level(g)),
        forall|g: K::S, b: Option<Percentile>, v: bool| #[trigger]
            call_ensures(<K as Scene<V>>::bright, (&k, g, b), v) ==> v == shines(level(g), b),
        0 <= i < p.hh * p.ww,
    ensures
        ({
            let g = mix(p.gr@[i], p.gb@[i]);
            &&& level(st.green@[i]) == g
            &&& st.flags@[i].valid == usable(g)
            &&& st.flags@[i].unclipped == clear(p.r@[i], g, p.b@[i])
            &&& st.flags@[i].bright == shines(g, st.bright)
        }),
{
    assert(call_ensures(<K as Scene<V>>::green, (&k, p.gr[i], p.gb[i]), st.green@[i]));
    assert(is_classified::<V, K>(k, p.r[i], st.green@[i], p.b[i], st.bright, st.flags@[i]));
}

} // verus!
