//! Row-major grids, evaluated row by row on the thread pool.
//!
//! Every image stage writes each output row from its own inputs only, so rows
//! may be computed in any order and on any thread with the same result. The
//! functions here hold that pattern once: [`grid`] evaluates a function of
//! `(row, column)` over a rectangle, and [`at`] is how contracts read the result.

use rayon::iter::{IntoParallelIterator, ParallelIterator};
use vstd::prelude::*;

verus! {

/// The element in row `y`, column `x` of a row-major grid of width `w`.
pub open spec fn at<T>(s: Seq<T>, w: int, y: int, x: int) -> T {
    s[y * w + x]
}

/// Rows of an `h` by `w` grid do not overlap and stay inside it.
pub proof fn lemma_cell(h: int, w: int, y: int, x: int)
    requires
        0 <= y < h,
        0 <= x < w,
    ensures
        0 <= y * w + x < h * w,
        y * w + x < (y + 1) * w,
        (y + 1) * w == y * w + w,
        (y + 1) * w <= h * w,
{
    assert((y + 1) * w == y * w + w) by (nonlinear_arith);
    assert(0 <= y * w) by (nonlinear_arith)
        requires
            0 <= y,
            0 <= w,
    ;
    assert((y + 1) * w <= h * w) by (nonlinear_arith)
        requires
            y + 1 <= h,
            0 <= w,
    ;
}

/// A flat index names exactly one cell: its row is the quotient by the width and
/// its column the remainder.
pub proof fn lemma_cell_of_index(h: int, w: int, i: int)
    requires
        0 <= i < h * w,
        0 <= h,
        0 <= w,
    ensures
        w > 0,
        0 <= i / w < h,
        0 <= i % w < w,
        (i / w) * w + i % w == i,
{
    if w == 0 {
        assert(h * 0 == 0) by (nonlinear_arith);
    }
    vstd::arithmetic::div_mod::lemma_fundamental_div_mod(i, w);
    vstd::arithmetic::div_mod::lemma_mod_bound(i, w);
    assert(w * (i / w) == (i / w) * w) by (nonlinear_arith);
    vstd::arithmetic::div_mod::lemma_div_pos_is_pos(i, w);
    if i / w >= h {
        assert((i / w) * w >= h * w) by (nonlinear_arith)
            requires
                i / w >= h,
                w > 0,
        ;
    }
}

/// Two grids of the same size that agree on every cell are the same sequence.
pub proof fn lemma_grids_equal<T>(a: Seq<T>, b: Seq<T>, h: int, w: int)
    requires
        0 <= h,
        0 <= w,
        a.len() == h * w,
        b.len() == h * w,
        forall|y: int, x: int| 0 <= y < h && 0 <= x < w ==> #[trigger] at(a, w, y, x) == at(b, w, y, x),
    ensures
        a == b,
{
    assert forall|i: int| 0 <= i < a.len() implies a[i] == b[i] by {
        lemma_cell_of_index(h, w, i);
        assert(at(a, w, i / w, i % w) == at(b, w, i / w, i % w));
    }
    assert(a =~= b);
}

/// Evaluate `row` for every `y` below `count` on rayon's thread pool and collect
/// the results in order.
///
/// Calls `rayon`: a `Range<usize>` turned into a parallel iterator, `map` and
/// `collect` into a `Vec`. Taken on trust: `collect` on this indexed iterator
/// keeps the order of the range, so the result holds, at place `y`, what one
/// call of `row` with `y` returned, and nothing else.
#[verifier::external_body]
pub(crate) fn map_rows<T: Send, F: Fn(usize) -> T + Sync + Send>(count: usize, row: F) -> (rows: Vec<
    T,
>)
    requires
        forall|y: usize| y < count ==> #[trigger] call_requires(row, (y,)),
    ensures
        rows.len() == count,
        forall|y: int| 0 <= y < count ==> call_ensures(row, (y as usize,), #[trigger] rows@[y]),
{
    (0..count).into_par_iter().map(row).collect()
}

/// Evaluate `f` for every index below `n`, in order.
pub fn tabulate<T, F: Fn(usize) -> T>(n: usize, f: &F) -> (out: Vec<T>)
    requires
        forall|i: usize| i < n ==> #[trigger] call_requires(*f, (i,)),
    ensures
        out.len() == n,
        forall|i: int| 0 <= i < n ==> call_ensures(*f, (i as usize,), #[trigger] out@[i]),
{
    let mut out: Vec<T> = Vec::with_capacity(n);
    let mut i: usize = 0;
    while i < n
        invariant
            i <= n,
            out.len() == i,
            forall|i: usize| i < n ==> #[trigger] call_requires(*f, (i,)),
            forall|k: int| 0 <= k < i ==> call_ensures(*f, (k as usize,), #[trigger] out@[k]),
        decreases n - i,
    {
        out.push(f(i));
        i += 1;
    }
    out
}

/// Evaluate `f` for every cell of an `h` by `w` grid, one row per task, into a
/// row-major vector.
pub fn grid<T: Send, F: Fn(usize, usize) -> T + Sync>(h: usize, w: usize, f: &F) -> (out: Vec<T>)
    requires
        h * w <= usize::MAX,
        forall|y: usize, x: usize| y < h && x < w ==> #[trigger] call_requires(*f, (y, x)),
    ensures
        out.len() == h * w,
        forall|y: int, x: int|
            0 <= y < h && 0 <= x < w ==> call_ensures(
                *f,
                (y as usize, x as usize),
                #[trigger] at(out@, w as int, y, x),
            ),
{
    let row = |y: usize| -> (r: Vec<T>)
        requires
            y < h,
        ensures
            r.len() == w,
            forall|x: int| 0 <= x < w ==> call_ensures(*f, (y, x as usize), #[trigger] r@[x]),
        {
            let cell = |x: usize| -> (t: T)
                requires
                    x < w,
                ensures
                    call_ensures(*f, (y, x), t),
                { f(y, x) };
            tabulate(w, &cell)
        };
    let rows: Vec<Vec<T>> = map_rows(h, row);
    let ghost parts: Seq<Vec<T>> = rows@;
    let mut out: Vec<T> = Vec::with_capacity(h * w);
    proof {
        assert(0 * w == 0) by (nonlinear_arith);
    }
    for r in it: rows
        invariant
            h * w <= usize::MAX,
            parts.len() == h,
            it.seq() == parts,
            forall|k: int|
                0 <= k < h ==> (#[trigger] parts[k]).len() == w && forall|x: int|
                    0 <= x < w ==> call_ensures(
                        *f,
                        (k as usize, x as usize),
                        #[trigger] parts[k]@[x],
                    ),
            out.len() == it.index() * w,
            forall|yy: int, x: int|
                0 <= yy < it.index() && 0 <= x < w ==> call_ensures(
                    *f,
                    (yy as usize, x as usize),
                    #[trigger] at(out@, w as int, yy, x),
                ),
    {
        let ghost y: int = it.index() as int;
        let ghost before: Seq<T> = out@;
        let mut row: Vec<T> = r;
        let ghost added: Seq<T> = row@;
        proof {
            assert(row == parts[y]);
            assert((y + 1) * w == y * w + w) by (nonlinear_arith);
        }
        out.append(&mut row);
        proof {
            assert forall|yy: int, x: int| 0 <= yy < y + 1 && 0 <= x < w implies call_ensures(
                *f,
                (yy as usize, x as usize),
                #[trigger] at(out@, w as int, yy, x),
            ) by {
                if yy < y {
                    lemma_cell(y, w as int, yy, x);
                    assert(at(out@, w as int, yy, x) == at(before, w as int, yy, x));
                } else {
                    lemma_cell(y + 1, w as int, yy, x);
                    assert(at(out@, w as int, yy, x) == added[x]);
                }
            }
        }
    }
    out
}

/// Rows may be computed in any order and on any thread: where `f` gives one value
/// per cell, there is only one grid that it fills.
pub proof fn law_grid_is_determined<T, F: Fn(usize, usize) -> T>(
    f: F,
    h: usize,
    w: usize,
    a: Seq<T>,
    b: Seq<T>,
)
    requires
        a.len() == h * w,
        b.len() == h * w,
        forall|y: usize, x: usize, t: T, u: T| #[trigger]
            call_ensures(f, (y, x), t) && #[trigger] call_ensures(f, (y, x), u) ==> t == u,
        forall|y: int, x: int|
            0 <= y < h && 0 <= x < w ==> call_ensures(
                f,
                (y as usize, x as usize),
                #[trigger] at(a, w as int, y, x),
            ),
        forall|y: int, x: int|
            0 <= y < h && 0 <= x < w ==> call_ensures(
                f,
                (y as usize, x as usize),
                #[trigger] at(b, w as int, y, x),
            ),
    ensures
        a == b,
{
    assert forall|y: int, x: int| 0 <= y < h && 0 <= x < w implies #[trigger] at(
        a,
        w as int,
        y,
        x,
    ) == at(b, w as int, y, x) by {
        assert(call_ensures(f, (y as usize, x as usize), at(a, w as int, y, x)));
        assert(call_ensures(f, (y as usize, x as usize), at(b, w as int, y, x)));
    }
    lemma_grids_equal(a, b, h as int, w as int);
}

} // verus!
