//! The lateral-chromatic-aberration shift grids.

use vstd::prelude::*;

use crate::tuning::{is_words, lca_grid, word_at};

verus! {

/// The four lateral-chromatic-aberration shift grids (native px), as
/// single-precision bit patterns; order blue_x, blue_y, red_x, red_y.
#[derive(Debug, Clone, PartialEq, Eq)]
pub struct Lca {
    pub gh: usize,
    pub gw: usize,
    pub bx: Vec<u32>,
    pub by: Vec<u32>,
    pub rx: Vec<u32>,
    pub ry: Vec<u32>,
}

impl Lca {
    /// The grids are not empty and fill the stated geometry.
    pub open spec fn wf(&self) -> bool {
        &&& 1 <= self.gh
        &&& 1 <= self.gw
        &&& self.bx.len() == self.gh * self.gw
        &&& self.by.len() == self.gh * self.gw
        &&& self.rx.len() == self.gh * self.gw
        &&& self.ry.len() == self.gh * self.gw
    }

    /// The grids hold the blob's first four runs of `cells` numbers.
    pub open spec fn holds(&self, blob: Seq<u8>, cells: int) -> bool {
        &&& is_words(blob, 0, cells, self.bx@)
        &&& is_words(blob, cells, cells, self.by@)
        &&& is_words(blob, 2 * cells, cells, self.rx@)
        &&& is_words(blob, 3 * cells, cells, self.ry@)
    }

    /// Load the grids, of `gh` rows and `gw` columns each, from the tuning blob.
    pub fn load(blob: &[u8], gh: usize, gw: usize) -> (l: Self)
        requires
            16 * (gh * gw) <= blob.len(),
        ensures
            l.gh == gh,
            l.gw == gw,
            l.holds(blob@, gh * gw),
    {
        let cells: usize = gh * gw;
        Lca {
            gh,
            gw,
            bx: lca_grid(blob, cells, 0),
            by: lca_grid(blob, cells, 1),
            rx: lca_grid(blob, cells, 2),
            ry: lca_grid(blob, cells, 3),
        }
    }

    /// The four grids in (blue_x, blue_y, red_x, red_y) order, for callers that
    /// upload them elsewhere.
    pub fn grids(&self) -> (g: [&Vec<u32>; 4])
        ensures
            g[0]@ == self.bx@,
            g[1]@ == self.by@,
            g[2]@ == self.rx@,
            g[3]@ == self.ry@,
    {
        [&self.bx, &self.by, &self.rx, &self.ry]
    }

    /// The four grids, one after the other.
    pub open spec fn flat_spec(&self) -> Seq<u32> {
        self.bx@ + self.by@ + self.rx@ + self.ry@
    }

    /// The four grids, one after the other.
    pub fn flat(&self) -> (v: Vec<u32>)
        ensures
            v@ == self.flat_spec(),
    {
        let mut v: Vec<u32> = Vec::new();
        let parts: [&Vec<u32>; 4] = self.grids();
        push_all(&mut v, parts[0]);
        push_all(&mut v, parts[1]);
        push_all(&mut v, parts[2]);
        push_all(&mut v, parts[3]);
        v
    }
}

/// Append a run of words.
fn push_all(out: &mut Vec<u32>, words: &Vec<u32>)
    ensures
        final(out)@ == old(out)@ + words@,
{
    let mut i: usize = 0;
    while i < words.len()
        invariant
            i <= words.len(),
            out@ == old(out)@ + words@.take(i as int),
        decreases words.len() - i,
    {
        out.push(words[i]);
        i += 1;
        proof {
            assert(out@ =~= old(out)@ + words@.take(i as int));
        }
    }
    proof {
        assert(words@.take(words@.len() as int) =~= words@);
    }
}

/// Grids one after the other are the blob they were loaded from: blue across, blue down,
/// red across, red down, each number from its own four bytes, lowest first.
pub proof fn law_flat_grids_are_the_blob(l: Lca, blob: Seq<u8>, cells: int, i: int)
    requires
        l.holds(blob, cells),
        16 * cells <= blob.len(),
        0 <= i < 4 * cells,
    ensures
        l.flat_spec().len() == 4 * cells,
        ({
            let v = l.flat_spec()[i] as int;
            &&& v % 256 == blob[4 * i]
            &&& v / 256 % 256 == blob[4 * i + 1]
            &&& v / 65536 % 256 == blob[4 * i + 2]
            &&& v / 16777216 == blob[4 * i + 3]
        }),
        i < cells ==> l.flat_spec()[i] == l.bx@[i],
        cells <= i < 2 * cells ==> l.flat_spec()[i] == l.by@[i - cells],
        2 * cells <= i < 3 * cells ==> l.flat_spec()[i] == l.rx@[i - 2 * cells],
        3 * cells <= i ==> l.flat_spec()[i] == l.ry@[i - 3 * cells],
{
    let v = l.flat_spec()[i] as int;
    assert(v == word_at(blob, i)) by {
        if i < cells {
            assert(l.bx@[i] == word_at(blob, 0 + i));
        } else if i < 2 * cells {
            assert(l.by@[i - cells] == word_at(blob, cells + (i - cells)));
        } else if i < 3 * cells {
            assert(l.rx@[i - 2 * cells] == word_at(
                blob,
                2 * cells + (i - 2 * cells),
            ));
        } else {
            assert(l.ry@[i - 3 * cells] == word_at(
                blob,
                3 * cells + (i - 3 * cells),
            ));
        }
    }
}

} // verus!
