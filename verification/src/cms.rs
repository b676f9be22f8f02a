//! Count-Min Sketch for memory-efficient frequency estimation.
//!
//! A fixed table of `depth` rows by `width` counters. Each increment bumps one
//! saturating counter per row, chosen by a seeded hash of the key; an estimate is
//! the smallest of the key's counters. Estimates never fall below the true count
//! (capped at `u32::MAX`): collisions can only make them larger.

use vstd::prelude::*;

use crate::hashing::{spec_xxh3_64_with_seed, xxh3_64_with_seed};
use vstd::bytes::{spec_u64_to_le_bytes, u64_to_le_bytes};

verus! {

/// The column that row `row` assigns to `key` in a table of the given width.
pub open spec fn cell_index(key: u64, row: usize, width: usize) -> usize {
    ((spec_xxh3_64_with_seed(spec_u64_to_le_bytes(key), row as u64) as usize) % width) as usize
}

/// How many of the recorded keys land in column `col` of row `row`.
pub open spec fn hits(h: Seq<u64>, row: usize, col: usize, width: usize) -> nat
    decreases h.len(),
{
    if h.len() == 0 {
        0
    } else {
        hits(h.drop_last(), row, col, width) + if cell_index(h.last(), row, width) == col {
            1nat
        } else {
            0nat
        }
    }
}

/// How many times `key` was recorded.
pub open spec fn occurrences(h: Seq<u64>, key: u64) -> nat
    decreases h.len(),
{
    if h.len() == 0 {
        0
    } else {
        occurrences(h.drop_last(), key) + if h.last() == key {
            1nat
        } else {
            0nat
        }
    }
}

/// A count capped at `u32::MAX`, as the saturating counters hold it.
pub open spec fn capped(n: nat) -> u32 {
    if n >= u32::MAX {
        u32::MAX
    } else {
        n as u32
    }
}

/// The estimate for `key` from the first `rows` rows: the smallest capped counter,
/// `u32::MAX` when there are no rows.
pub open spec fn row_min(h: Seq<u64>, key: u64, rows: nat, width: usize) -> u32
    decreases rows,
{
    if rows == 0 {
        u32::MAX
    } else {
        let prev = row_min(h, key, (rows - 1) as nat, width);
        let here = capped(hits(h, (rows - 1) as usize, cell_index(key, (rows - 1) as usize, width), width));
        if here < prev {
            here
        } else {
            prev
        }
    }
}

/// Position of counter (`row`, `col`) in the flat table.
pub open spec fn slot(row: int, col: int, width: int) -> int {
    row * width + col
}

proof fn lemma_slot(r1: int, c1: int, r2: int, c2: int, width: int, depth: int)
    requires
        0 <= r1 < depth,
        0 <= r2 < depth,
        0 <= c1 < width,
        0 <= c2 < width,
    ensures
        0 <= slot(r1, c1, width) < width * depth,
        (r1 != r2 || c1 != c2) ==> slot(r1, c1, width) != slot(r2, c2, width),
{
    assert(0 <= r1 * width + c1 < width * depth) by (nonlinear_arith)
        requires
            0 <= r1 < depth,
            0 <= c1 < width,
    ;
    if r1 < r2 {
        assert(r1 * width + c1 < r2 * width + c2) by (nonlinear_arith)
            requires
                r1 < r2,
                0 <= c1 < width,
                0 <= c2,
        ;
    } else if r2 < r1 {
        assert(r2 * width + c2 < r1 * width + c1) by (nonlinear_arith)
            requires
                r2 < r1,
                0 <= c2 < width,
                0 <= c1,
        ;
    }
}

/// A key is counted in its own column of every row.
proof fn lemma_hits_cover(h: Seq<u64>, key: u64, row: usize, width: usize)
    ensures
        occurrences(h, key) <= hits(h, row, cell_index(key, row, width), width),
    decreases h.len(),
{
    if h.len() > 0 {
        lemma_hits_cover(h.drop_last(), key, row, width);
    }
}

/// Every row's estimate is at least the capped true count.
proof fn lemma_row_min_lower_bound(h: Seq<u64>, key: u64, rows: nat, width: usize)
    ensures
        capped(occurrences(h, key)) <= row_min(h, key, rows, width),
    decreases rows,
{
    if rows > 0 {
        lemma_row_min_lower_bound(h, key, (rows - 1) as nat, width);
        lemma_hits_cover(h, key, (rows - 1) as usize, width);
    }
}

/// Count-Min Sketch over 64-bit keys.
pub struct CountMinSketch {
    width: usize,
    depth: usize,
    table: Vec<u32>,
    /// The keys recorded since creation or the last clear, in order.
    history: Ghost<Seq<u64>>,
}

impl CountMinSketch {
    /// Number of columns.
    pub closed spec fn spec_width(&self) -> usize {
        self.width
    }

    /// Number of rows.
    pub closed spec fn spec_depth(&self) -> usize {
        self.depth
    }

    /// The keys recorded since creation or the last clear, in order.
    pub closed spec fn history(&self) -> Seq<u64> {
        self.history@
    }

    /// Well-formedness: the table has `width * depth` counters and each counter holds
    /// the capped number of recorded keys that land in it.
    pub closed spec fn wf(&self) -> bool {
        &&& self.table@.len() == self.width * self.depth
        &&& forall|r: int, c: int|
            0 <= r < self.depth && 0 <= c < self.width ==> #[trigger] self.table@[slot(
                r,
                c,
                self.width as int,
            )] == capped(hits(self.history@, r as usize, c as usize, self.width))
    }

    /// An empty sketch of `depth` rows by `width` counters.
    pub fn new(width: usize, depth: usize) -> (r: Self)
        requires
            width * depth <= usize::MAX,
        ensures
            r.wf(),
            r.spec_width() == width,
            r.spec_depth() == depth,
            r.history() == Seq::<u64>::empty(),
    {
        let table = vec![0u32; width * depth];
        let r = CountMinSketch { width, depth, table, history: Ghost(Seq::empty()) };
        proof {
            assert forall|row: int, c: int| 0 <= row < depth && 0 <= c < width implies #[trigger] r.table@[slot(
                row,
                c,
                width as int,
            )] == capped(hits(r.history@, row as usize, c as usize, width)) by {
                lemma_slot(row, c, row, c, width as int, depth as int);
                assert(r.table@[slot(row, c, width as int)] == 0);
            }
        }
        r
    }

    /// An empty 4-row by 64-column sketch.
    pub fn default_sketch() -> (r: Self)
        ensures
            r.wf(),
            r.spec_width() == 64,
            r.spec_depth() == 4,
            r.history() == Seq::<u64>::empty(),
    {
        Self::new(64, 4)
    }

    /// Records one occurrence of `hash`.
    pub fn increment(&mut self, hash: u64)
        requires
            old(self).wf(),
            old(self).spec_depth() == 0 || old(self).spec_width() > 0,
        ensures
            final(self).wf(),
            final(self).spec_width() == old(self).spec_width(),
            final(self).spec_depth() == old(self).spec_depth(),
            final(self).history() == old(self).history().push(hash),
    {
        let ghost h0 = self.history@;
        let ghost h1 = h0.push(hash);
        let _ = self.table.len();
        let bytes = u64_to_le_bytes(hash);
        let width = self.width;
        let depth = self.depth;
        let mut d: usize = 0;
        while d < depth
            invariant
                width == self.width,
                depth == self.depth,
                depth == 0 || width > 0,
                d <= depth,
                bytes@ == spec_u64_to_le_bytes(hash),
                self.history@ == h0,
                h1 == h0.push(hash),
                self.table@.len() == width * depth,
                self.table@.len() <= usize::MAX,
                forall|r: int, c: int|
                    0 <= r < depth && 0 <= c < width ==> #[trigger] self.table@[slot(
                        r,
                        c,
                        width as int,
                    )] == capped(hits(if r < d { h1 } else { h0 }, r as usize, c as usize, width)),
            decreases depth - d,
        {
            let h = xxh3_64_with_seed(bytes.as_slice(), d as u64);
            let w = (h as usize) % width;
            proof {
                lemma_slot(d as int, w as int, d as int, w as int, width as int, depth as int);
                assert(d * width + w < self.table@.len());
            }
            let idx = d * width + w;
            let ghost t0 = self.table@;
            let v = self.table[idx];
            self.table.set(idx, v.saturating_add(1));
            proof {
                assert(h1.drop_last() =~= h0);
                assert forall|r: int, c: int|
                    0 <= r < depth && 0 <= c < width implies #[trigger] self.table@[slot(
                        r,
                        c,
                        width as int,
                    )] == capped(
                        hits(if r < d + 1 { h1 } else { h0 }, r as usize, c as usize, width),
                    ) by {
                    lemma_slot(r, c, d as int, w as int, width as int, depth as int);
                }
            }
            d += 1;
        }
        self.history = Ghost(h1);
    }

    /// Estimated count of `hash`: the smallest of its counters (`u32::MAX` with no rows).
    /// Never below the true count, capped at `u32::MAX`.
    pub fn estimate(&self, hash: u64) -> (r: u32)
        requires
            self.wf(),
            self.spec_depth() == 0 || self.spec_width() > 0,
        ensures
            r == row_min(self.history(), hash, self.spec_depth() as nat, self.spec_width()),
            r >= capped(occurrences(self.history(), hash)),
    {
        let bytes = u64_to_le_bytes(hash);
        let width = self.width;
        let depth = self.depth;
        let _ = self.table.len();
        let mut min_val = u32::MAX;
        let mut d: usize = 0;
        while d < depth
            invariant
                self.wf(),
                width == self.width,
                depth == self.depth,
                depth == 0 || width > 0,
                d <= depth,
                bytes@ == spec_u64_to_le_bytes(hash),
                min_val == row_min(self.history@, hash, d as nat, width),
                self.table@.len() <= usize::MAX,
            decreases depth - d,
        {
            let h = xxh3_64_with_seed(bytes.as_slice(), d as u64);
            let w = (h as usize) % width;
            proof {
                lemma_slot(d as int, w as int, d as int, w as int, width as int, depth as int);
                assert(d * width + w < self.table@.len());
            }
            let val = self.table[d * width + w];
            if val < min_val {
                min_val = val;
            }
            d += 1;
        }
        proof {
            lemma_row_min_lower_bound(self.history@, hash, depth as nat, width);
        }
        min_val
    }

    /// Whether `hash` has a non-zero estimate.
    pub fn contains(&self, hash: u64) -> (r: bool)
        requires
            self.wf(),
            self.spec_depth() == 0 || self.spec_width() > 0,
        ensures
            r == (row_min(self.history(), hash, self.spec_depth() as nat, self.spec_width()) > 0),
    {
        self.estimate(hash) > 0
    }

    /// Resets every counter to zero and forgets the recorded keys.
    pub fn clear(&mut self)
        requires
            old(self).wf(),
        ensures
            final(self).wf(),
            final(self).spec_width() == old(self).spec_width(),
            final(self).spec_depth() == old(self).spec_depth(),
            final(self).history() == Seq::<u64>::empty(),
    {
        let n = self.table.len();
        let mut i: usize = 0;
        while i < n
            invariant
                n == self.table@.len(),
                self.width == old(self).width,
                self.depth == old(self).depth,
                n == self.width * self.depth,
                i <= n,
                forall|j: int| 0 <= j < i ==> self.table@[j] == 0,
            decreases n - i,
        {
            self.table.set(i, 0);
            i += 1;
        }
        self.history = Ghost(Seq::empty());
        proof {
            assert forall|r: int, c: int|
                0 <= r < self.depth && 0 <= c < self.width implies #[trigger] self.table@[slot(
                r,
                c,
                self.width as int,
            )] == capped(hits(self.history@, r as usize, c as usize, self.width)) by {
                lemma_slot(r, c, r, c, self.width as int, self.depth as int);
                assert(self.table@[slot(r, c, self.width as int)] == 0);
            }
        }
    }
}

/// A Count-Min Sketch never underestimates: after any sequence of increments, the
/// estimate of a key is at least the number of times it was incremented (capped at
/// `u32::MAX`).
pub proof fn lemma_cms_never_underestimates(h: Seq<u64>, key: u64, depth: usize, width: usize)
    ensures
        row_min(h, key, depth as nat, width) >= capped(occurrences(h, key)),
{
    lemma_row_min_lower_bound(h, key, depth as nat, width);
}


/// A sketch with at least one row that has recorded nothing estimates every key at 0,
/// so it contains none.
pub proof fn lemma_empty_sketch_estimates_zero(key: u64, rows: nat, width: usize)
    requires
        rows >= 1,
    ensures
        row_min(Seq::<u64>::empty(), key, rows, width) == 0,
    decreases rows,
{
    if rows > 1 {
        lemma_empty_sketch_estimates_zero(key, (rows - 1) as nat, width);
    }
    assert(hits(
        Seq::<u64>::empty(),
        (rows - 1) as usize,
        cell_index(key, (rows - 1) as usize, width),
        width,
    ) == 0);
}

} // verus!
