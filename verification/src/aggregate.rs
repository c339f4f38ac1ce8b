//! Fill-aware accumulation of per-cell sums and valid-sample counts, and
//! the two finalize policies that turn them into periodic means.
//!
//! Every cell keeps a running sum and count of its non-fill contributions;
//! the ghost contribution history ties both to the exact sequence of values
//! accumulated. Simple finalize yields the mean whenever at least one
//! contribution arrived and otherwise retains the fill sentinel (a permanent
//! gap, not an error); quality-gated finalize yields the mean only when the
//! count equals the expected window length exactly and otherwise yields the
//! missing marker.

use vstd::prelude::*;
use vstd::arithmetic::div_mod::lemma_div_is_ordered;
use vstd::arithmetic::div_mod::lemma_div_pos_is_pos;
use vstd::arithmetic::div_mod::lemma_fundamental_div_mod_converse;
use crate::fixed::round_div_spec;
use crate::fixed::round_div_i128;

verus! {

/// Sum of a sequence of contributed values.
pub open spec fn sum_seq(s: Seq<int>) -> int
    decreases s.len(),
{
    if s.len() == 0 {
        0
    } else {
        sum_seq(s.drop_last()) + s.last()
    }
}

/// The mean of a non-empty contribution sequence, rounded to the nearest
/// integer with ties away from zero.
pub open spec fn mean_of(s: Seq<int>) -> int
    recommends
        s.len() > 0,
{
    round_div_spec(sum_seq(s), s.len() as int)
}

/// A sum of values from `[lo, hi]` lies between `len * lo` and `len * hi`.
pub proof fn lemma_sum_seq_bounds(s: Seq<int>, lo: int, hi: int)
    requires
        forall|i: int| 0 <= i < s.len() ==> lo <= #[trigger] s[i] <= hi,
    ensures
        s.len() * lo <= sum_seq(s) <= s.len() * hi,
    decreases s.len(),
{
    if s.len() == 0 {
    } else {
        lemma_sum_seq_bounds(s.drop_last(), lo, hi);
        assert(lo <= s.last() <= hi);
        assert((s.len() - 1) * lo + lo == s.len() * lo && (s.len() - 1) * hi + hi == s.len()
            * hi) by (nonlinear_arith);
    }
}

/// A rounded mean of values from `[lo, hi]` lies in `[lo, hi]` itself.
pub proof fn lemma_mean_in_range(n: int, c: int, lo: int, hi: int)
    requires
        c > 0,
        c * lo <= n <= c * hi,
    ensures
        lo <= round_div_spec(n, c) <= hi,
{
    crate::fixed::lemma_floor_div_bounds(c, 2);
    assert(0 <= c / 2 < c);
    if n >= 0 {
        lemma_div_pos_is_pos(n + c / 2, c);
        assert(0 <= c * hi) by (nonlinear_arith)
            requires 0 <= n <= c * hi;
        assert(c * hi + c / 2 == hi * c + c / 2) by (nonlinear_arith);
        lemma_fundamental_div_mod_converse(c * hi + c / 2, c, hi, c / 2);
        lemma_div_is_ordered(n + c / 2, c * hi + c / 2, c);
        if lo <= 0 {
        } else {
            assert(c * lo + 0 == lo * c + 0) by (nonlinear_arith);
            lemma_fundamental_div_mod_converse(c * lo, c, lo, 0);
            lemma_div_is_ordered(c * lo, n + c / 2, c);
        }
    } else {
        lemma_div_pos_is_pos(-n + c / 2, c);
        assert(c * lo < 0) by (nonlinear_arith)
            requires c * lo <= n < 0;
        assert(-(c * lo) + c / 2 == (-lo) * c + c / 2) by (nonlinear_arith);
        lemma_fundamental_div_mod_converse(-(c * lo) + c / 2, c, -lo, c / 2);
        lemma_div_is_ordered(-n + c / 2, -(c * lo) + c / 2, c);
        if hi >= 0 {
        } else {
            assert(-(c * hi) == (-hi) * c + 0) by (nonlinear_arith);
            lemma_fundamental_div_mod_converse(-(c * hi), c, -hi, 0);
            lemma_div_is_ordered(-(c * hi), -n + c / 2, c);
        }
    }
}

/// One cell's accumulator: the running sum and count of the values
/// accumulated so far, with the contribution history itself carried as
/// ghost state so that contracts can speak of the exact values.
#[derive(Clone, Copy)]
pub struct CellAccum {
    sum: i128,
    count: u32,
    history: Ghost<Seq<int>>,
}

impl CellAccum {
    /// The values contributed to this cell so far, oldest first.
    pub closed spec fn vals(&self) -> Seq<int> {
        self.history@
    }

    /// The accumulator is exactly the sum and count of its contribution
    /// history, and every contribution was an `i64`.
    pub closed spec fn wf(&self) -> bool {
        &&& self.count == self.vals().len()
        &&& self.sum == sum_seq(self.vals())
        &&& forall|i: int|
            0 <= i < self.vals().len() ==> i64::MIN <= #[trigger] self.vals()[i] <= i64::MAX
    }

    /// A fresh accumulator with no contributions.
    pub fn new() -> (c: CellAccum)
        ensures
            c.wf(),
            c.vals() == Seq::<int>::empty(),
    {
        CellAccum { sum: 0, count: 0, history: Ghost(Seq::empty()) }
    }

    /// Record one sample: a fill-marked sample leaves the cell untouched,
    /// any other value joins the sum and the count.
    pub fn accumulate(&mut self, value: i64, is_fill: bool)
        requires
            old(self).wf(),
            old(self).vals().len() < 0xffff_ffff,
        ensures
            final(self).wf(),
            is_fill ==> final(self).vals() == old(self).vals(),
            !is_fill ==> final(self).vals() == old(self).vals().push(value as int),
    {
        if !is_fill {
            proof {
                lemma_sum_seq_bounds(self.vals(), i64::MIN as int, i64::MAX as int);
                assert(self.vals().len() * (i64::MIN as int) >= 0x1_0000_0000 * (
                i64::MIN as int) && self.vals().len() * (i64::MAX as int) <= 0x1_0000_0000 * (
                i64::MAX as int)) by (nonlinear_arith)
                    requires 0 <= self.vals().len() <= 0x1_0000_0000;
            }
            self.sum = self.sum + (value as i128);
            self.count = self.count + 1;
            proof {
                self.history@ = self.history@.push(value as int);
                assert(self.vals().drop_last() == old(self).vals());
            }
        }
    }

    /// Simple-mean finalize: the rounded mean of the contributions when any
    /// arrived, the fill sentinel otherwise — an empty cell is a legitimate
    /// permanent gap, not an error. Also reports the valid-sample count.
    pub fn finalize_simple(&self, fill: i64) -> (r: (i64, u32))
        requires
            self.wf(),
        ensures
            r.1 as int == self.vals().len() as int,
            self.vals().len() == 0 ==> r.0 == fill,
            self.vals().len() > 0 ==> r.0 == mean_of(self.vals()),
    {
        if self.count == 0 {
            (fill, 0)
        } else {
            (self.mean(), self.count)
        }
    }

    /// Quality-gated finalize: the rounded mean only when the valid-sample
    /// count equals the expected window length exactly; any other count,
    /// partial coverage included, yields the missing marker.
    pub fn finalize_gated(&self, expected: u32) -> (r: Option<i64>)
        requires
            self.wf(),
            expected >= 1,
        ensures
            self.vals().len() as int == expected as int ==> r == Some(mean_of(self.vals()) as i64),
            self.vals().len() as int != expected as int ==> r is None,
    {
        if self.count == expected {
            Some(self.mean())
        } else {
            None
        }
    }

    /// The rounded mean of a non-empty cell.
    fn mean(&self) -> (m: i64)
        requires
            self.wf(),
            self.vals().len() > 0,
        ensures
            m == mean_of(self.vals()),
    {
        proof {
            lemma_sum_seq_bounds(self.vals(), i64::MIN as int, i64::MAX as int);
            assert(self.vals().len() * (i64::MIN as int)
                >= -0x100_0000_0000_0000_0000_0000_0000_0000 && self.vals().len() * (
            i64::MAX as int) <= 0x100_0000_0000_0000_0000_0000_0000_0000) by (nonlinear_arith)
                requires 0 <= self.vals().len() <= 0x1_0000_0000;
            lemma_mean_in_range(
                self.sum as int,
                self.vals().len() as int,
                i64::MIN as int,
                i64::MAX as int,
            );
        }
        let m = round_div_i128(self.sum, self.count);
        m as i64
    }
}

/// The per-input model of accumulation: the contributions that survive a
/// run of samples, i.e. exactly the values whose fill flag was clear, in
/// arrival order.
pub open spec fn surviving_values(inputs: Seq<(int, bool)>) -> Seq<int>
    decreases inputs.len(),
{
    if inputs.len() == 0 {
        Seq::empty()
    } else if inputs.last().1 {
        surviving_values(inputs.drop_last())
    } else {
        surviving_values(inputs.drop_last()).push(inputs.last().0)
    }
}

/// A run made only of fill-marked samples contributes nothing, so a cell
/// that saw only fill values finalizes, in simple mode, to the fill
/// sentinel and a count of zero.
pub proof fn lemma_all_fill_contributes_nothing(inputs: Seq<(int, bool)>)
    requires
        forall|i: int| 0 <= i < inputs.len() ==> (#[trigger] inputs[i]).1,
    ensures
        surviving_values(inputs) == Seq::<int>::empty(),
    decreases inputs.len(),
{
    if inputs.len() > 0 {
        lemma_all_fill_contributes_nothing(inputs.drop_last());
    }
}

/// One variable's accumulation grid for one output period: an independent
/// cell accumulator per spatial cell. Accumulators for different variables
/// live in different `GridAggregator` values and share no state.
pub struct GridAggregator {
    cells: Vec<CellAccum>,
}

impl GridAggregator {
    /// Every cell accumulator is well formed.
    pub closed spec fn wf(&self) -> bool {
        forall|i: int| 0 <= i < self.cells@.len() ==> (#[trigger] self.cells@[i]).wf()
    }

    /// Number of spatial cells.
    pub closed spec fn len(&self) -> int {
        self.cells@.len() as int
    }

    /// The contribution history of one cell.
    pub closed spec fn vals_at(&self, cell: int) -> Seq<int> {
        self.cells@[cell].vals()
    }

    /// A fresh aggregator with `n` empty cells.
    pub fn new(n: usize) -> (g: GridAggregator)
        ensures
            g.wf(),
            g.len() == n,
            forall|i: int| 0 <= i < n ==> g.vals_at(i) == Seq::<int>::empty(),
    {
        let mut cells: Vec<CellAccum> = Vec::new();
        let mut k: usize = 0;
        while k < n
            invariant
                k <= n,
                cells@.len() == k,
                forall|i: int| 0 <= i < k ==> (#[trigger] cells@[i]).wf(),
                forall|i: int| 0 <= i < k ==> (#[trigger] cells@[i]).vals() == Seq::<int>::empty(),
            decreases n - k,
        {
            cells.push(CellAccum::new());
            k = k + 1;
        }
        GridAggregator { cells }
    }

    /// Record one sample for one cell; all other cells are untouched.
    pub fn accumulate(&mut self, cell: usize, value: i64, is_fill: bool)
        requires
            old(self).wf(),
            cell < old(self).len(),
            old(self).vals_at(cell as int).len() < 0xffff_ffff,
        ensures
            final(self).wf(),
            final(self).len() == old(self).len(),
            is_fill ==> final(self).vals_at(cell as int) == old(self).vals_at(cell as int),
            !is_fill ==> final(self).vals_at(cell as int) == old(self).vals_at(
                cell as int,
            ).push(value as int),
            forall|i: int|
                0 <= i < final(self).len() && i != cell ==> final(self).vals_at(i) == old(
                    self,
                ).vals_at(i),
    {
        let mut c = self.cells[cell];
        c.accumulate(value, is_fill);
        self.cells[cell] = c;
    }

    /// Simple-mean finalize of every cell: per cell, the rounded mean of
    /// its contributions or the fill sentinel when none arrived, together
    /// with the parallel valid-sample counts.
    pub fn finalize_simple(&self, fill: i64) -> (r: (Vec<i64>, Vec<u32>))
        requires
            self.wf(),
        ensures
            r.0@.len() == self.len(),
            r.1@.len() == self.len(),
            forall|i: int|
                0 <= i < self.len() ==> #[trigger] r.1@[i] as int == self.vals_at(i).len() as int,
            forall|i: int|
                0 <= i < self.len() ==> #[trigger] r.0@[i] == if self.vals_at(i).len() == 0 {
                    fill as int
                } else {
                    mean_of(self.vals_at(i))
                },
    {
        let mut means: Vec<i64> = Vec::new();
        let mut counts: Vec<u32> = Vec::new();
        let n = self.cells.len();
        let mut k: usize = 0;
        while k < n
            invariant
                self.wf(),
                n == self.len(),
                k <= n,
                means@.len() == k,
                counts@.len() == k,
                forall|i: int|
                    0 <= i < k ==> #[trigger] counts@[i] as int == self.vals_at(i).len() as int,
                forall|i: int|
                    0 <= i < k ==> #[trigger] means@[i] == if self.vals_at(i).len() == 0 {
                        fill as int
                    } else {
                        mean_of(self.vals_at(i))
                    },
            decreases n - k,
        {
            let (m, c) = self.cells[k].finalize_simple(fill);
            means.push(m);
            counts.push(c);
            k = k + 1;
        }
        (means, counts)
    }

    /// Quality-gated finalize of every cell: per cell, the rounded mean
    /// only when exactly `expected` contributions arrived, the missing
    /// marker otherwise.
    pub fn finalize_gated(&self, expected: u32) -> (r: Vec<Option<i64>>)
        requires
            self.wf(),
            expected >= 1,
        ensures
            r@.len() == self.len(),
            forall|i: int|
                0 <= i < self.len() ==> #[trigger] r@[i] == if self.vals_at(i).len() as int
                    == expected as int {
                    Some(mean_of(self.vals_at(i)) as i64)
                } else {
                    None::<i64>
                },
    {
        let mut out: Vec<Option<i64>> = Vec::new();
        let n = self.cells.len();
        let mut k: usize = 0;
        while k < n
            invariant
                self.wf(),
                expected >= 1,
                n == self.len(),
                k <= n,
                out@.len() == k,
                forall|i: int|
                    0 <= i < k ==> #[trigger] out@[i] == if self.vals_at(i).len() as int
                        == expected as int {
                        Some(mean_of(self.vals_at(i)) as i64)
                    } else {
                        None::<i64>
                    },
            decreases n - k,
        {
            let v = self.cells[k].finalize_gated(expected);
            out.push(v);
            k = k + 1;
        }
        out
    }
}

} // verus!
