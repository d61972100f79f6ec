use vstd::prelude::*;

use crate::model::{
    cell, count_moves, dir, extend_cost, first_row, lead_deletion, lemma_cell_bounds,
    lemma_count_prefix, lemma_count_push, lemma_path_counts, lemma_product_bound, open_cost,
    lemma_walk_counts, lemma_walk_indices, lemma_walk_is_path, lemma_walk_one_side, path, pick_move,
    pick_score, query_indices, reference_indices, walk, extend_walk, NEG_SENTINEL,
};

verus! {

/// Scores of the gap-affine model. The fill charges the magnitudes of `gap_open` and
/// `gap_extend` whatever their signs; the first row (leading insertions) takes them as
/// given, `gap_open + j * gap_extend`.
#[derive(Debug, Clone, Copy)]
pub struct GapAffineAlignmentOptions {
    pub match_score: i32,
    pub mismatch_score: i32,
    pub gap_open: i32,
    pub gap_extend: i32,
}

/// Move recorded for a cell: `Init` for a cell not reached by the fill, `EO` an insertion
/// (gap in the reference), `FO` a deletion (gap in the query), `HX` a mismatch and `HM` a
/// match on the diagonal.
#[derive(Debug, Clone, Copy, PartialEq, Eq, Structural)]
pub enum GapAffineAlignmentDirection {
    Init,
    EO,
    FO,
    HX,
    HM,
}


/// Outcome of one alignment: the number of each move and the path from the start of both
/// sequences to their end, each step naming the reference index, the query index and the move.
#[derive(Debug)]
pub struct GapAffineAlignmentResult {
    pub mismatch_base: i32,
    pub match_base: i32,
    pub deletion: i32,
    pub insertion: i32,
    pub alignment: Vec<(usize, usize, GapAffineAlignmentDirection)>,
}

/// Why an alignment was refused.
#[derive(Debug, Clone, Copy, PartialEq, Eq, Structural)]
pub enum AlignError {
    /// A sequence is longer than the engine was built for.
    CapacityExceeded,
    /// The walk back through the direction record met an unset cell. The fill sets every
    /// cell that the walk can reach, so `align` never returns this.
    InvalidPathState,
}

impl GapAffineAlignmentResult {
    /// The result is the alignment of reference `r` with query `q` under options `o`: its
    /// path is the model's path from the origin to the last cell, and each counter is
    /// the number of steps of the path with its move.
    pub open spec fn is_alignment_of(&self, o: GapAffineAlignmentOptions, r: Seq<char>, q: Seq<char>) -> bool {
        &&& self.alignment@ == path(o, r, q, r.len(), q.len())
        &&& self.match_base as int == count_moves(self.alignment@, GapAffineAlignmentDirection::HM)
        &&& self.mismatch_base as int == count_moves(self.alignment@, GapAffineAlignmentDirection::HX)
        &&& self.deletion as int == count_moves(self.alignment@, GapAffineAlignmentDirection::FO)
        &&& self.insertion as int == count_moves(self.alignment@, GapAffineAlignmentDirection::EO)
    }

    fn default() -> (r: Self)
        ensures
            r.alignment@.len() == 0,
            r.mismatch_base == 0,
            r.match_base == 0,
            r.deletion == 0,
            r.insertion == 0,
    {
        Self {
            mismatch_base: 0,
            match_base: 0,
            deletion: 0,
            insertion: 0,
            alignment: Vec::with_capacity(300),
        }
    }
}

/// Gap-affine global aligner. It owns the rolling score rows, indexed by query position,
/// and the direction record of every cell, and can be reused for sequences within the
/// capacities it was built with.
pub struct GapAffineAlignment {
    pub options: GapAffineAlignmentOptions,
    v: Vec<i128>,
    e: Vec<i128>,
    f: Vec<i128>,
    b: Vec<Vec<GapAffineAlignmentDirection>>,
    result: GapAffineAlignmentResult,
}

impl GapAffineAlignment {
    /// The scores this engine aligns with: its `options` field.
    pub closed spec fn scoring(&self) -> GapAffineAlignmentOptions {
        self.options
    }

    /// The `options` field, as the contracts of `new` and `align` know it.
    pub fn options(&self) -> (o: GapAffineAlignmentOptions)
        ensures
            o == self.scoring(),
    {
        self.options
    }

    /// Longest reference this engine accepts.
    pub closed spec fn ref_capacity(&self) -> nat {
        (self.b.len() - 1) as nat
    }

    /// Longest query this engine accepts.
    pub closed spec fn qry_capacity(&self) -> nat {
        (self.v.len() - 1) as nat
    }

    /// The rows and the direction record have the sizes of the capacities, which fit the
    /// counters of a result.
    pub closed spec fn wf(&self) -> bool {
        &&& 1 <= self.v.len() <= i32::MAX + 1
        &&& 1 <= self.b.len() <= i32::MAX + 1
        &&& self.e.len() == self.v.len()
        &&& self.f.len() == self.v.len()
        &&& forall|i: int| 0 <= i < self.b.len() ==> (#[trigger] self.b[i]).len() == self.v.len()
    }

    /// Every cell of the direction record is unset.
    pub closed spec fn record_is_clear(&self) -> bool {
        forall|i: int, j: int|
            0 <= i < self.b.len() && 0 <= j < self.b[i].len() ==> self.b[i][j]
                == GapAffineAlignmentDirection::Init
    }

    /// The held result has zero counters and an empty path.
    pub closed spec fn result_is_empty(&self) -> bool {
        &&& self.result.match_base == 0
        &&& self.result.mismatch_base == 0
        &&& self.result.deletion == 0
        &&& self.result.insertion == 0
        &&& self.result.alignment@.len() == 0
    }

    /// An engine for references of up to `reflen` symbols and queries of up to `qrylen`
    /// symbols. Both bounds fit the `i32` counters of a result.
    pub fn new(reflen: usize, qrylen: usize, options: GapAffineAlignmentOptions) -> (r: Self)
        requires
            reflen <= i32::MAX,
            qrylen <= i32::MAX,
        ensures
            r.wf(),
            r.ref_capacity() == reflen,
            r.qry_capacity() == qrylen,
            r.scoring() == options,
            r.record_is_clear(),
            r.result_is_empty(),
    {
        let mut v: Vec<i128> = Vec::new();
        let mut e: Vec<i128> = Vec::new();
        let mut f: Vec<i128> = Vec::new();
        let mut k: usize = 0;
        while k <= qrylen
            invariant
                qrylen <= i32::MAX,
                k <= qrylen + 1,
                v.len() == k,
                e.len() == k,
                f.len() == k,
            decreases qrylen + 1 - k,
        {
            v.push(0);
            e.push(0);
            f.push(0);
            k += 1;
        }
        let mut b: Vec<Vec<GapAffineAlignmentDirection>> = Vec::new();
        let mut i: usize = 0;
        while i <= reflen
            invariant
                reflen <= i32::MAX,
                qrylen <= i32::MAX,
                i <= reflen + 1,
                b.len() == i,
                forall|t: int| 0 <= t < b.len() ==> (#[trigger] b[t]).len() == qrylen + 1,
                forall|t: int, u: int|
                    0 <= t < b.len() && 0 <= u < b[t].len() ==> b[t][u] == GapAffineAlignmentDirection::Init,
            decreases reflen + 1 - i,
        {
            let mut row: Vec<GapAffineAlignmentDirection> = Vec::new();
            let mut j: usize = 0;
            while j <= qrylen
                invariant
                    qrylen <= i32::MAX,
                    j <= qrylen + 1,
                    row.len() == j,
                    forall|u: int| 0 <= u < row.len() ==> row[u] == GapAffineAlignmentDirection::Init,
                decreases qrylen + 1 - j,
            {
                row.push(GapAffineAlignmentDirection::Init);
                j += 1;
            }
            b.push(row);
            i += 1;
        }
        Self { options, v, e, f, b, result: GapAffineAlignmentResult::default() }
    }

    /// Sets the first row for a query of `m` symbols: leading insertions in `v` and `e`,
    /// no insertion before the first column, no deletion anywhere yet. Nothing else changes.
    fn init_matrix(&mut self, m: usize)
        requires
            old(self).wf(),
            m <= old(self).qry_capacity(),
        ensures
            final(self).wf(),
            final(self).options == old(self).options,
            final(self).b == old(self).b,
            final(self).v.len() == old(self).v.len(),
            final(self).result == old(self).result,
            forall|j: int| 1 <= j <= m ==> final(self).v[j] == first_row(old(self).options, j),
            final(self).e[0] == NEG_SENTINEL,
            forall|j: int| 1 <= j <= m ==> final(self).e[j] == first_row(old(self).options, j),
            forall|j: int| 0 <= j <= m ==> final(self).f[j] == NEG_SENTINEL,
            final(self).v[0] == old(self).v[0],
            forall|j: int|
                m < j < old(self).v.len() ==> final(self).v[j] == old(self).v[j] && final(self).e[j]
                    == old(self).e[j] && final(self).f[j] == old(self).f[j],
    {
        let go = self.options.gap_open as i128;
        let ge = self.options.gap_extend as i128;
        let mut i: usize = 1;
        while i <= m
            invariant
                1 <= i <= m + 1,
                m < self.v.len(),
                self.wf(),
                self.options == old(self).options,
                self.b == old(self).b,
                self.v.len() == old(self).v.len(),
                self.result == old(self).result,
                self.e@ == old(self).e@,
                self.f@ == old(self).f@,
                go == self.options.gap_open,
                ge == self.options.gap_extend,
                forall|j: int| 1 <= j < i ==> self.v[j] == first_row(self.options, j),
                forall|j: int|
                    (j == 0 || i <= j < self.v.len()) ==> self.v[j] == old(self).v[j],
            decreases m + 1 - i,
        {
            proof {
                lemma_scaled_i32(i as int, ge as int);
            }
            self.v[i] = go + (i as i128) * ge;
            i += 1;
        }
        self.e[0] = NEG_SENTINEL;
        let mut i: usize = 1;
        while i <= m
            invariant
                1 <= i <= m + 1,
                m < self.v.len(),
                self.wf(),
                self.options == old(self).options,
                self.b == old(self).b,
                self.v.len() == old(self).v.len(),
                self.result == old(self).result,
                self.f@ == old(self).f@,
                go == self.options.gap_open,
                ge == self.options.gap_extend,
                forall|j: int| 1 <= j <= m ==> self.v[j] == first_row(self.options, j),
                forall|j: int|
                    (j == 0 || m < j < self.v.len()) ==> self.v[j] == old(self).v[j],
                self.e[0] == NEG_SENTINEL,
                forall|j: int| 1 <= j < i ==> self.e[j] == first_row(self.options, j),
                forall|j: int| i <= j < self.e.len() ==> self.e[j] == old(self).e[j],
            decreases m + 1 - i,
        {
            proof {
                lemma_scaled_i32(i as int, ge as int);
            }
            self.e[i] = go + (i as i128) * ge;
            i += 1;
        }
        let mut i: usize = 0;
        while i <= m
            invariant
                i <= m + 1,
                m < self.v.len(),
                self.wf(),
                self.options == old(self).options,
                self.b == old(self).b,
                self.v.len() == old(self).v.len(),
                self.result == old(self).result,
                forall|j: int| 1 <= j <= m ==> self.v[j] == first_row(self.options, j),
                forall|j: int|
                    (j == 0 || m < j < self.v.len()) ==> self.v[j] == old(self).v[j],
                self.e[0] == NEG_SENTINEL,
                forall|j: int| 1 <= j <= m ==> self.e[j] == first_row(self.options, j),
                forall|j: int| m < j < self.e.len() ==> self.e[j] == old(self).e[j],
                forall|j: int| 0 <= j < i ==> self.f[j] == NEG_SENTINEL,
                forall|j: int| i <= j < self.f.len() ==> self.f[j] == old(self).f[j],
            decreases m + 1 - i,
        {
            self.f[i] = NEG_SENTINEL;
            i += 1;
        }
    }

    /// Rebuilds the result for a reference of `n` symbols and a query of `m` symbols by
    /// walking the direction record back from cell `(n, m)`. Where the walk meets an unset
    /// cell it returns `InvalidPathState` and leaves the result as it was.
    #[verifier::rlimit(40)]
    fn backtrace(&mut self, n: usize, m: usize) -> (res: Result<(), AlignError>)
        requires
            old(self).wf(),
            n <= old(self).ref_capacity(),
            m <= old(self).qry_capacity(),
        ensures
            final(self).wf(),
            final(self).options == old(self).options,
            final(self).v == old(self).v,
            final(self).e == old(self).e,
            final(self).f == old(self).f,
            final(self).b == old(self).b,
            walk(old(self).b@, n as nat, m as nat) is None ==> res == Err::<(), AlignError>(
                AlignError::InvalidPathState,
            ) && final(self).result == old(self).result,
            walk(old(self).b@, n as nat, m as nat) matches Some(p) ==> {
                let out = final(self).result;
                &&& res is Ok
                &&& out.alignment@ == p
                &&& out.match_base as int == count_moves(p, GapAffineAlignmentDirection::HM)
                &&& out.mismatch_base as int == count_moves(p, GapAffineAlignmentDirection::HX)
                &&& out.deletion as int == count_moves(p, GapAffineAlignmentDirection::FO)
                &&& out.insertion as int == count_moves(p, GapAffineAlignmentDirection::EO)
                &&& count_moves(p, GapAffineAlignmentDirection::Init) == 0
                &&& out.match_base + out.mismatch_base + out.deletion == n
                &&& out.match_base + out.mismatch_base + out.insertion == m
                &&& p.len() == n + m - (out.match_base + out.mismatch_base)
                &&& n <= p.len() && m <= p.len() && p.len() <= n + m
                &&& reference_indices(p) == Seq::new(n as nat, |k: int| k)
                &&& query_indices(p) == Seq::new(m as nat, |k: int| k)
            },
            n == 0 ==> final(self).result.alignment@ == Seq::new(
                m as nat,
                |k: int| (0usize, k as usize, GapAffineAlignmentDirection::EO),
            ),
            m == 0 ==> final(self).result.alignment@ == Seq::new(
                n as nat,
                |k: int| (k as usize, 0usize, GapAffineAlignmentDirection::FO),
            ),
    {
        let ghost rec = self.b@;
        let ghost full = walk(rec, n as nat, m as nat);
        proof {
            if n == 0 || m == 0 {
                lemma_walk_one_side(rec, n as nat, m as nat);
            }
        }
        let mut i: usize = n;
        let mut j: usize = m;
        let mut steps: Vec<(usize, usize, GapAffineAlignmentDirection)> = Vec::new();
        while i > 0 || j > 0
            invariant
                self.wf(),
                self.options == old(self).options,
                self.v == old(self).v,
                self.e == old(self).e,
                self.f == old(self).f,
                self.b == old(self).b,
                self.result == old(self).result,
                rec == self.b@,
                n <= self.ref_capacity(),
                m <= self.qry_capacity(),
                i <= n,
                j <= m,
                full == walk(rec, n as nat, m as nat),
                full == extend_walk(walk(rec, i as nat, j as nat), steps@.reverse()),
            decreases i + j,
        {
            let ghost before = steps@;
            let ghost w = walk(rec, i as nat, j as nat);
            if i > 0 && j > 0 {
                let d = self.b[i][j];
                if matches!(d, GapAffineAlignmentDirection::Init) {
                    return Err(AlignError::InvalidPathState);
                }
                steps.push((i - 1, j - 1, d));
                match d {
                    GapAffineAlignmentDirection::FO => {
                        i -= 1;
                    },
                    GapAffineAlignmentDirection::EO => {
                        j -= 1;
                    },
                    _ => {
                        i -= 1;
                        j -= 1;
                    },
                }
            } else if j > 0 {
                steps.push((0, j - 1, GapAffineAlignmentDirection::EO));
                j -= 1;
            } else {
                steps.push((i - 1, 0, GapAffineAlignmentDirection::FO));
                i -= 1;
            }
            proof {
                let x = steps@.last();
                assert(steps@.reverse() =~= seq![x] + before.reverse());
                assert(w == extend_walk(walk(rec, i as nat, j as nat), seq![x]));
                match walk(rec, i as nat, j as nat) {
                    Some(p) => {
                        assert(p + seq![x] + before.reverse() =~= p + steps@.reverse());
                    },
                    None => {},
                }
            }
        }
        assert(steps@.reverse() =~= Seq::<(usize, usize, GapAffineAlignmentDirection)>::empty()
            + steps@.reverse());
        let ghost p = full->0;
        assert(p == steps@.reverse());
        proof {
            lemma_walk_counts(rec, n as nat, m as nat);
            lemma_walk_indices(rec, n as nat, m as nat);
        }
        let mut out = GapAffineAlignmentResult::default();
        let mut k: usize = steps.len();
        while k > 0
            invariant
                k <= steps.len(),
                steps@.reverse() == p,
                n <= i32::MAX,
                m <= i32::MAX,
                count_moves(p, GapAffineAlignmentDirection::HM) + count_moves(p, GapAffineAlignmentDirection::HX)
                    + count_moves(p, GapAffineAlignmentDirection::FO) == n,
                count_moves(p, GapAffineAlignmentDirection::HM) + count_moves(p, GapAffineAlignmentDirection::HX)
                    + count_moves(p, GapAffineAlignmentDirection::EO) == m,
                out.alignment@ == p.take(steps.len() - k),
                out.match_base as int == count_moves(out.alignment@, GapAffineAlignmentDirection::HM),
                out.mismatch_base as int == count_moves(out.alignment@, GapAffineAlignmentDirection::HX),
                out.deletion as int == count_moves(out.alignment@, GapAffineAlignmentDirection::FO),
                out.insertion as int == count_moves(out.alignment@, GapAffineAlignmentDirection::EO),
            decreases k,
        {
            k -= 1;
            let step = steps[k];
            proof {
                let t = steps.len() - k;
                assert(p.take(t) =~= out.alignment@.push(step));
                lemma_count_push(out.alignment@, step, GapAffineAlignmentDirection::HM);
                lemma_count_push(out.alignment@, step, GapAffineAlignmentDirection::HX);
                lemma_count_push(out.alignment@, step, GapAffineAlignmentDirection::FO);
                lemma_count_push(out.alignment@, step, GapAffineAlignmentDirection::EO);
                lemma_count_prefix(p, t, GapAffineAlignmentDirection::HM);
                lemma_count_prefix(p, t, GapAffineAlignmentDirection::HX);
                lemma_count_prefix(p, t, GapAffineAlignmentDirection::FO);
                lemma_count_prefix(p, t, GapAffineAlignmentDirection::EO);
            }
            out.alignment.push(step);
            match step.2 {
                GapAffineAlignmentDirection::HX => {
                    out.mismatch_base += 1;
                },
                GapAffineAlignmentDirection::HM => {
                    out.match_base += 1;
                },
                GapAffineAlignmentDirection::FO => {
                    out.deletion += 1;
                },
                GapAffineAlignmentDirection::EO => {
                    out.insertion += 1;
                },
                GapAffineAlignmentDirection::Init => {},
            }
        }
        assert(out.alignment@ =~= p);
        self.result = out;
        Ok(())
    }

    /// Fills row `i` of the record and rolls the score rows from row `i - 1` to row `i`.
    #[verifier::rlimit(40)]
    fn fill_row(&mut self, r: &Vec<char>, q: &Vec<char>, i: usize, h: i128, s: i128)
        requires
            old(self).wf(),
            r.len() <= old(self).ref_capacity(),
            q.len() <= old(self).qry_capacity(),
            1 <= i <= r.len(),
            h == open_cost(old(self).options),
            s == extend_cost(old(self).options),
            forall|k: int|
                1 <= k <= q.len() ==> old(self).v[k] == cell(old(self).options, r@, q@, (i - 1) as nat, k as nat).0,
            forall|k: int|
                1 <= k <= q.len() ==> old(self).f[k] == cell(old(self).options, r@, q@, (i - 1) as nat, k as nat).2,
            old(self).e[0] == NEG_SENTINEL,
            forall|a: int, k: int|
                1 <= a < i && 1 <= k <= q.len() ==> old(self).b[a][k] == dir(old(self).options, r@, q@, a as nat, k as nat),
        ensures
            final(self).wf(),
            final(self).options == old(self).options,
            final(self).v.len() == old(self).v.len(),
            final(self).b.len() == old(self).b.len(),
            forall|k: int|
                1 <= k <= q.len() ==> final(self).v[k] == cell(old(self).options, r@, q@, i as nat, k as nat).0,
            forall|k: int|
                1 <= k <= q.len() ==> final(self).f[k] == cell(old(self).options, r@, q@, i as nat, k as nat).2,
            final(self).e[0] == NEG_SENTINEL,
            forall|a: int, k: int|
                1 <= a <= i && 1 <= k <= q.len() ==> final(self).b[a][k] == dir(old(self).options, r@, q@, a as nat, k as nat),
    {
        let ghost o = self.options;
        let n = r.len();
        let m = q.len();
        proof {
            lemma_product_bound(i - 1, s as int);
        }
        self.v[0] = -(h + ((i - 1) as i128) * s);
        let mut vl: i128 = self.v[0];
        self.f[0] = self.v[0];
        if i == 1 {
            self.v[0] = 0;
            vl = 0;
            self.f[0] = NEG_SENTINEL;
        }
        let mut j: usize = 1;
        while j <= m
            invariant
                self.wf(),
                self.options == o,
                self.v.len() == old(self).v.len(),
                self.b.len() == old(self).b.len(),
                n == r.len(),
                m == q.len(),
                n <= self.ref_capacity(),
                m <= self.qry_capacity(),
                1 <= i <= n,
                1 <= j <= m + 1,
                h == open_cost(o),
                s == extend_cost(o),
                forall|k: int| 1 <= k < j - 1 ==> self.v[k] == cell(o, r@, q@, i as nat, k as nat).0,
                forall|k: int|
                    j - 1 <= k <= m ==> self.v[k] == cell(o, r@, q@, (i - 1) as nat, k as nat).0,
                vl == (if j == 1 {
                    lead_deletion(o, i - 1)
                } else {
                    cell(o, r@, q@, i as nat, (j - 1) as nat).0
                }),
                forall|k: int| 0 <= k < j ==> self.e[k] == cell(o, r@, q@, i as nat, k as nat).1,
                forall|k: int| 1 <= k < j ==> self.f[k] == cell(o, r@, q@, i as nat, k as nat).2,
                forall|k: int|
                    j <= k <= m ==> self.f[k] == cell(o, r@, q@, (i - 1) as nat, k as nat).2,
                forall|a: int, k: int|
                    1 <= a < i && 1 <= k <= m ==> self.b[a][k] == dir(o, r@, q@, a as nat, k as nat),
                forall|k: int| 1 <= k < j ==> self.b[i as int][k] == dir(o, r@, q@, i as nat, k as nat),
            decreases m + 1 - j,
        {
            proof {
                lemma_cell_bounds(o, r@, q@, i as nat, (j - 1) as nat);
                lemma_cell_bounds(o, r@, q@, (i - 1) as nat, j as nat);
                lemma_cell_bounds(o, r@, q@, (i - 1) as nat, (j - 1) as nat);
                lemma_product_bound(i - 1, s as int);
            }
            let e_open = vl - h - s;
            let ev: i128 = if self.e[j - 1] >= e_open { self.e[j - 1] } else { e_open };
            self.e[j] = ev;
            let f_ext = self.f[j] - s;
            let f_open = self.v[j] - h - s;
            let fv: i128 = if f_ext >= f_open { f_ext } else { f_open };
            self.f[j] = fv;
            let same = r[i - 1] == q[j - 1];
            let mut x: i128 = if same {
                self.options.match_score as i128
            } else {
                self.options.mismatch_score as i128
            };
            x = x + self.v[j - 1];
            self.v[j - 1] = vl;
            let (best, d) = pick_best(x, ev, fv, same);
            self.b[i][j] = d;
            vl = best;
            j += 1;
        }
        self.v[m] = vl;
    }

    /// Aligns `text` (the reference) with `patt` (the query) and returns the result, or
    /// `CapacityExceeded` where a sequence is longer than the engine was built for.
    pub fn align(&mut self, text: &str, patt: &str) -> (res: Result<&GapAffineAlignmentResult, AlignError>)
        requires
            old(self).wf(),
        ensures
            final(self).wf(),
            final(self).scoring() == old(self).scoring(),
            final(self).ref_capacity() == old(self).ref_capacity(),
            final(self).qry_capacity() == old(self).qry_capacity(),
            res is Ok <==> text@.len() <= old(self).ref_capacity() && patt@.len()
                <= old(self).qry_capacity(),
            res matches Ok(out) ==> out.is_alignment_of(old(self).scoring(), text@, patt@),
            res matches Ok(out) ==> out.match_base + out.mismatch_base + out.deletion == text@.len()
                && out.match_base + out.mismatch_base + out.insertion == patt@.len(),
            res matches Err(err) ==> err == AlignError::CapacityExceeded,
    {
        let r = to_symbols(text);
        let q = to_symbols(patt);
        if r.len() > self.b.len() - 1 || q.len() > self.v.len() - 1 {
            return Err(AlignError::CapacityExceeded);
        }
        let n = r.len();
        let m = q.len();
        self.init_matrix(m);
        let ghost o = self.options;
        let h: i128 = if self.options.gap_open > 0 {
            self.options.gap_open as i128
        } else {
            -(self.options.gap_open as i128)
        };
        let s: i128 = if self.options.gap_extend > 0 {
            self.options.gap_extend as i128
        } else {
            -(self.options.gap_extend as i128)
        };
        let mut i: usize = 1;
        while i <= n
            invariant
                self.wf(),
                self.options == o,
                self.v.len() == old(self).v.len(),
                self.b.len() == old(self).b.len(),
                n == r.len(),
                m == q.len(),
                n <= self.ref_capacity(),
                m <= self.qry_capacity(),
                1 <= i <= n + 1,
                h == open_cost(o),
                s == extend_cost(o),
                forall|k: int| 1 <= k <= m ==> self.v[k] == cell(o, r@, q@, (i - 1) as nat, k as nat).0,
                forall|k: int| 1 <= k <= m ==> self.f[k] == cell(o, r@, q@, (i - 1) as nat, k as nat).2,
                self.e[0] == NEG_SENTINEL,
                forall|a: int, k: int|
                    1 <= a < i && 1 <= k <= m ==> self.b[a][k] == dir(o, r@, q@, a as nat, k as nat),
            decreases n + 1 - i,
        {
            self.fill_row(&r, &q, i, h, s);
            i += 1;
        }
        proof {
            lemma_walk_is_path(self.b@, o, r@, q@, n as nat, m as nat);
            lemma_path_counts(o, r@, q@, r@.len(), q@.len());
        }
        match self.backtrace(n, m) {
            Ok(()) => Ok(&self.result),
            Err(err) => Err(err),
        }
    }
}

/// The symbols of `s`, in order.
pub(crate) fn to_symbols(s: &str) -> (r: Vec<char>)
    ensures
        r@ == s@,
{
    let mut out: Vec<char> = Vec::new();
    for c in it: s.chars()
        invariant
            out@ == it.seq().take(it.index() as int),
    {
        out.push(c);
    }
    out
}


/// The best of the diagonal score `x`, the insertion score `e` and the deletion score `f`,
/// with its move: a deletion wins every tie, an insertion wins a tie with the diagonal.
fn pick_best(x: i128, e: i128, f: i128, same: bool) -> (r: (i128, GapAffineAlignmentDirection))
    ensures
        r.0 == pick_score(x as int, e as int, f as int),
        r.1 == pick_move(x as int, e as int, f as int, same),
{
    if x > e {
        if x > f {
            (x, if same { GapAffineAlignmentDirection::HM } else { GapAffineAlignmentDirection::HX })
        } else {
            (f, GapAffineAlignmentDirection::FO)
        }
    } else if e > f {
        (e, GapAffineAlignmentDirection::EO)
    } else {
        (f, GapAffineAlignmentDirection::FO)
    }
}

/// A count of at most `usize::MAX` times an `i32` stays within 2^96 in magnitude.
proof fn lemma_scaled_i32(k: int, x: int)
    requires
        0 <= k <= usize::MAX,
        i32::MIN <= x <= i32::MAX,
    ensures
        -0x1_0000_0000_0000_0000_0000_0000 <= k * x <= 0x1_0000_0000_0000_0000_0000_0000,
{
    assert(-0x1_0000_0000_0000_0000_0000_0000 <= k * x <= 0x1_0000_0000_0000_0000_0000_0000) by (nonlinear_arith)
        requires
            0 <= k <= 0xffff_ffff_ffff_ffff,
            -0x8000_0000 <= x <= 0x7fff_ffff,
    ;
}

} // verus!
