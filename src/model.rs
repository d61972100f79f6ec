use vstd::prelude::*;

use crate::align::{GapAffineAlignmentDirection, GapAffineAlignmentOptions};

verus! {

/// Score that stands for "no such state": far below any score an alignment can reach,
/// with room left for a gap to be charged to it once more.
pub const NEG_SENTINEL: i128 = -0x4000_0000_0000_0000_0000_0000_0000_0000;

/// Magnitude charged for opening a gap.
pub open spec fn open_cost(o: GapAffineAlignmentOptions) -> int {
    if o.gap_open > 0 { o.gap_open as int } else { -(o.gap_open as int) }
}

/// Magnitude charged for each position of a gap.
pub open spec fn extend_cost(o: GapAffineAlignmentOptions) -> int {
    if o.gap_extend > 0 { o.gap_extend as int } else { -(o.gap_extend as int) }
}

/// Score of a leading run of `k` deletions, as the fill sees it at the left border.
pub open spec fn lead_deletion(o: GapAffineAlignmentOptions, k: int) -> int {
    if k <= 0 { 0 } else { -(open_cost(o) + k * extend_cost(o)) }
}

/// Score of the first row: a leading run of `j` insertions, from the signed options.
pub open spec fn first_row(o: GapAffineAlignmentOptions, j: int) -> int {
    if j <= 0 { 0 } else { o.gap_open + j * o.gap_extend }
}

/// Score of aligning symbol `a` of the reference with symbol `b` of the query.
pub open spec fn pair_score(o: GapAffineAlignmentOptions, a: char, b: char) -> int {
    if a == b { o.match_score as int } else { o.mismatch_score as int }
}

pub open spec fn max2(a: int, b: int) -> int {
    if a >= b { a } else { b }
}

/// The move chosen from the diagonal score `x`, the insertion score `e` and the deletion
/// score `f`: deletion wins every tie, insertion wins a tie with the diagonal.
pub open spec fn pick_move(x: int, e: int, f: int, same: bool) -> GapAffineAlignmentDirection {
    if x > e {
        if x > f {
            if same { GapAffineAlignmentDirection::HM } else { GapAffineAlignmentDirection::HX }
        } else {
            GapAffineAlignmentDirection::FO
        }
    } else if e > f {
        GapAffineAlignmentDirection::EO
    } else {
        GapAffineAlignmentDirection::FO
    }
}

/// Score of the move chosen by `pick_move`.
pub open spec fn pick_score(x: int, e: int, f: int) -> int {
    if x > e {
        if x > f { x } else { f }
    } else if e > f {
        e
    } else {
        f
    }
}

/// The three scores of cell `(i, j)` (after `i` reference symbols and `j` query symbols):
/// best overall, best ending in an insertion, best ending in a deletion. A gap is opened
/// at `open_cost + extend_cost`; a deletion run then grows by `extend_cost` a position, an
/// insertion run at no further charge. At the left border the insertion branch starts from
/// the border score of the row above.
pub open spec fn cell(o: GapAffineAlignmentOptions, r: Seq<char>, q: Seq<char>, i: nat, j: nat) -> (
    int,
    int,
    int,
)
    decreases i, j,
{
    if i == 0 {
        (first_row(o, j as int), NEG_SENTINEL as int, NEG_SENTINEL as int)
    } else if j == 0 {
        (lead_deletion(o, i as int), NEG_SENTINEL as int, NEG_SENTINEL as int)
    } else {
        let h = open_cost(o);
        let s = extend_cost(o);
        let left = if j == 1 {
            lead_deletion(o, i - 1)
        } else {
            cell(o, r, q, i, (j - 1) as nat).0
        };
        let e = max2(cell(o, r, q, i, (j - 1) as nat).1, left - h - s);
        let up = cell(o, r, q, (i - 1) as nat, j);
        let f = max2(up.2 - s, up.0 - h - s);
        let x = pair_score(o, r[i - 1], q[j - 1]) + cell(o, r, q, (i - 1) as nat, (j - 1) as nat).0;
        (pick_score(x, e, f), e, f)
    }
}

/// The move recorded for cell `(i, j)`, for `1 <= i` and `1 <= j`.
pub open spec fn dir(o: GapAffineAlignmentOptions, r: Seq<char>, q: Seq<char>, i: nat, j: nat) -> GapAffineAlignmentDirection
    recommends
        1 <= i <= r.len(),
        1 <= j <= q.len(),
{
    let h = open_cost(o);
    let s = extend_cost(o);
    let c = cell(o, r, q, i, j);
    let x = pair_score(o, r[i - 1], q[j - 1]) + cell(o, r, q, (i - 1) as nat, (j - 1) as nat).0;
    pick_move(x, c.1, c.2, r[i - 1] == q[j - 1])
}

/// The path from the origin to cell `(i, j)`, in order: each step names the reference
/// index, the query index and the move.
pub open spec fn path(o: GapAffineAlignmentOptions, r: Seq<char>, q: Seq<char>, i: nat, j: nat) -> Seq<
    (usize, usize, GapAffineAlignmentDirection),
>
    decreases i + j,
{
    if i > 0 && j > 0 {
        let d = dir(o, r, q, i, j);
        let step = ((i - 1) as usize, (j - 1) as usize, d);
        match d {
            GapAffineAlignmentDirection::FO => path(o, r, q, (i - 1) as nat, j).push(step),
            GapAffineAlignmentDirection::EO => path(o, r, q, i, (j - 1) as nat).push(step),
            _ => path(o, r, q, (i - 1) as nat, (j - 1) as nat).push(step),
        }
    } else if j > 0 {
        path(o, r, q, 0, (j - 1) as nat).push((0usize, (j - 1) as usize, GapAffineAlignmentDirection::EO))
    } else if i > 0 {
        path(o, r, q, (i - 1) as nat, 0).push(((i - 1) as usize, 0usize, GapAffineAlignmentDirection::FO))
    } else {
        Seq::empty()
    }
}

/// Number of steps of `p` that make move `d`.
pub open spec fn count_moves(p: Seq<(usize, usize, GapAffineAlignmentDirection)>, d: GapAffineAlignmentDirection) -> nat
    decreases p.len(),
{
    if p.len() == 0 {
        0
    } else {
        count_moves(p.drop_last(), d) + if p.last().2 == d { 1nat } else { 0nat }
    }
}


/// A bound on the magnitude of the scores of a cell `k` steps from the origin.
pub open spec fn score_bound(k: int) -> int {
    0x1_0000_0000 * k
}

/// A count times a score of at most 2^31 in magnitude.
pub proof fn lemma_product_bound(k: int, x: int)
    requires
        0 <= k,
        -0x8000_0000 <= x <= 0x8000_0000,
    ensures
        -0x8000_0000 * k <= k * x <= 0x8000_0000 * k,
{
    assert(-0x8000_0000 * k <= k * x <= 0x8000_0000 * k) by (nonlinear_arith)
        requires
            0 <= k,
            -0x8000_0000 <= x <= 0x8000_0000,
    ;
}

/// Every score of cell `(i, j)` lies within `score_bound` of its distance from the origin;
/// the gap scores never fall below the sentinel.
pub proof fn lemma_cell_bounds(o: GapAffineAlignmentOptions, r: Seq<char>, q: Seq<char>, i: nat, j: nat)
    requires
        i <= r.len(),
        j <= q.len(),
        r.len() + q.len() <= 0x1_0000_0000_0000_0000,
    ensures
        -score_bound(i + j + 2int) <= cell(o, r, q, i, j).0 <= score_bound(i + j + 1int),
        NEG_SENTINEL <= cell(o, r, q, i, j).1 <= score_bound(i + j + 1int),
        NEG_SENTINEL <= cell(o, r, q, i, j).2 <= score_bound(i + j + 1int),
    decreases i, j,
{
    if i == 0 {
        lemma_product_bound(j as int, o.gap_extend as int);
    } else if j == 0 {
        lemma_product_bound(i as int, extend_cost(o));
    } else {
        lemma_cell_bounds(o, r, q, i, (j - 1) as nat);
        lemma_cell_bounds(o, r, q, (i - 1) as nat, j);
        lemma_cell_bounds(o, r, q, (i - 1) as nat, (j - 1) as nat);
        lemma_product_bound(i - 1, extend_cost(o));
    }
}


/// A prefix of a path makes no more moves of a kind than the whole path.
pub proof fn lemma_count_prefix(
    p: Seq<(usize, usize, GapAffineAlignmentDirection)>,
    k: int,
    d: GapAffineAlignmentDirection,
)
    requires
        0 <= k <= p.len(),
    ensures
        count_moves(p.take(k), d) <= count_moves(p, d),
    decreases p.len(),
{
    if k < p.len() {
        assert(p.drop_last().take(k) =~= p.take(k));
        lemma_count_prefix(p.drop_last(), k, d);
    } else {
        assert(p.take(k) =~= p);
    }
}

/// Appending one step adds one to the count of its move.
pub proof fn lemma_count_push(
    p: Seq<(usize, usize, GapAffineAlignmentDirection)>,
    x: (usize, usize, GapAffineAlignmentDirection),
    d: GapAffineAlignmentDirection,
)
    ensures
        count_moves(p.push(x), d) == count_moves(p, d) + if x.2 == d { 1nat } else { 0nat },
{
    assert(p.push(x).drop_last() =~= p);
}

/// The path to cell `(i, j)` consumes `i` reference symbols and `j` query symbols, and each
/// of its steps is one of the four moves.
pub proof fn lemma_path_counts(o: GapAffineAlignmentOptions, r: Seq<char>, q: Seq<char>, i: nat, j: nat)
    ensures
        count_moves(path(o, r, q, i, j), GapAffineAlignmentDirection::HM) + count_moves(
            path(o, r, q, i, j),
            GapAffineAlignmentDirection::HX,
        ) + count_moves(path(o, r, q, i, j), GapAffineAlignmentDirection::FO) == i,
        count_moves(path(o, r, q, i, j), GapAffineAlignmentDirection::HM) + count_moves(
            path(o, r, q, i, j),
            GapAffineAlignmentDirection::HX,
        ) + count_moves(path(o, r, q, i, j), GapAffineAlignmentDirection::EO) == j,
        count_moves(path(o, r, q, i, j), GapAffineAlignmentDirection::Init) == 0,
        path(o, r, q, i, j).len() == count_moves(path(o, r, q, i, j), GapAffineAlignmentDirection::HM)
            + count_moves(path(o, r, q, i, j), GapAffineAlignmentDirection::HX) + count_moves(
            path(o, r, q, i, j),
            GapAffineAlignmentDirection::FO,
        ) + count_moves(path(o, r, q, i, j), GapAffineAlignmentDirection::EO),
    decreases i + j,
{
    let p = path(o, r, q, i, j);
    if i > 0 || j > 0 {
        let (pi, pj) = if i > 0 && j > 0 {
            match dir(o, r, q, i, j) {
                GapAffineAlignmentDirection::FO => ((i - 1) as nat, j),
                GapAffineAlignmentDirection::EO => (i, (j - 1) as nat),
                _ => ((i - 1) as nat, (j - 1) as nat),
            }
        } else if j > 0 {
            (0nat, (j - 1) as nat)
        } else {
            ((i - 1) as nat, 0nat)
        };
        lemma_path_counts(o, r, q, pi, pj);
        let prev = path(o, r, q, pi, pj);
        assert(p == prev.push(p.last()));
        lemma_count_push(prev, p.last(), GapAffineAlignmentDirection::HM);
        lemma_count_push(prev, p.last(), GapAffineAlignmentDirection::HX);
        lemma_count_push(prev, p.last(), GapAffineAlignmentDirection::FO);
        lemma_count_push(prev, p.last(), GapAffineAlignmentDirection::EO);
        lemma_count_push(prev, p.last(), GapAffineAlignmentDirection::Init);
    }
}


/// `w` with `tail` appended to its steps, or `None` where `w` is `None`.
pub open spec fn extend_walk(
    w: Option<Seq<(usize, usize, GapAffineAlignmentDirection)>>,
    tail: Seq<(usize, usize, GapAffineAlignmentDirection)>,
) -> Option<Seq<(usize, usize, GapAffineAlignmentDirection)>> {
    match w {
        Some(p) => Some(p + tail),
        None => None,
    }
}

/// The walk back through direction record `b` from cell `(i, j)` to the origin, given in
/// order from the origin: a diagonal move steps to `(i - 1, j - 1)`, a deletion to
/// `(i - 1, j)`, an insertion to `(i, j - 1)`; once a sequence is exhausted the rest of the
/// other is a run of insertions at reference index 0 or of deletions at query index 0.
/// `None` where the walk meets an unset cell.
pub open spec fn walk(b: Seq<Vec<GapAffineAlignmentDirection>>, i: nat, j: nat) -> Option<
    Seq<(usize, usize, GapAffineAlignmentDirection)>,
>
    decreases i + j,
{
    if i > 0 && j > 0 {
        let d = b[i as int][j as int];
        let step = seq![((i - 1) as usize, (j - 1) as usize, d)];
        match d {
            GapAffineAlignmentDirection::Init => None,
            GapAffineAlignmentDirection::FO => extend_walk(walk(b, (i - 1) as nat, j), step),
            GapAffineAlignmentDirection::EO => extend_walk(walk(b, i, (j - 1) as nat), step),
            _ => extend_walk(walk(b, (i - 1) as nat, (j - 1) as nat), step),
        }
    } else if j > 0 {
        extend_walk(walk(b, 0, (j - 1) as nat), seq![(0usize, (j - 1) as usize, GapAffineAlignmentDirection::EO)])
    } else if i > 0 {
        extend_walk(walk(b, (i - 1) as nat, 0), seq![((i - 1) as usize, 0usize, GapAffineAlignmentDirection::FO)])
    } else {
        Some(Seq::empty())
    }
}

/// The reference indices of the steps of `p` that are not insertions, in order.
pub open spec fn reference_indices(p: Seq<(usize, usize, GapAffineAlignmentDirection)>) -> Seq<int>
    decreases p.len(),
{
    if p.len() == 0 {
        Seq::empty()
    } else if p.last().2 == GapAffineAlignmentDirection::EO {
        reference_indices(p.drop_last())
    } else {
        reference_indices(p.drop_last()).push(p.last().0 as int)
    }
}

/// The query indices of the steps of `p` that are not deletions, in order.
pub open spec fn query_indices(p: Seq<(usize, usize, GapAffineAlignmentDirection)>) -> Seq<int>
    decreases p.len(),
{
    if p.len() == 0 {
        Seq::empty()
    } else if p.last().2 == GapAffineAlignmentDirection::FO {
        query_indices(p.drop_last())
    } else {
        query_indices(p.drop_last()).push(p.last().1 as int)
    }
}

/// The cell the walk steps to from `(i, j)`, with the step it records there.
pub open spec fn walk_step(b: Seq<Vec<GapAffineAlignmentDirection>>, i: nat, j: nat) -> (
    nat,
    nat,
    (usize, usize, GapAffineAlignmentDirection),
) {
    if i > 0 && j > 0 {
        let d = b[i as int][j as int];
        let pi: nat = if d != GapAffineAlignmentDirection::EO { (i - 1) as nat } else { i };
        let pj: nat = if d != GapAffineAlignmentDirection::FO { (j - 1) as nat } else { j };
        (pi, pj, ((i - 1) as usize, (j - 1) as usize, d))
    } else if j > 0 {
        (0, (j - 1) as nat, (0usize, (j - 1) as usize, GapAffineAlignmentDirection::EO))
    } else {
        ((i - 1) as nat, 0, ((i - 1) as usize, 0usize, GapAffineAlignmentDirection::FO))
    }
}

/// A complete walk from a cell other than the origin is the complete walk from the cell it
/// steps to, followed by the step, which is set.
pub proof fn lemma_walk_unfold(b: Seq<Vec<GapAffineAlignmentDirection>>, i: nat, j: nat)
    requires
        walk(b, i, j) is Some,
        i > 0 || j > 0,
        i <= usize::MAX,
        j <= usize::MAX,
    ensures
        ({
            let (pi, pj, x) = walk_step(b, i, j);
            &&& pi + pj < i + j
            &&& pi <= i && pj <= j
            &&& walk(b, pi, pj) is Some
            &&& walk(b, i, j)->0 == walk(b, pi, pj)->0.push(x)
            &&& x.2 != GapAffineAlignmentDirection::Init
            &&& (x.2 != GapAffineAlignmentDirection::EO ==> pi == i - 1 && x.0 == i - 1)
            &&& (x.2 == GapAffineAlignmentDirection::EO ==> pi == i)
            &&& (x.2 != GapAffineAlignmentDirection::FO ==> pj == j - 1 && x.1 == j - 1)
            &&& (x.2 == GapAffineAlignmentDirection::FO ==> pj == j)
        }),
{
    let (pi, pj, x) = walk_step(b, i, j);
    assert(walk(b, i, j)->0 =~= walk(b, pi, pj)->0.push(x));
}

/// A complete walk to cell `(i, j)` consumes `i` reference symbols and `j` query symbols,
/// and each of its steps is one of the four moves.
pub proof fn lemma_walk_counts(b: Seq<Vec<GapAffineAlignmentDirection>>, i: nat, j: nat)
    requires
        walk(b, i, j) is Some,
        i <= usize::MAX,
        j <= usize::MAX,
    ensures
        ({
            let p = walk(b, i, j)->0;
            &&& count_moves(p, GapAffineAlignmentDirection::HM) + count_moves(p, GapAffineAlignmentDirection::HX)
                + count_moves(p, GapAffineAlignmentDirection::FO) == i
            &&& count_moves(p, GapAffineAlignmentDirection::HM) + count_moves(p, GapAffineAlignmentDirection::HX)
                + count_moves(p, GapAffineAlignmentDirection::EO) == j
            &&& count_moves(p, GapAffineAlignmentDirection::Init) == 0
            &&& p.len() == count_moves(p, GapAffineAlignmentDirection::HM) + count_moves(
                p,
                GapAffineAlignmentDirection::HX,
            ) + count_moves(p, GapAffineAlignmentDirection::FO) + count_moves(p, GapAffineAlignmentDirection::EO)
        }),
    decreases i + j,
{
    if i > 0 || j > 0 {
        lemma_walk_unfold(b, i, j);
        let (pi, pj, x) = walk_step(b, i, j);
        lemma_walk_counts(b, pi, pj);
        let prev = walk(b, pi, pj)->0;
        lemma_count_push(prev, x, GapAffineAlignmentDirection::HM);
        lemma_count_push(prev, x, GapAffineAlignmentDirection::HX);
        lemma_count_push(prev, x, GapAffineAlignmentDirection::FO);
        lemma_count_push(prev, x, GapAffineAlignmentDirection::EO);
        lemma_count_push(prev, x, GapAffineAlignmentDirection::Init);
    }
}

/// A complete walk to cell `(i, j)` reads reference indices `0..i`, insertions skipped, and
/// query indices `0..j`, deletions skipped, each once and in order.
pub proof fn lemma_walk_indices(b: Seq<Vec<GapAffineAlignmentDirection>>, i: nat, j: nat)
    requires
        walk(b, i, j) is Some,
        i <= usize::MAX,
        j <= usize::MAX,
    ensures
        reference_indices(walk(b, i, j)->0) == Seq::new(i, |k: int| k),
        query_indices(walk(b, i, j)->0) == Seq::new(j, |k: int| k),
    decreases i + j,
{
    let p = walk(b, i, j)->0;
    if i > 0 || j > 0 {
        lemma_walk_unfold(b, i, j);
        let (pi, pj, x) = walk_step(b, i, j);
        lemma_walk_indices(b, pi, pj);
        assert(p.drop_last() =~= walk(b, pi, pj)->0);
        assert(reference_indices(p) =~= Seq::new(i, |k: int| k));
        assert(query_indices(p) =~= Seq::new(j, |k: int| k));
    } else {
        assert(reference_indices(p) =~= Seq::new(0, |k: int| k));
        assert(query_indices(p) =~= Seq::new(0, |k: int| k));
    }
}

/// Where the record holds the model's move at every cell of the grid, the walk back from
/// any cell of the grid is the model's path to it.
pub proof fn lemma_walk_is_path(
    b: Seq<Vec<GapAffineAlignmentDirection>>,
    o: GapAffineAlignmentOptions,
    r: Seq<char>,
    q: Seq<char>,
    i: nat,
    j: nat,
)
    requires
        i <= r.len(),
        j <= q.len(),
        forall|a: int, k: int|
            1 <= a <= r.len() && 1 <= k <= q.len() ==> b[a][k] == dir(o, r, q, a as nat, k as nat),
    ensures
        walk(b, i, j) == Some(path(o, r, q, i, j)),
    decreases i + j,
{
    if i > 0 && j > 0 {
        let d = dir(o, r, q, i, j);
        assert(b[i as int][j as int] == d);
        match d {
            GapAffineAlignmentDirection::FO => lemma_walk_is_path(b, o, r, q, (i - 1) as nat, j),
            GapAffineAlignmentDirection::EO => lemma_walk_is_path(b, o, r, q, i, (j - 1) as nat),
            _ => lemma_walk_is_path(b, o, r, q, (i - 1) as nat, (j - 1) as nat),
        }
        assert(walk(b, i, j)->0 =~= path(o, r, q, i, j));
    } else if j > 0 {
        lemma_walk_is_path(b, o, r, q, 0, (j - 1) as nat);
        assert(walk(b, i, j)->0 =~= path(o, r, q, i, j));
    } else if i > 0 {
        lemma_walk_is_path(b, o, r, q, (i - 1) as nat, 0);
        assert(walk(b, i, j)->0 =~= path(o, r, q, i, j));
    }
}

/// With nothing left of the reference the walk is one insertion per query symbol; with
/// nothing left of the query, one deletion per reference symbol; whatever the record holds.
pub proof fn lemma_walk_one_side(b: Seq<Vec<GapAffineAlignmentDirection>>, i: nat, j: nat)
    requires
        i == 0 || j == 0,
        i <= usize::MAX,
        j <= usize::MAX,
    ensures
        i == 0 ==> walk(b, i, j) == Some(
            Seq::new(j, |k: int| (0usize, k as usize, GapAffineAlignmentDirection::EO)),
        ),
        j == 0 ==> walk(b, i, j) == Some(
            Seq::new(i, |k: int| (k as usize, 0usize, GapAffineAlignmentDirection::FO)),
        ),
    decreases i + j,
{
    if i == 0 && j > 0 {
        lemma_walk_one_side(b, 0, (j - 1) as nat);
        assert(walk(b, i, j)->0 =~= Seq::new(j, |k: int| (0usize, k as usize, GapAffineAlignmentDirection::EO)));
    } else if j == 0 && i > 0 {
        lemma_walk_one_side(b, (i - 1) as nat, 0);
        assert(walk(b, i, j)->0 =~= Seq::new(i, |k: int| (k as usize, 0usize, GapAffineAlignmentDirection::FO)));
    } else {
        assert(walk(b, 0, 0)->0 =~= Seq::new(0, |k: int| (0usize, k as usize, GapAffineAlignmentDirection::EO)));
        assert(walk(b, 0, 0)->0 =~= Seq::new(0, |k: int| (k as usize, 0usize, GapAffineAlignmentDirection::FO)));
    }
}

} // verus!
