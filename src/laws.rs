use vstd::prelude::*;

use crate::align::{GapAffineAlignmentDirection, GapAffineAlignmentOptions, GapAffineAlignmentResult};
use crate::model::{cell, dir, lemma_path_counts, pair_score, path};

verus! {

/// The reference symbols that a path consumes, in order: one for each step that is not
/// an insertion, read at the step's reference index.
pub open spec fn reference_replay(
    p: Seq<(usize, usize, GapAffineAlignmentDirection)>,
    r: Seq<char>,
) -> Seq<char>
    decreases p.len(),
{
    if p.len() == 0 {
        Seq::empty()
    } else if p.last().2 == GapAffineAlignmentDirection::EO {
        reference_replay(p.drop_last(), r)
    } else {
        reference_replay(p.drop_last(), r).push(r[p.last().0 as int])
    }
}

/// The query symbols that a path consumes, in order: one for each step that is not a
/// deletion, read at the step's query index.
pub open spec fn query_replay(p: Seq<(usize, usize, GapAffineAlignmentDirection)>, q: Seq<char>) -> Seq<
    char,
>
    decreases p.len(),
{
    if p.len() == 0 {
        Seq::empty()
    } else if p.last().2 == GapAffineAlignmentDirection::FO {
        query_replay(p.drop_last(), q)
    } else {
        query_replay(p.drop_last(), q).push(q[p.last().1 as int])
    }
}

/// Two results of aligning the same reference and query under the same options have the
/// same counters and the same path.
pub proof fn lemma_deterministic(
    a: GapAffineAlignmentResult,
    b: GapAffineAlignmentResult,
    o: GapAffineAlignmentOptions,
    r: Seq<char>,
    q: Seq<char>,
)
    requires
        a.is_alignment_of(o, r, q),
        b.is_alignment_of(o, r, q),
    ensures
        a.alignment@ == b.alignment@,
        a.match_base == b.match_base,
        a.mismatch_base == b.mismatch_base,
        a.deletion == b.deletion,
        a.insertion == b.insertion,
{
}

/// Matches, mismatches and deletions together consume the whole reference; matches,
/// mismatches and insertions the whole query; and the path has one step per move counted.
pub proof fn lemma_conservation(
    res: GapAffineAlignmentResult,
    o: GapAffineAlignmentOptions,
    r: Seq<char>,
    q: Seq<char>,
)
    requires
        res.is_alignment_of(o, r, q),
    ensures
        res.match_base + res.mismatch_base + res.deletion == r.len(),
        res.match_base + res.mismatch_base + res.insertion == q.len(),
        res.alignment@.len() == res.match_base + res.mismatch_base + res.deletion + res.insertion,
{
    lemma_path_counts(o, r, q, r.len(), q.len());
}

proof fn lemma_replay_prefix(o: GapAffineAlignmentOptions, r: Seq<char>, q: Seq<char>, i: nat, j: nat)
    requires
        i <= r.len() <= usize::MAX,
        j <= q.len() <= usize::MAX,
    ensures
        reference_replay(path(o, r, q, i, j), r) == r.take(i as int),
        query_replay(path(o, r, q, i, j), q) == q.take(j as int),
    decreases i + j,
{
    let p = path(o, r, q, i, j);
    if i == 0 && j == 0 {
        assert(r.take(0) =~= Seq::<char>::empty());
        assert(q.take(0) =~= Seq::<char>::empty());
    } else {
        let d = if i > 0 && j > 0 {
            dir(o, r, q, i, j)
        } else if j > 0 {
            GapAffineAlignmentDirection::EO
        } else {
            GapAffineAlignmentDirection::FO
        };
        let eats_ref = d != GapAffineAlignmentDirection::EO;
        let eats_qry = d != GapAffineAlignmentDirection::FO;
        let pi: nat = if eats_ref { (i - 1) as nat } else { i };
        let pj: nat = if eats_qry { (j - 1) as nat } else { j };
        let prev = path(o, r, q, pi, pj);
        lemma_replay_prefix(o, r, q, pi, pj);
        assert(p == prev.push(p.last()));
        assert(p.drop_last() =~= prev);
        if eats_ref {
            assert(p.last().0 == i - 1);
            assert(r.take(i as int) =~= r.take(pi as int).push(r[i - 1]));
        }
        if eats_qry {
            assert(p.last().1 == j - 1);
            assert(q.take(j as int) =~= q.take(pj as int).push(q[j - 1]));
        }
    }
}

/// Reading the path's reference indices, insertions skipped, gives back the reference;
/// reading its query indices, deletions skipped, gives back the query.
pub proof fn lemma_path_fidelity(
    res: GapAffineAlignmentResult,
    o: GapAffineAlignmentOptions,
    r: Seq<char>,
    q: Seq<char>,
)
    requires
        res.is_alignment_of(o, r, q),
        r.len() <= usize::MAX,
        q.len() <= usize::MAX,
    ensures
        reference_replay(res.alignment@, r) == r,
        query_replay(res.alignment@, q) == q,
{
    lemma_replay_prefix(o, r, q, r.len(), q.len());
    assert(r.take(r.len() as int) =~= r);
    assert(q.take(q.len() as int) =~= q);
}

/// With an empty reference the path is one insertion per query symbol, in order; with an
/// empty query it is one deletion per reference symbol, in order.
pub proof fn lemma_path_empty_side(o: GapAffineAlignmentOptions, r: Seq<char>, q: Seq<char>)
    requires
        r.len() <= usize::MAX,
        q.len() <= usize::MAX,
    ensures
        r.len() == 0 ==> path(o, r, q, r.len(), q.len()) == Seq::new(
            q.len() as nat,
            |k: int| (0usize, k as usize, GapAffineAlignmentDirection::EO),
        ),
        q.len() == 0 ==> path(o, r, q, r.len(), q.len()) == Seq::new(
            r.len() as nat,
            |k: int| (k as usize, 0usize, GapAffineAlignmentDirection::FO),
        ),
{
    if r.len() == 0 {
        lemma_insertions_only(o, r, q, q.len());
    }
    if q.len() == 0 {
        lemma_deletions_only(o, r, q, r.len());
    }
}

proof fn lemma_insertions_only(o: GapAffineAlignmentOptions, r: Seq<char>, q: Seq<char>, j: nat)
    requires
        j <= usize::MAX,
    ensures
        path(o, r, q, 0, j) == Seq::new(j, |k: int| (0usize, k as usize, GapAffineAlignmentDirection::EO)),
    decreases j,
{
    if j > 0 {
        lemma_insertions_only(o, r, q, (j - 1) as nat);
        assert(path(o, r, q, 0, j) =~= Seq::new(
            j,
            |k: int| (0usize, k as usize, GapAffineAlignmentDirection::EO),
        ));
    } else {
        assert(path(o, r, q, 0, 0) =~= Seq::new(
            0,
            |k: int| (0usize, k as usize, GapAffineAlignmentDirection::EO),
        ));
    }
}

proof fn lemma_deletions_only(o: GapAffineAlignmentOptions, r: Seq<char>, q: Seq<char>, i: nat)
    requires
        i <= usize::MAX,
    ensures
        path(o, r, q, i, 0) == Seq::new(i, |k: int| (k as usize, 0usize, GapAffineAlignmentDirection::FO)),
    decreases i,
{
    if i > 0 {
        lemma_deletions_only(o, r, q, (i - 1) as nat);
        assert(path(o, r, q, i, 0) =~= Seq::new(
            i,
            |k: int| (k as usize, 0usize, GapAffineAlignmentDirection::FO),
        ));
    } else {
        assert(path(o, r, q, 0, 0) =~= Seq::new(
            0,
            |k: int| (k as usize, 0usize, GapAffineAlignmentDirection::FO),
        ));
    }
}

/// An empty reference aligns with a query of length `L` by `L` insertions and nothing else,
/// one at each query index in order.
pub proof fn lemma_empty_reference(res: GapAffineAlignmentResult, o: GapAffineAlignmentOptions, q: Seq<char>)
    requires
        res.is_alignment_of(o, Seq::empty(), q),
    ensures
        res.insertion == q.len(),
        res.match_base == 0,
        res.mismatch_base == 0,
        res.deletion == 0,
        res.alignment@.len() == q.len(),
        q.len() <= usize::MAX ==> res.alignment@ == Seq::new(
            q.len() as nat,
            |k: int| (0usize, k as usize, GapAffineAlignmentDirection::EO),
        ),
{
    lemma_conservation(res, o, Seq::empty(), q);
    if q.len() <= usize::MAX {
        lemma_path_empty_side(o, Seq::empty(), q);
    }
}

/// A reference of length `L` aligns with an empty query by `L` deletions and nothing else,
/// one at each reference index in order.
pub proof fn lemma_empty_query(res: GapAffineAlignmentResult, o: GapAffineAlignmentOptions, r: Seq<char>)
    requires
        res.is_alignment_of(o, r, Seq::empty()),
    ensures
        res.deletion == r.len(),
        res.match_base == 0,
        res.mismatch_base == 0,
        res.insertion == 0,
        res.alignment@.len() == r.len(),
        r.len() <= usize::MAX ==> res.alignment@ == Seq::new(
            r.len() as nat,
            |k: int| (k as usize, 0usize, GapAffineAlignmentDirection::FO),
        ),
{
    lemma_conservation(res, o, r, Seq::empty());
    if r.len() <= usize::MAX {
        lemma_path_empty_side(o, r, Seq::empty());
    }
}

/// At every cell the record keeps the best of the three scores, and breaks ties in favour of
/// a deletion, then of an insertion, before the diagonal.
pub proof fn lemma_tie_break(o: GapAffineAlignmentOptions, r: Seq<char>, q: Seq<char>, i: nat, j: nat)
    requires
        1 <= i <= r.len(),
        1 <= j <= q.len(),
    ensures
        ({
            let x = pair_score(o, r[i - 1], q[j - 1]) + cell(o, r, q, (i - 1) as nat, (j - 1) as nat).0;
            let e = cell(o, r, q, i, j).1;
            let f = cell(o, r, q, i, j).2;
            let v = cell(o, r, q, i, j).0;
            let d = dir(o, r, q, i, j);
            &&& v >= x && v >= e && v >= f
            &&& (v == x || v == e || v == f)
            &&& f >= x && f >= e ==> d == GapAffineAlignmentDirection::FO
            &&& e >= x && e > f ==> d == GapAffineAlignmentDirection::EO
            &&& x > e && x > f && r[i - 1] == q[j - 1] ==> d == GapAffineAlignmentDirection::HM
            &&& x > e && x > f && r[i - 1] != q[j - 1] ==> d == GapAffineAlignmentDirection::HX
        }),
{
}

} // verus!
