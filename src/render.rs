use vstd::prelude::*;

use crate::align::{
    to_symbols, GapAffineAlignmentDirection, GapAffineAlignmentOptions, GapAffineAlignmentResult,
};
use crate::model::{dir, path};

verus! {

/// Relies on `String::push`: it appends the character to the end of the string.
pub assume_specification[ String::push ](s: &mut String, ch: char)
    ensures
        final(s)@ == old(s)@.push(ch),
;

/// Each step of `p` reads a reference symbol only where `r` has one at its reference index,
/// and a query symbol only where `q` has one at its query index.
pub open spec fn steps_in_range(p: Seq<(usize, usize, GapAffineAlignmentDirection)>, r: Seq<char>, q: Seq<char>) -> bool {
    forall|k: int|
        0 <= k < p.len() ==> {
            &&& reads_reference(#[trigger] p[k].2) ==> p[k].0 < r.len()
            &&& reads_query(p[k].2) ==> p[k].1 < q.len()
        }
}

/// A diagonal move or a deletion shows a reference symbol.
pub open spec fn reads_reference(d: GapAffineAlignmentDirection) -> bool {
    d == GapAffineAlignmentDirection::HM || d == GapAffineAlignmentDirection::HX
        || d == GapAffineAlignmentDirection::FO
}

/// A diagonal move or an insertion shows a query symbol.
pub open spec fn reads_query(d: GapAffineAlignmentDirection) -> bool {
    d == GapAffineAlignmentDirection::HM || d == GapAffineAlignmentDirection::HX
        || d == GapAffineAlignmentDirection::EO
}

/// The three display lines of path `p`: the reference line, the marker line and the query
/// line. A match shows both symbols over `|`, a mismatch over `*`; a deletion shows the
/// reference symbol against `-`, an insertion `-` against the query symbol; an unset move
/// shows nothing.
pub open spec fn render_lines(p: Seq<(usize, usize, GapAffineAlignmentDirection)>, r: Seq<char>, q: Seq<char>) -> (
    Seq<char>,
    Seq<char>,
    Seq<char>,
)
    decreases p.len(),
{
    if p.len() == 0 {
        (Seq::empty(), Seq::empty(), Seq::empty())
    } else {
        let prev = render_lines(p.drop_last(), r, q);
        let (i, j, d) = p.last();
        match d {
            GapAffineAlignmentDirection::HM => (
                prev.0.push(r[i as int]),
                prev.1.push('|'),
                prev.2.push(q[j as int]),
            ),
            GapAffineAlignmentDirection::HX => (
                prev.0.push(r[i as int]),
                prev.1.push('*'),
                prev.2.push(q[j as int]),
            ),
            GapAffineAlignmentDirection::FO => (prev.0.push(r[i as int]), prev.1.push('-'), prev.2.push('-')),
            GapAffineAlignmentDirection::EO => (prev.0.push('-'), prev.1.push('-'), prev.2.push(q[j as int])),
            GapAffineAlignmentDirection::Init => prev,
        }
    }
}

proof fn lemma_path_renders(o: GapAffineAlignmentOptions, r: Seq<char>, q: Seq<char>, i: nat, j: nat)
    requires
        i <= r.len() <= usize::MAX,
        j <= q.len() <= usize::MAX,
    ensures
        steps_in_range(path(o, r, q, i, j), r.take(i as int), q.take(j as int)),
        render_lines(path(o, r, q, i, j), r, q).0.len() == path(o, r, q, i, j).len(),
        render_lines(path(o, r, q, i, j), r, q).1.len() == path(o, r, q, i, j).len(),
        render_lines(path(o, r, q, i, j), r, q).2.len() == path(o, r, q, i, j).len(),
    decreases i + j,
{
    let p = path(o, r, q, i, j);
    if i > 0 || j > 0 {
        let d = if i > 0 && j > 0 {
            dir(o, r, q, i, j)
        } else if j > 0 {
            GapAffineAlignmentDirection::EO
        } else {
            GapAffineAlignmentDirection::FO
        };
        let pi: nat = if d != GapAffineAlignmentDirection::EO { (i - 1) as nat } else { i };
        let pj: nat = if d != GapAffineAlignmentDirection::FO { (j - 1) as nat } else { j };
        let prev = path(o, r, q, pi, pj);
        lemma_path_renders(o, r, q, pi, pj);
        assert(p == prev.push(p.last()));
        assert(p.drop_last() =~= prev);
        assert forall|k: int| 0 <= k < p.len() implies {
            &&& reads_reference(#[trigger] p[k].2) ==> p[k].0 < r.take(i as int).len()
            &&& reads_query(p[k].2) ==> p[k].1 < q.take(j as int).len()
        } by {
            if k < prev.len() {
                assert(p[k] == prev[k]);
            }
        }
    }
}

/// The path of every result of an alignment reads only symbols that the two sequences
/// have, so it renders, and its three display lines are as long as the path.
pub proof fn lemma_result_renders(res: GapAffineAlignmentResult, o: GapAffineAlignmentOptions, r: Seq<char>, q: Seq<char>)
    requires
        res.is_alignment_of(o, r, q),
        r.len() <= usize::MAX,
        q.len() <= usize::MAX,
    ensures
        steps_in_range(res.alignment@, r, q),
        render_lines(res.alignment@, r, q).0.len() == res.alignment@.len(),
        render_lines(res.alignment@, r, q).1.len() == res.alignment@.len(),
        render_lines(res.alignment@, r, q).2.len() == res.alignment@.len(),
{
    lemma_path_renders(o, r, q, r.len(), q.len());
    assert(r.take(r.len() as int) =~= r);
    assert(q.take(q.len() as int) =~= q);
}

impl GapAffineAlignmentResult {
    /// The display lines of this result's path over reference `text` and query `patt`:
    /// the reference line, the marker line and the query line; `None` where a step reads
    /// past the end of a sequence.
    pub fn render(&self, text: &str, patt: &str) -> (lines: Option<(String, String, String)>)
        ensures
            lines is Some <==> steps_in_range(self.alignment@, text@, patt@),
            lines matches Some(l) ==> l.0@ == render_lines(self.alignment@, text@, patt@).0
                && l.1@ == render_lines(self.alignment@, text@, patt@).1 && l.2@ == render_lines(
                self.alignment@,
                text@,
                patt@,
            ).2,
    {
        let r = to_symbols(text);
        let q = to_symbols(patt);
        let mut ref_seq = String::new();
        let mut aln_seq = String::new();
        let mut query_seq = String::new();
        let mut k: usize = 0;
        while k < self.alignment.len()
            invariant
                k <= self.alignment.len(),
                r@ == text@,
                q@ == patt@,
                steps_in_range(self.alignment@.take(k as int), r@, q@),
                ref_seq@ == render_lines(self.alignment@.take(k as int), r@, q@).0,
                aln_seq@ == render_lines(self.alignment@.take(k as int), r@, q@).1,
                query_seq@ == render_lines(self.alignment@.take(k as int), r@, q@).2,
            decreases self.alignment.len() - k,
        {
            let (i, j, d) = self.alignment[k];
            proof {
                assert(self.alignment@.take(k + 1).drop_last() =~= self.alignment@.take(k as int));
            }
            if (reads_reference_exec(d) && i >= r.len()) || (reads_query_exec(d) && j >= q.len()) {
                proof {
                    assert(self.alignment@[k as int] == (i, j, d));
                }
                return None;
            }
            match d {
                GapAffineAlignmentDirection::HM => {
                    ref_seq.push(r[i]);
                    query_seq.push(q[j]);
                    aln_seq.push('|');
                },
                GapAffineAlignmentDirection::HX => {
                    ref_seq.push(r[i]);
                    query_seq.push(q[j]);
                    aln_seq.push('*');
                },
                GapAffineAlignmentDirection::FO => {
                    ref_seq.push(r[i]);
                    query_seq.push('-');
                    aln_seq.push('-');
                },
                GapAffineAlignmentDirection::EO => {
                    ref_seq.push('-');
                    query_seq.push(q[j]);
                    aln_seq.push('-');
                },
                GapAffineAlignmentDirection::Init => {},
            }
            k += 1;
            proof {
                assert forall|t: int| 0 <= t < k implies {
                    &&& reads_reference(#[trigger] self.alignment@.take(k as int)[t].2) ==> self.alignment@.take(k as int)[t].0 < r@.len()
                    &&& reads_query(self.alignment@.take(k as int)[t].2) ==> self.alignment@.take(k as int)[t].1 < q@.len()
                } by {
                    if t < k - 1 {
                        assert(self.alignment@.take(k as int)[t] == self.alignment@.take(k - 1)[t]);
                    }
                }
            }
        }
        assert(self.alignment@.take(k as int) =~= self.alignment@);
        Some((ref_seq, aln_seq, query_seq))
    }
}

fn reads_reference_exec(d: GapAffineAlignmentDirection) -> (b: bool)
    ensures
        b == reads_reference(d),
{
    match d {
        GapAffineAlignmentDirection::HM | GapAffineAlignmentDirection::HX | GapAffineAlignmentDirection::FO => true,
        _ => false,
    }
}

fn reads_query_exec(d: GapAffineAlignmentDirection) -> (b: bool)
    ensures
        b == reads_query(d),
{
    match d {
        GapAffineAlignmentDirection::HM | GapAffineAlignmentDirection::HX | GapAffineAlignmentDirection::EO => true,
        _ => false,
    }
}

} // verus!
