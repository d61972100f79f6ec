use gap_affine_align::align::{
    AlignError, GapAffineAlignment, GapAffineAlignmentDirection, GapAffineAlignmentOptions,
    GapAffineAlignmentResult,
};
use GapAffineAlignmentDirection::{EO, FO, HM, HX};

fn options(match_score: i32, mismatch_score: i32, gap_open: i32, gap_extend: i32) -> GapAffineAlignmentOptions {
    GapAffineAlignmentOptions { match_score, mismatch_score, gap_open, gap_extend }
}

fn golden_options() -> GapAffineAlignmentOptions {
    options(2, -4, -2, -1)
}

fn run(text: &str, patt: &str, o: GapAffineAlignmentOptions) -> (i32, i32, i32, i32, Vec<(usize, usize, GapAffineAlignmentDirection)>) {
    let mut aligner = GapAffineAlignment::new(text.chars().count(), patt.chars().count(), o);
    let r: &GapAffineAlignmentResult = aligner.align(text, patt).unwrap();
    (r.match_base, r.mismatch_base, r.deletion, r.insertion, r.alignment.clone())
}

fn check_conservation(text: &str, patt: &str, o: GapAffineAlignmentOptions) {
    let (hm, hx, del, ins, path) = run(text, patt, o);
    assert_eq!((hm + hx + del) as usize, text.chars().count());
    assert_eq!((hm + hx + ins) as usize, patt.chars().count());
    assert_eq!(path.len(), (hm + hx + del + ins) as usize);
}

#[test]
fn golden_regression() {
    let text = "ATCGGATCTACTATCATCTACTA";
    let patt = "GATCTACTATCAT";
    let mut aligner = GapAffineAlignment::new(text.len(), patt.len(), golden_options());
    let r = aligner.align(text, patt).unwrap();
    assert_eq!(r.match_base, 13);
    assert_eq!(r.mismatch_base, 0);
    assert_eq!(r.deletion, 10);
    assert_eq!(r.insertion, 0);
    let mut expected = vec![(0, 0, FO), (1, 0, FO), (2, 0, FO), (3, 0, FO)];
    for k in 0..13 {
        expected.push((4 + k, k, HM));
    }
    for k in 17..23 {
        expected.push((k, 12, FO));
    }
    assert_eq!(r.alignment, expected);
}

#[test]
fn identical_sequences_match_everywhere() {
    let (hm, hx, del, ins, path) = run("ACGT", "ACGT", golden_options());
    assert_eq!((hm, hx, del, ins), (4, 0, 0, 0));
    assert_eq!(path, vec![(0, 0, HM), (1, 1, HM), (2, 2, HM), (3, 3, HM)]);
}

#[test]
fn mismatch_on_the_diagonal() {
    let (hm, hx, del, ins, path) = run("AC", "AT", options(1, -1, -1, -1));
    assert_eq!((hm, hx, del, ins), (1, 1, 0, 0));
    assert_eq!(path, vec![(0, 0, HM), (1, 1, HX)]);
}

#[test]
fn deletion_inside_the_reference() {
    let (hm, hx, del, ins, path) = run("ACGTA", "AGTA", golden_options());
    assert_eq!((hm, hx, del, ins), (4, 0, 1, 0));
    assert_eq!(path, vec![(0, 0, HM), (1, 0, FO), (2, 1, HM), (3, 2, HM), (4, 3, HM)]);
}

#[test]
fn trailing_insertion() {
    let (hm, hx, del, ins, path) = run("A", "AA", golden_options());
    assert_eq!((hm, hx, del, ins), (1, 0, 0, 1));
    assert_eq!(path, vec![(0, 0, HM), (0, 1, EO)]);
}

#[test]
fn single_substitution_taken_as_gap_pair() {
    let (hm, hx, del, ins, path) = run("A", "C", golden_options());
    assert_eq!((hm, hx, del, ins), (0, 0, 1, 1));
    assert_eq!(path, vec![(0, 0, FO), (0, 0, EO)]);
}

#[test]
fn tie_prefers_deletion() {
    // The last cell scores 2 by the diagonal and 2 by a deletion: the deletion is kept.
    let (hm, hx, del, ins, path) = run("AAA", "AA", options(2, -3, -1, -1));
    assert_eq!((hm, hx, del, ins), (2, 0, 1, 0));
    assert_eq!(path, vec![(0, 0, HM), (1, 1, HM), (2, 1, FO)]);
    for _ in 0..3 {
        assert_eq!(run("AAA", "AA", options(2, -3, -1, -1)).4, path);
    }
}

#[test]
fn empty_reference_gives_insertions() {
    let (hm, hx, del, ins, path) = run("", "ACG", golden_options());
    assert_eq!((hm, hx, del, ins), (0, 0, 0, 3));
    assert_eq!(path, vec![(0, 0, EO), (0, 1, EO), (0, 2, EO)]);
}

#[test]
fn empty_query_gives_deletions() {
    let (hm, hx, del, ins, path) = run("ACG", "", golden_options());
    assert_eq!((hm, hx, del, ins), (0, 0, 3, 0));
    assert_eq!(path, vec![(0, 0, FO), (1, 0, FO), (2, 0, FO)]);
}

#[test]
fn both_empty() {
    let (hm, hx, del, ins, path) = run("", "", golden_options());
    assert_eq!((hm, hx, del, ins), (0, 0, 0, 0));
    assert!(path.is_empty());
}

#[test]
fn reference_over_capacity() {
    let mut aligner = GapAffineAlignment::new(2, 5, golden_options());
    assert_eq!(aligner.align("ACG", "AC").unwrap_err(), AlignError::CapacityExceeded);
}

#[test]
fn query_over_capacity() {
    let mut aligner = GapAffineAlignment::new(5, 2, golden_options());
    assert_eq!(aligner.align("AC", "ACG").unwrap_err(), AlignError::CapacityExceeded);
}

#[test]
fn query_longer_than_reference_within_capacity() {
    let mut aligner = GapAffineAlignment::new(2, 6, golden_options());
    let r = aligner.align("AC", "GGACGG").unwrap();
    assert_eq!(r.match_base + r.mismatch_base + r.deletion, 2);
    assert_eq!(r.match_base + r.mismatch_base + r.insertion, 6);
}

#[test]
fn engine_reuse_is_not_cumulative() {
    let mut aligner = GapAffineAlignment::new(23, 13, golden_options());
    let first = aligner.align("ACGTA", "AGTA").unwrap().alignment.clone();
    let _ = aligner.align("ATCGGATCTACTATCATCTACTA", "GATCTACTATCAT").unwrap();
    let _ = aligner.align("", "ACG").unwrap();
    let again = aligner.align("ACGTA", "AGTA").unwrap();
    assert_eq!(again.alignment, first);
    assert_eq!((again.match_base, again.mismatch_base, again.deletion, again.insertion), (4, 0, 1, 0));
}

#[test]
fn conservation_holds() {
    check_conservation("ATCGGATCTACTATCATCTACTA", "GATCTACTATCAT", golden_options());
    check_conservation("GATTACA", "TACGATTA", options(1, -1, -2, -1));
    check_conservation("CCC", "AC", options(2, -3, -1, -1));
    check_conservation("ACGTTGCA", "A", options(3, -2, 5, 2));
}

#[test]
fn path_replays_both_sequences() {
    let text = "GATTACA";
    let patt = "TACGATTA";
    let (_, _, _, _, path) = run(text, patt, options(1, -1, -2, -1));
    let rs: Vec<char> = text.chars().collect();
    let qs: Vec<char> = patt.chars().collect();
    let ref_replay: String = path.iter().filter(|s| s.2 != EO).map(|s| rs[s.0]).collect();
    let qry_replay: String = path.iter().filter(|s| s.2 != FO).map(|s| qs[s.1]).collect();
    assert_eq!(ref_replay, text);
    assert_eq!(qry_replay, patt);
}

#[test]
fn symbols_are_characters() {
    let (hm, hx, del, ins, path) = run("αβγ", "αβγ", golden_options());
    assert_eq!((hm, hx, del, ins), (3, 0, 0, 0));
    assert_eq!(path, vec![(0, 0, HM), (1, 1, HM), (2, 2, HM)]);
}

#[test]
fn positive_gap_options_on_a_middle_deletion() {
    let neg = run("ACGTA", "AGTA", options(2, -4, -2, -1));
    let pos = run("ACGTA", "AGTA", options(2, -4, 2, 1));
    assert_eq!(neg, pos);
}

fn render(text: &str, patt: &str, o: GapAffineAlignmentOptions) -> Option<(String, String, String)> {
    let mut aligner = GapAffineAlignment::new(text.chars().count(), patt.chars().count(), o);
    aligner.align(text, patt).unwrap().render(text, patt)
}

#[test]
fn golden_render() {
    let (r, m, q) = render("ATCGGATCTACTATCATCTACTA", "GATCTACTATCAT", golden_options()).unwrap();
    assert_eq!(r, "ATCGGATCTACTATCATCTACTA");
    assert_eq!(m, "----|||||||||||||------");
    assert_eq!(q, "----GATCTACTATCAT------");
}

#[test]
fn render_marks_mismatch_and_insertion() {
    assert_eq!(
        render("AC", "AT", options(1, -1, -1, -1)),
        Some(("AC".to_string(), "|*".to_string(), "AT".to_string()))
    );
    assert_eq!(
        render("A", "AA", golden_options()),
        Some(("A-".to_string(), "|-".to_string(), "AA".to_string()))
    );
}

#[test]
fn render_refuses_indices_past_the_sequences() {
    let mut aligner = GapAffineAlignment::new(4, 4, golden_options());
    let r = aligner.align("ACGT", "ACGT").unwrap();
    assert_eq!(r.render("A", "ACGT"), None);
    assert_eq!(r.render("ACGT", "AC"), None);
    assert!(r.render("ACGT", "ACGT").is_some());
}

#[test]
fn options_survive_alignment() {
    let mut aligner = GapAffineAlignment::new(4, 4, options(3, -5, -4, -2));
    let _ = aligner.align("ACGT", "AGT").unwrap();
    let o = aligner.options();
    assert_eq!((o.match_score, o.mismatch_score, o.gap_open, o.gap_extend), (3, -5, -4, -2));
    assert_eq!(aligner.options.gap_open, -4);
}
