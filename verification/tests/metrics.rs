use voter::similarity::{SimilarityStruct, SubmissionConflictQueryItem};
use voter::vote_metric::{
    cosine_weight, CosineVoteMetric, ExpandedWithoutDownVoteSelector, JaccardVoteMetric, LiftVoteMetric,
    SupportVoteMetric, UpVoteSelector, VoteColumn, WeightedSupportMetric,
};

fn s(v: &[&str]) -> Vec<String> {
    v.iter().map(|x| x.to_string()).collect()
}

fn pair(a: &str, b: &str) -> SubmissionConflictQueryItem {
    SubmissionConflictQueryItem { fullcode_a: a.to_string(), fullcode_b: b.to_string() }
}

fn two_ballots() -> Vec<Vec<Vec<String>>> {
    vec![
        vec![s(&["s/a", "s/b"]), s(&["s/a", "s/b"])],
        vec![s(&["s/a"]), s(&["s/a", "s/b"])],
        vec![s(&["s/b"]), s(&["s/b"])],
    ]
}

#[test]
fn cosine_weights() {
    assert_eq!(cosine_weight(true, true, true), 4);
    assert_eq!(cosine_weight(false, true, true), 1);
    assert_eq!(cosine_weight(false, false, true), -4);
    assert_eq!(cosine_weight(false, false, false), 0);
}

#[test]
fn support_counts_pairs_chosen_together() {
    let mut m: SimilarityStruct<SupportVoteMetric<UpVoteSelector>> = SimilarityStruct::from_query_results(vec![pair("s/a", "s/b")]);
    assert_eq!(m.get_columns(), vec![VoteColumn::Up, VoteColumn::Shown]);
    m.process_votes(two_ballots());
    let e = m.metrics().entries()[0];
    assert_eq!((e.numerator, e.denominator), (1, 2));
    assert_eq!(m.fullcodes(), &vec![("s/a".to_string(), "s/b".to_string())]);
}

#[test]
fn jaccard_counts_ballots_choosing_either() {
    let mut m: SimilarityStruct<JaccardVoteMetric<UpVoteSelector>> = SimilarityStruct::from_query_results(vec![pair("s/a", "s/b")]);
    m.process_votes(two_ballots());
    let e = m.metrics().entries()[0];
    assert_eq!((e.numerator, e.denominator), (1, 2));
}

#[test]
fn lift_counts_each_side() {
    let mut m: SimilarityStruct<LiftVoteMetric<UpVoteSelector>> = SimilarityStruct::from_query_results(vec![pair("s/a", "s/b")]);
    m.process_votes(two_ballots());
    let e = m.metrics().entries()[0];
    assert_eq!((e.a, e.b, e.joint, e.views), (2, 1, 1, 2));
}

#[test]
fn weighted_support_records_ballot_sizes() {
    let mut m: SimilarityStruct<WeightedSupportMetric<UpVoteSelector>> = SimilarityStruct::from_query_results(vec![pair("s/a", "s/b")]);
    m.process_votes(vec![
        vec![s(&["s/a", "s/b", "s/x"]), s(&["s/a", "s/b"])],
        vec![s(&["s/a", "s/b"]), s(&["s/a"])],
    ]);
    let e = &m.metrics().entries()[0];
    assert_eq!(e.hits, vec![2, 2]);
    assert_eq!(e.denominator, 1);
}

#[test]
fn cosine_sums_weight_products() {
    let mut m: SimilarityStruct<CosineVoteMetric> = SimilarityStruct::from_query_results(vec![pair("s/a", "s/b")]);
    assert_eq!(m.get_columns(), vec![VoteColumn::Up, VoteColumn::Expanded, VoteColumn::Down, VoteColumn::Shown]);
    m.process_votes(vec![
        vec![s(&["s/a"]), s(&["s/b"]), s(&[]), s(&["s/a", "s/b"])],
        vec![s(&[]), s(&[]), s(&["s/a", "s/b"]), s(&["s/a", "s/b"])],
        vec![s(&["s/a", "s/b"]), s(&[]), s(&[]), s(&["s/a"])],
    ]);
    let e = m.metrics().entries()[0];
    assert_eq!((e.dotprod, e.a, e.b), (4 + 16, 16 + 16, 1 + 16));
}

#[test]
fn expanded_without_down_selector() {
    let mut m: SimilarityStruct<SupportVoteMetric<ExpandedWithoutDownVoteSelector>> =
        SimilarityStruct::from_query_results(vec![pair("s/a", "s/b")]);
    assert_eq!(m.get_columns(), vec![VoteColumn::Expanded, VoteColumn::Down, VoteColumn::Shown]);
    m.process_votes(vec![
        vec![s(&["s/a", "s/b"]), s(&[]), s(&["s/a", "s/b"])],
        vec![s(&["s/a", "s/b"]), s(&["s/b"]), s(&["s/a", "s/b"])],
    ]);
    let e = m.metrics().entries()[0];
    assert_eq!((e.numerator, e.denominator), (1, 2));
}

#[test]
fn single_submission_pairs() {
    let m: SimilarityStruct<SupportVoteMetric<UpVoteSelector>> =
        SimilarityStruct::from_single_submission("s/a".to_string(), s(&["s/b", "s/c"]));
    assert_eq!(
        m.fullcodes(),
        &vec![("s/a".to_string(), "s/b".to_string()), ("s/a".to_string(), "s/c".to_string())]
    );
    assert_eq!(m.metrics().entries().len(), 2);
}

#[test]
fn unknown_codes_are_ignored() {
    let mut m: SimilarityStruct<SupportVoteMetric<UpVoteSelector>> = SimilarityStruct::from_query_results(vec![pair("s/a", "s/b")]);
    m.process_votes(vec![vec![s(&["x/y", "s/a"]), s(&["x/z"])]]);
    let e = m.metrics().entries()[0];
    assert_eq!((e.numerator, e.denominator), (0, 0));
}

#[test]
fn ballots_fold_the_same_in_batches() {
    let mut once: SimilarityStruct<LiftVoteMetric<UpVoteSelector>> = SimilarityStruct::from_query_results(vec![pair("s/a", "s/b")]);
    once.process_votes(two_ballots());
    let mut twice: SimilarityStruct<LiftVoteMetric<UpVoteSelector>> = SimilarityStruct::from_query_results(vec![pair("s/a", "s/b")]);
    let mut ballots = two_ballots();
    let rest = ballots.split_off(1);
    twice.process_votes(ballots);
    twice.process_votes(rest);
    let (a, b) = (once.metrics().entries()[0], twice.metrics().entries()[0]);
    assert_eq!((a.a, a.b, a.joint, a.views), (b.a, b.b, b.joint, b.views));
}

#[test]
fn jaccard_counts_stay_within_views() {
    let mut m: SimilarityStruct<JaccardVoteMetric<UpVoteSelector>> =
        SimilarityStruct::from_query_results(vec![pair("s/a", "s/b"), pair("s/b", "s/c")]);
    m.process_votes(vec![
        vec![s(&["s/a", "s/b", "s/c"]), s(&["s/a", "s/b"])],
        vec![s(&["s/b", "s/c"]), s(&["s/b", "s/c"])],
    ]);
    for e in m.metrics().entries() {
        assert!(e.numerator <= e.denominator);
    }
    assert_eq!((m.metrics().entries()[1].numerator, m.metrics().entries()[1].denominator), (1, 1));
}
