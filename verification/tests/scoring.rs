use mi::{
    LaplaceSmoothing, PositiveMutualInformation, Ratio, RawProb, ScoreParts, Smoothing,
    SpecificCorrelation, TupleCollector,
};

fn ratio(r: &Ratio) -> f64 {
    r.num as f64 / r.den as f64
}

/// The floating-point finish of a score: the log of the ratio between the
/// joint probability and the product of the marginals, normalized into
/// [-1, 1] and truncated at zero as the parts request.
fn score(parts: &ScoreParts) -> f64 {
    let p = ratio(&parts.joint);
    let q: f64 = parts.marginals.iter().map(ratio).product();
    let pmi = (p / q).ln();
    let val = if parts.normalize {
        let k = (parts.marginals.len() - 1) as f64;
        if pmi.is_sign_positive() {
            pmi / (-k * p.ln())
        } else {
            pmi / -p.ln()
        }
    } else {
        pmi
    };
    if parts.positive && val < 0.0 {
        0.0
    } else {
        val
    }
}

fn sorted_scores<M: mi::MutualInformation>(
    c: &TupleCollector,
    m: &M,
) -> Vec<(Vec<usize>, usize, f64)> {
    let mut rows: Vec<(Vec<usize>, usize, f64)> = c
        .iter(m)
        .into_iter()
        .map(|(t, f, parts)| (t, f, score(&parts)))
        .collect();
    rows.sort_by(|a, b| a.0.cmp(&b.0));
    rows
}

/// A corpus where (1,4) co-occurs far more rarely than its marginals
/// suggest, so its pointwise mutual information is negative.
fn skewed_corpus() -> TupleCollector {
    let mut c = TupleCollector::new(2);
    for t in [
        [1, 2],
        [1, 2],
        [1, 2],
        [1, 2],
        [3, 4],
        [3, 4],
        [3, 4],
        [3, 4],
        [1, 4],
        [3, 2],
    ] {
        c.count(&t.to_vec());
    }
    c
}

#[test]
fn test_laplace() {
    let smoothing = LaplaceSmoothing::new(1, 1);
    let tuple_p = ratio(&smoothing.joint_prob(2, 11, 4));
    let marginals = smoothing.independent_prob(&vec![3, 4], &vec![12, 11], &vec![3, 2]);
    let indep_p: f64 = marginals.iter().map(ratio).product();
    let res = (tuple_p / indep_p).ln();
    let cmp = 0.667829373;
    assert!((res - cmp).abs() < 1e-5);
}

#[test]
fn test_rawprob() {
    let smoothing = RawProb::new();
    let tuple_p = ratio(&smoothing.joint_prob(2, 11, 4));
    let marginals = smoothing.independent_prob(&vec![3, 4], &vec![12, 11], &vec![3, 2]);
    let indep_p: f64 = marginals.iter().map(ratio).product();
    let res = (tuple_p / indep_p).ln();
    let cmp = 0.693147181;
    assert!((res - cmp).abs() < 1e-5);
}

#[test]
fn laplace_fractions_are_exact() {
    let smoothing = LaplaceSmoothing::new(1, 1);
    assert_eq!(smoothing.joint_prob(2, 11, 4), Ratio { num: 3, den: 15 });
    assert_eq!(smoothing.marginal_prob(3, 12, 3), Ratio { num: 4, den: 15 });
    // a halved pseudo-count spreads over the common denominator
    let half = LaplaceSmoothing::new(1, 2);
    assert_eq!(half.joint_prob(2, 11, 4), Ratio { num: 5, den: 26 });
}

#[test]
fn rawprob_fractions_are_exact() {
    let smoothing = RawProb::new();
    assert_eq!(smoothing.joint_prob(2, 11, 4), Ratio { num: 2, den: 11 });
    assert_eq!(smoothing.marginal_prob(4, 11, 2), Ratio { num: 4, den: 11 });
    // an empty table yields the indeterminate fraction rather than a guard
    assert_eq!(smoothing.joint_prob(0, 0, 0), Ratio { num: 0, den: 0 });
}

#[test]
fn laplace_zero_matches_raw() {
    let zero = LaplaceSmoothing::new(0, 1);
    let raw = RawProb::new();
    for (jf, js, jd) in [(2, 11, 4), (1, 7, 3), (0, 5, 2), (5, 5, 1)] {
        let l = zero.joint_prob(jf, js, jd);
        let r = raw.joint_prob(jf, js, jd);
        // exactly the same probability as fractions...
        assert_eq!(l.num as u128 * r.den as u128, r.num as u128 * l.den as u128);
        // ...and numerically identical well within 1e-9
        assert!((ratio(&l) - ratio(&r)).abs() < 1e-9);
    }
    for (ef, es, ev) in [(3, 12, 3), (4, 11, 2), (0, 9, 4)] {
        let l = zero.marginal_prob(ef, es, ev);
        let r = raw.marginal_prob(ef, es, ev);
        assert_eq!(l.num as u128 * r.den as u128, r.num as u128 * l.den as u128);
        assert!((ratio(&l) - ratio(&r)).abs() < 1e-9);
    }
}

#[test]
fn pipeline_scores_one_tuple_exactly() {
    let mut c = TupleCollector::new(2);
    for t in [[1, 2], [1, 2], [1, 4], [3, 2], [1, 2], [1, 4], [5, 4]] {
        c.count(&t.to_vec());
    }
    let measure = SpecificCorrelation::new(false, LaplaceSmoothing::new(1, 1));
    let rows = c.iter(&measure);
    let row = rows.iter().find(|(t, _, _)| t == &vec![1, 2]).unwrap();
    assert_eq!(row.1, 3);
    // joint: (3+1)/(7+4) ; marginals: (5+1)/(7+3) and (4+1)/(7+2)
    assert_eq!(row.2.joint, Ratio { num: 4, den: 11 });
    assert_eq!(row.2.marginals, vec![Ratio { num: 6, den: 10 }, Ratio { num: 5, den: 9 }]);
    let expected = (12.0f64 / 11.0).ln();
    assert!((score(&row.2) - expected).abs() < 1e-9);
}

#[test]
fn positive_wrapper_truncates_at_zero() {
    let c = skewed_corpus();
    let sc = SpecificCorrelation::new(false, RawProb::new());
    let psc = PositiveMutualInformation::new(SpecificCorrelation::new(false, RawProb::new()));
    let plain = sorted_scores(&c, &sc);
    let positive = sorted_scores(&c, &psc);
    assert_eq!(plain.len(), positive.len());
    let mut saw_negative = false;
    for (p, q) in plain.iter().zip(positive.iter()) {
        assert_eq!(p.0, q.0);
        assert_eq!(p.1, q.1);
        let expected = if p.2 < 0.0 { 0.0 } else { p.2 };
        if p.2 < 0.0 {
            saw_negative = true;
        }
        assert_eq!(q.2, expected);
    }
    // the corpus really exercises the truncation
    assert!(saw_negative);
    let neg = plain.iter().find(|(t, _, _)| t == &vec![1, 4]).unwrap();
    assert!(neg.2 < 0.0);
    let trunc = positive.iter().find(|(t, _, _)| t == &vec![1, 4]).unwrap();
    assert_eq!(trunc.2, 0.0);
}

#[test]
fn normalized_scores_stay_within_unit_interval() {
    let c = skewed_corpus();
    for rows in [
        sorted_scores(&c, &SpecificCorrelation::new(true, RawProb::new())),
        sorted_scores(&c, &SpecificCorrelation::new(true, LaplaceSmoothing::new(1, 1))),
        sorted_scores(&c, &SpecificCorrelation::new(true, LaplaceSmoothing::new(3, 4))),
    ] {
        for (_, _, s) in rows {
            assert!(s >= -1.0 - 1e-12);
            assert!(s <= 1.0 + 1e-12);
        }
    }
}

#[test]
fn iterate_is_repeatable_and_covers_each_tuple_once() {
    let c = skewed_corpus();
    let measure = SpecificCorrelation::new(false, RawProb::new());
    let first = sorted_scores(&c, &measure);
    let second = sorted_scores(&c, &measure);
    assert_eq!(first.len(), 4);
    assert_eq!(first, second);
    for w in first.windows(2) {
        assert!(w[0].0 < w[1].0);
    }
}

#[test]
fn composed_wrappers_keep_the_inner_configuration() {
    let c = skewed_corpus();
    let pnsc = PositiveMutualInformation::new(SpecificCorrelation::new(
        true,
        LaplaceSmoothing::new(1, 1),
    ));
    for (_, _, parts) in c.iter(&pnsc) {
        assert!(parts.normalize);
        assert!(parts.positive);
        let s = score(&parts);
        assert!((0.0..=1.0 + 1e-12).contains(&s));
    }
}
