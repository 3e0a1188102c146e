use mi::TupleCollector;

fn tuple(parts: &[usize]) -> Vec<usize> {
    parts.to_vec()
}

/// A small fixed corpus of pairs: (1,2) three times, (1,4) twice,
/// (3,2) once, (5,4) once.
fn small_corpus() -> TupleCollector {
    let mut c = TupleCollector::new(2);
    for t in [
        [1, 2],
        [1, 2],
        [1, 4],
        [3, 2],
        [1, 2],
        [1, 4],
        [5, 4],
    ] {
        c.count(&tuple(&t));
    }
    c
}

#[test]
fn marginal_consistency() {
    let c = small_corpus();
    // position 0: 1 occurs 5 times, 3 once, 5 once
    assert_eq!(c.event_freq(0, 1), 5);
    assert_eq!(c.event_freq(0, 3), 1);
    assert_eq!(c.event_freq(0, 5), 1);
    assert_eq!(c.event_freq(0, 2), 0);
    // position 1: 2 occurs 4 times, 4 three times
    assert_eq!(c.event_freq(1, 2), 4);
    assert_eq!(c.event_freq(1, 4), 3);
    assert_eq!(c.event_freq(1, 1), 0);
    // each positional total is the number of observations
    assert_eq!(c.event_sum(0), 7);
    assert_eq!(c.event_sum(1), 7);
    assert_eq!(c.event_distinct(0), 3);
    assert_eq!(c.event_distinct(1), 2);
}

#[test]
fn joint_consistency() {
    let c = small_corpus();
    assert_eq!(c.joint_sum(), 7);
    assert_eq!(c.joint_distinct(), 4);
    assert_eq!(c.joint_freq(&tuple(&[1, 2])), 3);
    assert_eq!(c.joint_freq(&tuple(&[1, 4])), 2);
    assert_eq!(c.joint_freq(&tuple(&[3, 2])), 1);
    assert_eq!(c.joint_freq(&tuple(&[5, 4])), 1);
    assert_eq!(c.joint_freq(&tuple(&[5, 2])), 0);
}

#[test]
fn prune_removes_only_rare_joint_entries() {
    let mut c = small_corpus();
    c.prune(2);
    // entries below the cutoff are gone
    assert_eq!(c.joint_freq(&tuple(&[3, 2])), 0);
    assert_eq!(c.joint_freq(&tuple(&[5, 4])), 0);
    assert_eq!(c.joint_distinct(), 2);
    // surviving entries keep their counts
    assert_eq!(c.joint_freq(&tuple(&[1, 2])), 3);
    assert_eq!(c.joint_freq(&tuple(&[1, 4])), 2);
    // marginal tables and totals reflect the whole corpus, unchanged
    assert_eq!(c.joint_sum(), 7);
    assert_eq!(c.event_sum(0), 7);
    assert_eq!(c.event_sum(1), 7);
    assert_eq!(c.event_freq(0, 3), 1);
    assert_eq!(c.event_freq(1, 4), 3);
    assert_eq!(c.event_distinct(0), 3);
}

#[test]
fn prune_with_zero_cutoff_keeps_everything() {
    let mut c = small_corpus();
    c.prune(0);
    assert_eq!(c.joint_distinct(), 4);
    assert_eq!(c.joint_sum(), 7);
}

#[test]
fn empty_collector_counts_nothing() {
    let c = TupleCollector::new(3);
    assert_eq!(c.arity(), 3);
    assert_eq!(c.joint_sum(), 0);
    assert_eq!(c.joint_distinct(), 0);
    assert_eq!(c.joint_freq(&tuple(&[1, 2, 3])), 0);
    assert_eq!(c.event_freq(2, 9), 0);
    assert_eq!(c.event_sum(1), 0);
}

#[test]
fn triple_collector_counts_per_position() {
    let mut c = TupleCollector::new(3);
    c.count(&tuple(&[7, 8, 9]));
    c.count(&tuple(&[7, 8, 7]));
    assert_eq!(c.event_freq(0, 7), 2);
    assert_eq!(c.event_freq(1, 8), 2);
    assert_eq!(c.event_freq(2, 9), 1);
    assert_eq!(c.event_freq(2, 7), 1);
    assert_eq!(c.joint_freq(&tuple(&[7, 8, 9])), 1);
    assert_eq!(c.joint_sum(), 2);
}
