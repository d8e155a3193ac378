use std::collections::BTreeMap;
use usd_protocol::usd::{run, Population};

fn counts(p: &Population) -> Vec<(usize, usize)> {
    p.opinions().iter().map(|(k, v)| (*k, *v)).collect()
}

#[test]
fn setup_builds_agents_and_histogram() {
    let p = Population::setup(vec![2, 3], 7);
    assert_eq!(p.agent_count(), 5);
    assert_eq!(p.steps(), 0);
    assert!(!p.finished());
    let mut want = BTreeMap::new();
    want.insert(0, 0);
    want.insert(1, 2);
    want.insert(2, 3);
    assert_eq!(p.opinions(), &want);
    let ops: Vec<usize> = (0..5).map(|i| p.get_opinion(i)).collect();
    assert_eq!(ops, vec![1, 1, 2, 2, 2]);
}

#[test]
fn setup_with_leading_zero_keeps_opinion_one_empty() {
    let p = Population::setup(vec![0, 4, 4], 10);
    assert_eq!(counts(&p), vec![(0, 0), (1, 0), (2, 4), (3, 4)]);
    assert_eq!(p.agent_count(), 8);
}

#[test]
fn transition_decided_meets_other_becomes_undecided() {
    let mut p = Population::setup(vec![2, 1], 10);
    p.transition(0, 2);
    assert_eq!(p.get_opinion(0), 0);
    assert_eq!(p.get_opinion(2), 2);
    assert_eq!(counts(&p), vec![(0, 1), (1, 1), (2, 1)]);
}

#[test]
fn transition_undecided_adopts_responder() {
    let mut p = Population::setup(vec![2, 1], 10);
    p.transition(0, 2);
    p.transition(0, 1);
    assert_eq!(p.get_opinion(0), 1);
    assert_eq!(counts(&p), vec![(0, 0), (1, 2), (2, 1)]);
}

#[test]
fn transition_same_opinion_or_undecided_responder_changes_nothing() {
    let mut p = Population::setup(vec![2, 1], 10);
    p.transition(0, 1);
    assert_eq!(counts(&p), vec![(0, 0), (1, 2), (2, 1)]);
    p.transition(0, 2);
    assert_eq!(counts(&p), vec![(0, 1), (1, 1), (2, 1)]);
    // agent 2 (opinion 2) meeting the undecided agent 0 keeps its opinion
    p.transition(2, 0);
    assert_eq!(p.get_opinion(2), 2);
    // two undecided agents stay undecided
    p.transition(0, 0);
    assert_eq!(p.get_opinion(0), 0);
    assert_eq!(counts(&p), vec![(0, 1), (1, 1), (2, 1)]);
}

#[test]
fn step_counts_and_conserves_agents() {
    let mut p = Population::setup(vec![1, 1], 100);
    p.step();
    assert_eq!(p.steps(), 1);
    // two agents of different opinions: the initiator becomes undecided
    assert_eq!(p.opinions().get(&0), Some(&1));
    assert_eq!(p.opinions().values().sum::<usize>(), 2);
}

#[test]
fn unanimous_population_finishes_after_one_step() {
    let mut p = Population::setup(vec![10], 1000);
    p.run();
    assert!(p.finished());
    assert_eq!(p.steps(), 1);
    assert_eq!(counts(&p), vec![(0, 0), (1, 10)]);
}

#[test]
fn run_with_zero_budget_takes_one_step() {
    assert_eq!(run(vec![0, 5, 5], 0), 1);
}

#[test]
fn run_stays_within_budget() {
    for max in [1usize, 5, 50] {
        let steps = run(vec![0, 5, 5, 5], max);
        assert!(steps >= 1 && steps <= max);
    }
}

#[test]
fn run_ends_in_consensus_or_budget() {
    let mut p = Population::setup(vec![3, 3], 1_000_000);
    p.run();
    assert!(p.finished());
    let consensus = p.opinions().values().any(|&c| c >= p.agent_count());
    assert!(consensus || p.steps() >= 1_000_000);
    assert_eq!(p.opinions().values().sum::<usize>(), 6);
}

#[test]
fn run_stops_at_first_consensus() {
    // a single decided opinion: the first step sees consensus
    assert_eq!(run(vec![0, 5], 100), 1);
}

#[test]
fn run_never_revives_absent_opinions() {
    let mut p = Population::setup(vec![3, 0, 3], 1_000_000);
    p.run();
    assert_eq!(p.opinions().get(&2), Some(&0));
    assert!(p.opinions().iter().any(|(k, v)| *k != 0 && *v > 0));
}
