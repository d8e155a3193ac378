use usd_protocol::usd_fast::{run, Opinion, Population};

#[test]
fn setup_holds_the_distribution() {
    let p = Population::setup(vec![0, 5, 5]);
    assert_eq!(p.to_array(), vec![0, 0, 5, 5]);
    assert_eq!(p.agents(), 10);
    assert_eq!(p.opinions(), 3);
    assert!(!p.finished());
    assert_eq!(p.support(2), 5);
}

#[test]
fn decided_meets_other_becomes_undecided() {
    let mut p = Population::setup(vec![0, 5, 5]);
    p.basic_usd(Opinion { id: 1, number: 5 }, Opinion { id: 2, number: 5 });
    assert_eq!(p.to_array(), vec![0, 1, 4, 5]);
    assert!(!p.finished());
}

#[test]
fn undecided_adopts_responder() {
    let mut p = Population::setup(vec![1, 4, 5]);
    p.basic_usd(Opinion { id: 0, number: 1 }, Opinion { id: 2, number: 5 });
    assert_eq!(p.to_array(), vec![0, 0, 4, 6]);
}

#[test]
fn no_change_on_agreement_or_undecided_responder() {
    let mut p = Population::setup(vec![1, 4, 5]);
    p.basic_usd(Opinion { id: 2, number: 5 }, Opinion { id: 2, number: 5 });
    p.basic_usd(Opinion { id: 1, number: 4 }, Opinion { id: 0, number: 1 });
    p.basic_usd(Opinion { id: 0, number: 1 }, Opinion { id: 0, number: 1 });
    assert_eq!(p.to_array(), vec![0, 1, 4, 5]);
}

#[test]
fn consensus_finishes_the_run() {
    let mut p = Population::setup(vec![1, 9]);
    p.basic_usd(Opinion { id: 0, number: 1 }, Opinion { id: 1, number: 9 });
    assert_eq!(p.to_array(), vec![0, 0, 10]);
    assert!(p.finished());
}

#[test]
fn spent_budget_finishes_at_next_change() {
    let mut p = Population::setup(vec![0, 5, 5]);
    p.set_max(0);
    p.basic_usd(Opinion { id: 1, number: 5 }, Opinion { id: 1, number: 5 });
    assert!(!p.finished());
    p.basic_usd(Opinion { id: 1, number: 5 }, Opinion { id: 2, number: 5 });
    assert!(p.finished());
}

#[test]
fn winner_of_unanimous_population() {
    let p = Population::setup(vec![0, 0, 7]);
    for _ in 0..20 {
        assert_eq!(p.get_winner(), 2);
    }
}

#[test]
fn step_conserves_agents() {
    let mut p = Population::setup(vec![2, 3, 4]);
    for _ in 0..50 {
        p.step();
        let record = p.to_array();
        assert_eq!(record[1..].iter().sum::<usize>(), 9);
    }
    assert_eq!(p.steps(), 50);
}

#[test]
fn run_returns_steps_and_a_held_opinion() {
    let (steps, winner) = run(vec![0, 6, 4], 1_000_000);
    assert!(steps >= 1);
    assert!(winner < 3);
}

#[test]
fn run_from_undecided_majority() {
    let (steps, winner) = run(vec![8, 1, 1], 1_000_000);
    assert!(steps >= 1);
    assert!(winner == 1 || winner == 2 || winner == 0);
}

#[test]
fn run_from_one_undecided_and_one_decided() {
    let (steps, winner) = run(vec![1, 1], 1000);
    assert!(steps >= 1);
    assert_eq!(winner, 1);
}
