use usd_protocol::search::{search_start, search_step, tally_run, unbiased_run_failed, BiasSearch, Tally};

#[test]
fn search_starts_at_zero() {
    assert_eq!(search_start(), BiasSearch { bias: 0, count: 0, first: 0, found: false });
}

#[test]
fn search_raises_bias_while_opinion_one_wins() {
    let s = search_start();
    let (s, stop) = search_step(s, 1, 3);
    assert!(!stop);
    assert_eq!(s, BiasSearch { bias: 1, count: 0, first: 0, found: false });
}

#[test]
fn search_remembers_first_loss_and_stops_after_enough() {
    let s = BiasSearch { bias: 7, count: 0, first: 0, found: false };
    let (s, stop) = search_step(s, 2, 2);
    assert!(!stop);
    assert_eq!(s, BiasSearch { bias: 7, count: 1, first: 7, found: true });
    let (s, stop) = search_step(s, 1, 2);
    assert!(!stop);
    assert_eq!(s, BiasSearch { bias: 8, count: 0, first: 7, found: true });
    let (s, stop) = search_step(s, 0, 2);
    assert!(!stop);
    let (s, stop) = search_step(s, 3, 2);
    assert!(stop);
    assert_eq!(s, BiasSearch { bias: 8, count: 2, first: 7, found: true });
}

#[test]
fn search_stops_above_full_bias() {
    let s = BiasSearch { bias: 100, count: 0, first: 0, found: false };
    let (s, stop) = search_step(s, 1, 5);
    assert!(stop);
    assert_eq!(s.bias, 101);
}

#[test]
fn unbiased_runs_fail_on_loss_or_long_run() {
    assert!(unbiased_run_failed(10, 2));
    assert!(unbiased_run_failed(500_000_000, 1));
    assert!(!unbiased_run_failed(499_999_999, 1));
}

#[test]
fn tally_counts_undecided_and_opinion_one() {
    let t = Tally { undecided: 0, opinion1: 0 };
    let t = tally_run(t, 10, 0, 100);
    let t = tally_run(t, 10, 1, 100);
    let t = tally_run(t, 100, 1, 100);
    let t = tally_run(t, 10, 2, 100);
    assert_eq!(t, Tally { undecided: 2, opinion1: 1 });
}
