use usd_protocol::algorithm_fast::{bias_rule, coin_opinion, csv_header, record_due, setup, BiasRule, BIASED_MAX};
use usd_protocol::usd_fast::{Opinion, Population};

#[test]
fn bias_rule_classifies_meetings() {
    assert_eq!(bias_rule(1, 2), Some(BiasRule::DecidedMeetsOther));
    assert_eq!(bias_rule(0, 2), Some(BiasRule::UndecidedMeetsDecided));
    assert_eq!(bias_rule(3, 3), Some(BiasRule::DecidedMeetsSame));
    assert_eq!(bias_rule(3, 0), Some(BiasRule::DecidedMeetsUndecided));
    assert_eq!(bias_rule(0, 0), None);
}

#[test]
fn biased_setup_uses_biased_budget() {
    let p = setup(vec![0, 5, 5]);
    assert_eq!(p.to_array(), vec![0, 0, 5, 5]);
    assert_eq!(BIASED_MAX, 50_000_000);
}

#[test]
fn conflict_with_first_coin_adopts() {
    let mut p = setup(vec![0, 5, 5]);
    p.bias_usd(Opinion { id: 1, number: 5 }, Opinion { id: 2, number: 5 }, true, false);
    assert_eq!(p.to_array(), vec![0, 0, 4, 6]);
}

#[test]
fn conflict_with_second_coin_keeps() {
    let mut p = setup(vec![0, 5, 5]);
    p.bias_usd(Opinion { id: 1, number: 5 }, Opinion { id: 2, number: 5 }, false, true);
    assert_eq!(p.to_array(), vec![0, 0, 5, 5]);
}

#[test]
fn conflict_without_coins_becomes_undecided() {
    let mut p = setup(vec![0, 5, 5]);
    p.bias_usd(Opinion { id: 1, number: 5 }, Opinion { id: 2, number: 5 }, false, false);
    assert_eq!(p.to_array(), vec![0, 1, 4, 5]);
}

#[test]
fn undecided_resists_with_coin() {
    let mut p = setup(vec![2, 3, 5]);
    p.bias_usd(Opinion { id: 0, number: 2 }, Opinion { id: 1, number: 3 }, true, false);
    assert_eq!(p.to_array(), vec![0, 2, 3, 5]);
    p.bias_usd(Opinion { id: 0, number: 2 }, Opinion { id: 1, number: 3 }, false, false);
    assert_eq!(p.to_array(), vec![0, 1, 4, 5]);
}

#[test]
fn same_opinion_doubts_with_coin() {
    let mut p = setup(vec![0, 5, 5]);
    p.bias_usd(Opinion { id: 2, number: 5 }, Opinion { id: 2, number: 5 }, false, false);
    assert_eq!(p.to_array(), vec![0, 0, 5, 5]);
    p.bias_usd(Opinion { id: 2, number: 5 }, Opinion { id: 2, number: 5 }, true, false);
    assert_eq!(p.to_array(), vec![0, 1, 5, 4]);
}

#[test]
fn decided_meets_undecided_with_coin() {
    let mut p = setup(vec![1, 5, 4]);
    p.bias_usd(Opinion { id: 1, number: 5 }, Opinion { id: 0, number: 1 }, true, false);
    assert_eq!(p.to_array(), vec![0, 2, 4, 4]);
}

#[test]
fn zero_biases_act_like_plain_usd() {
    let meetings = [(1usize, 2usize), (0, 2), (2, 2), (2, 0), (0, 0)];
    for (i, r) in meetings {
        let dist = vec![2, 4, 4];
        let mut biased = setup(dist.clone());
        let mut plain = Population::setup(dist.clone());
        let oi = Opinion { id: i, number: dist[i] };
        let or = Opinion { id: r, number: dist[r] };
        biased.bias_usd(Opinion { id: i, number: dist[i] }, Opinion { id: r, number: dist[r] }, false, false);
        plain.basic_usd(oi, or);
        assert_eq!(biased.to_array(), plain.to_array());
    }
}

#[test]
fn draw_pair_counts_a_step() {
    let mut p = setup(vec![0, 0, 6]);
    let (a, b) = p.draw_pair();
    assert_eq!(p.steps(), 1);
    assert_eq!((a.id, a.number), (2, 6));
    assert_eq!((b.id, b.number), (2, 6));
}

#[test]
fn csv_header_names_every_column() {
    let h = csv_header(4);
    assert_eq!(
        h,
        vec![
            "usd/Steps".to_string(),
            "usd/opinions/Undecided".to_string(),
            "usd/opinions/Opinion 1".to_string(),
            "usd/opinions/Opinion 2".to_string(),
            "usd/opinions/Opinion 3".to_string(),
        ]
    );
    assert_eq!(h.len(), setup(vec![0, 1, 1, 1]).to_array().len());
}

#[test]
fn csv_header_multi_digit_labels() {
    let h = csv_header(13);
    assert_eq!(h.len(), 14);
    assert_eq!(h[13], "usd/opinions/Opinion 12");
    assert_eq!(csv_header(0).len(), 2);
    assert_eq!(csv_header(1).len(), 2);
}

#[test]
fn record_due_every_tenth_of_the_agents() {
    assert!(record_due(0, 100));
    assert!(record_due(30, 100));
    assert!(!record_due(31, 100));
    assert!(record_due(7, 15));
    assert!(!record_due(3, 25));
}

#[test]
fn coins_read_the_initiators_biases() {
    let i = Opinion { id: 3, number: 2 };
    let r = Opinion { id: 1, number: 4 };
    assert_eq!(coin_opinion(&i, &r), 3);
}
