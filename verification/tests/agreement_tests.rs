use usd_protocol::usd;
use usd_protocol::usd_fast::{Opinion, Population};

fn histogram(p: &usd::Population) -> Vec<usize> {
    p.opinions().values().copied().collect()
}

#[test]
fn agent_and_histogram_simulations_agree() {
    // agents: [1, 1, 2]; histogram [0, 2, 1]
    let meetings = [(0usize, 2usize), (0, 1), (2, 2), (2, 0), (1, 2)];
    let mut agents = usd::Population::setup(vec![2, 1], 100);
    let mut fast = Population::setup(vec![0, 2, 1]);
    for (i, r) in meetings {
        let oi = agents.get_opinion(i);
        let or = agents.get_opinion(r);
        let ni = fast.support(oi);
        let nr = fast.support(or);
        agents.transition(i, r);
        fast.basic_usd(Opinion { id: oi, number: ni }, Opinion { id: or, number: nr });
        assert_eq!(histogram(&agents), fast.to_array()[1..].to_vec());
    }
}

#[test]
fn unanimity_is_stable_in_both_simulations() {
    let mut agents = usd::Population::setup(vec![0, 4], 100);
    for (i, r) in [(0usize, 1usize), (2, 3), (3, 0)] {
        agents.transition(i, r);
    }
    assert_eq!(histogram(&agents), vec![0, 0, 4]);
    let mut fast = Population::setup(vec![0, 0, 4]);
    fast.basic_usd(Opinion { id: 2, number: 4 }, Opinion { id: 2, number: 4 });
    assert_eq!(fast.to_array(), vec![0, 0, 0, 4]);
    for _ in 0..20 {
        fast.step();
    }
    assert_eq!(fast.to_array(), vec![20, 0, 0, 4]);
}
