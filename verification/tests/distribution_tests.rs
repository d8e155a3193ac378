use usd_protocol::distribution::even_distributed;

#[test]
fn even_distributed_splits_evenly() {
    assert_eq!(even_distributed(10, 3), vec![0, 3, 3, 3]);
}

#[test]
fn even_distributed_exact_division() {
    let v = even_distributed(1_000_000, 1000);
    assert_eq!(v.len(), 1001);
    assert_eq!(v[0], 0);
    assert!(v[1..].iter().all(|&x| x == 1000));
    assert_eq!(v.iter().sum::<usize>(), 1_000_000);
}

#[test]
fn even_distributed_never_creates_agents() {
    for (ammount, opinions) in [(7usize, 2usize), (5, 10), (0, 4), (100, 7)] {
        let v = even_distributed(ammount, opinions);
        assert_eq!(v.len(), opinions + 1);
        assert!(v.iter().sum::<usize>() <= ammount);
        assert_eq!(v.iter().sum::<usize>(), opinions * (ammount / opinions));
    }
}

#[test]
fn even_distributed_fewer_agents_than_opinions() {
    assert_eq!(even_distributed(2, 5), vec![0, 0, 0, 0, 0, 0]);
}
