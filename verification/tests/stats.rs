use rust_ping::stats::Stats;

#[test]
fn fresh_stats_are_empty() {
    let stats = Stats::default();
    assert_eq!(stats.sent, 0);
    assert_eq!(stats.received, 0);
    assert_eq!(stats.min_rtt(), None);
    assert_eq!(stats.max_rtt(), None);
    assert_eq!(stats.total_rtt(), 0);
}

#[test]
fn replies_update_min_max_and_total() {
    let mut stats = Stats::default();
    stats.sent += 3;
    stats.record_reply(5_000_000);
    assert_eq!(stats.min_rtt(), Some(5_000_000));
    assert_eq!(stats.max_rtt(), Some(5_000_000));
    stats.record_reply(3_000_000);
    stats.record_reply(9_000_000);
    assert_eq!(stats.received, 3);
    assert_eq!(stats.sent, 3);
    assert_eq!(stats.min_rtt(), Some(3_000_000));
    assert_eq!(stats.max_rtt(), Some(9_000_000));
    assert_eq!(stats.total_rtt(), 17_000_000);
}

#[test]
fn minimum_stays_below_maximum() {
    let mut stats = Stats::default();
    for rtt in [7u128, 2, 11, 2, 5] {
        stats.record_reply(rtt);
        let (min, max) = (stats.min_rtt().unwrap(), stats.max_rtt().unwrap());
        assert!(min <= max && max <= stats.total_rtt());
    }
    assert_eq!(stats.min_rtt(), Some(2));
    assert_eq!(stats.max_rtt(), Some(11));
}

#[test]
fn average_lies_between_minimum_and_maximum() {
    let rtts = [30u128, 10, 25, 40, 12];
    let mut stats = Stats::default();
    for rtt in rtts {
        stats.record_reply(rtt);
    }
    let k = rtts.len() as u128;
    assert_eq!(stats.received, 5);
    assert_eq!(stats.sent, 0);
    assert_eq!(stats.total_rtt(), rtts.iter().sum::<u128>());
    let (min, max) = (stats.min_rtt().unwrap(), stats.max_rtt().unwrap());
    assert_eq!(min, 10);
    assert_eq!(max, 40);
    assert!(min <= stats.total_rtt() / k && stats.total_rtt() / k <= max);
}
