use protocol::metrics::{DataPoint, Metrics};

#[test]
fn can_increment_and_fetch_count() {
    let mut metrics = Metrics::new();
    metrics.increment(DataPoint::PacketsSent);
    assert_eq!(metrics.get_count(DataPoint::PacketsSent), 1);
}

#[test]
fn can_increment_many() {
    let mut metrics = Metrics::new();
    for _ in 0..10 {
        metrics.increment(DataPoint::PacketsReceived);
    }
    assert_eq!(metrics.get_count(DataPoint::PacketsReceived), 10)
}

#[test]
fn counters_are_kept_apart() {
    let mut metrics = Metrics::new();
    let kinds = [
        DataPoint::PacketsSent,
        DataPoint::PacketsReceived,
        DataPoint::PacketsAcked,
        DataPoint::PacketsStale,
        DataPoint::PacketsInvalid,
        DataPoint::PacketsTooLargeToSend,
        DataPoint::PacketsTooLargeToReceive,
        DataPoint::FragmentsSent,
        DataPoint::FragmentsReceived,
        DataPoint::FragmentsInvalid,
    ];
    for (i, kind) in kinds.iter().enumerate() {
        assert_eq!(kind.index(), i);
        for _ in 0..i {
            metrics.increment(*kind);
        }
    }
    for (i, kind) in kinds.iter().enumerate() {
        assert_eq!(metrics.get_count(*kind), i as u64);
    }
}

#[test]
fn counters_add_up_and_stop_at_the_top() {
    let mut metrics = Metrics::new();
    metrics.add(DataPoint::PacketsStale, 5);
    metrics.add(DataPoint::PacketsStale, 0);
    metrics.add(DataPoint::PacketsStale, 7);
    assert_eq!(metrics.get_count(DataPoint::PacketsStale), 12);
    metrics.add(DataPoint::PacketsStale, u64::MAX - 3);
    assert_eq!(metrics.get_count(DataPoint::PacketsStale), u64::MAX);
    metrics.increment(DataPoint::PacketsStale);
    assert_eq!(metrics.get_count(DataPoint::PacketsStale), u64::MAX);
    assert_eq!(metrics.get_count(DataPoint::PacketsInvalid), 0);
}
