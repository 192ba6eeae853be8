use command_server::metrics::Metrics;
use command_server::types::CommandKind;

#[test]
fn test_metrics_start_empty() {
    let m = Metrics::new();
    for kind in [
        CommandKind::Ping,
        CommandKind::Echo,
        CommandKind::Time,
        CommandKind::Calculate,
        CommandKind::Batch,
    ] {
        let s = m.stats(kind);
        assert_eq!(s.count, 0);
        assert_eq!(s.total_us, 0);
        assert_eq!(m.average_us(kind), None);
    }
}

#[test]
fn test_metrics_update_tracks_min_max_total() {
    let mut m = Metrics::default();
    m.update(CommandKind::Ping, 5);
    m.update(CommandKind::Ping, 1);
    m.update(CommandKind::Ping, 9);

    let s = m.stats(CommandKind::Ping);
    assert_eq!(s.count, 3);
    assert_eq!(s.min_us, 1);
    assert_eq!(s.max_us, 9);
    assert_eq!(s.total_us, 15);
    assert_eq!(m.average_us(CommandKind::Ping), Some(5));

    // other kinds untouched
    assert_eq!(m.stats(CommandKind::Echo).count, 0);
}

#[test]
fn test_metrics_average_lies_between_min_and_max() {
    let mut m = Metrics::default();
    let durations: [u64; 6] = [17, 3, 3, 250, 11, 40];
    for d in durations {
        m.update(CommandKind::Calculate, d);
    }
    let s = m.stats(CommandKind::Calculate);
    let avg = m.average_us(CommandKind::Calculate).expect("six updates recorded");
    assert_eq!(s.count, 6);
    assert_eq!(s.min_us, 3);
    assert_eq!(s.max_us, 250);
    assert!(s.min_us <= avg && avg <= s.max_us);
    assert_eq!(avg, (17 + 3 + 3 + 250 + 11 + 40) / 6);
}
