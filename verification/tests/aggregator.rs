use pingwatch::data_processor::{Aggregator, DataProcessor, Received, POLL_INTERVAL_MILLIS};
use pingwatch::ping_event::{make_target_key, PingEvent};
use pingwatch::target_stats::{TargetStats, TIMEOUT_SAMPLE};
use std::collections::VecDeque;

fn success(addr: &str, ip: &str, rtt: i64) -> PingEvent {
    PingEvent::Success { addr: addr.to_string(), ip: ip.to_string(), rtt }
}

fn timeout(addr: &str, ip: &str) -> PingEvent {
    PingEvent::Timeout { addr: addr.to_string(), ip: ip.to_string() }
}

fn window(stats: &TargetStats) -> Vec<i64> {
    stats.rtt_window.iter().copied().collect()
}

fn one_target(view_type: &str) -> DataProcessor {
    DataProcessor::new(&[("host".to_string(), "10.0.0.1".to_string())], view_type)
}

#[test]
fn timeout_sample_is_minus_one() {
    assert_eq!(TIMEOUT_SAMPLE, -1);
}

#[test]
fn target_key_joins_name_and_address_with_underscore() {
    assert_eq!(make_target_key("example.org", "93.184.216.34"), "example.org_93.184.216.34");
    assert_eq!(make_target_key("", ""), "_");
}

#[test]
fn fresh_stats_are_empty() {
    let stats = TargetStats::new("host".to_string(), "10.0.0.1".to_string());
    assert_eq!(stats.addr, "host");
    assert_eq!(stats.ip, "10.0.0.1");
    assert_eq!(stats.rtt_window, VecDeque::new());
    assert_eq!(stats.last_sample, 0);
    assert_eq!(stats.min_rtt, 0);
    assert_eq!(stats.max_rtt, 0);
    assert_eq!(stats.received, 0);
    assert_eq!(stats.timeout_count, 0);
    assert_eq!(stats.evicted_count, 0);
}

#[test]
fn capacity_three_keeps_the_latest_three_samples() {
    let mut stats = TargetStats::new("host".to_string(), "10.0.0.1".to_string());
    DataProcessor::update_success_stats(&mut stats, 10, 3);
    DataProcessor::update_success_stats(&mut stats, 20, 3);
    DataProcessor::update_timeout_stats(&mut stats, 3);
    DataProcessor::update_success_stats(&mut stats, 5, 3);
    assert_eq!(window(&stats), vec![20, -1, 5]);
    assert_eq!(stats.evicted_count, 1);
    assert_eq!(stats.min_rtt, 5);
    assert_eq!(stats.max_rtt, 20);
    assert_eq!(stats.received, 3);
    assert_eq!(stats.timeout_count, 1);
    assert_eq!(stats.last_sample, 5);
}

#[test]
fn minimum_after_three_of_four_events_is_the_first_success() {
    let mut stats = TargetStats::new("host".to_string(), "10.0.0.1".to_string());
    DataProcessor::update_success_stats(&mut stats, 10, 3);
    DataProcessor::update_success_stats(&mut stats, 20, 3);
    DataProcessor::update_timeout_stats(&mut stats, 3);
    assert_eq!(window(&stats), vec![10, 20, -1]);
    assert_eq!(stats.min_rtt, 10);
    assert_eq!(stats.max_rtt, 20);
    assert_eq!(stats.evicted_count, 0);
    assert_eq!(stats.last_sample, -1);
}

#[test]
fn window_length_is_min_of_events_and_capacity() {
    for capacity in [0usize, 1, 3, 10] {
        let mut stats = TargetStats::new("host".to_string(), "10.0.0.1".to_string());
        for n in 1..=25usize {
            if n % 3 == 0 {
                DataProcessor::update_timeout_stats(&mut stats, capacity);
            } else {
                DataProcessor::update_success_stats(&mut stats, n as i64, capacity);
            }
            assert_eq!(stats.rtt_window.len(), n.min(capacity));
            assert_eq!(stats.evicted_count, n.saturating_sub(capacity));
            assert_eq!(stats.received + stats.timeout_count, n);
        }
    }
}

#[test]
fn timeout_leaves_extrema_alone() {
    let mut stats = TargetStats::new("host".to_string(), "10.0.0.1".to_string());
    DataProcessor::update_timeout_stats(&mut stats, 10);
    assert_eq!(stats.min_rtt, 0);
    assert_eq!(stats.max_rtt, 0);
    assert_eq!(stats.received, 0);
    DataProcessor::update_success_stats(&mut stats, 700, 10);
    DataProcessor::update_timeout_stats(&mut stats, 10);
    assert_eq!(stats.min_rtt, 700);
    assert_eq!(stats.max_rtt, 700);
    assert_eq!(stats.timeout_count, 2);
}

#[test]
fn zero_minimum_counts_as_unset() {
    let mut stats = TargetStats::new("host".to_string(), "10.0.0.1".to_string());
    DataProcessor::update_success_stats(&mut stats, 0, 10);
    assert_eq!(stats.min_rtt, 0);
    DataProcessor::update_success_stats(&mut stats, 30, 10);
    assert_eq!(stats.min_rtt, 30);
    DataProcessor::update_success_stats(&mut stats, 40, 10);
    assert_eq!(stats.min_rtt, 30);
    assert_eq!(stats.max_rtt, 40);
}

#[test]
fn counters_never_decrease_on_eviction() {
    let mut stats = TargetStats::new("host".to_string(), "10.0.0.1".to_string());
    let mut received = 0;
    let mut timeouts = 0;
    for n in 0..40i64 {
        if n % 4 == 1 {
            DataProcessor::update_timeout_stats(&mut stats, 2);
        } else {
            DataProcessor::update_success_stats(&mut stats, n, 2);
        }
        assert!(stats.received >= received);
        assert!(stats.timeout_count >= timeouts);
        received = stats.received;
        timeouts = stats.timeout_count;
    }
    assert_eq!(received, 30);
    assert_eq!(timeouts, 10);
    assert_eq!(stats.evicted_count, 38);
}

#[test]
fn view_mode_sets_the_capacity() {
    assert_eq!(one_target("point").point_num(), 200);
    assert_eq!(one_target("sparkline").point_num(), 200);
    assert_eq!(one_target("table").point_num(), 10);
    assert_eq!(one_target("graph").point_num(), 10);
    assert_eq!(one_target("").point_num(), 10);
    assert_eq!(one_target("Point").point_num(), 10);
}

#[test]
fn new_processor_knows_exactly_its_targets() {
    let processor = DataProcessor::new(
        &[
            ("a".to_string(), "1.1.1.1".to_string()),
            ("b".to_string(), "2.2.2.2".to_string()),
        ],
        "table",
    );
    let a = processor.stats_of("a", "1.1.1.1").unwrap();
    assert_eq!(a.addr, "a");
    assert_eq!(a.ip, "1.1.1.1");
    assert_eq!(a.received, 0);
    assert!(a.rtt_window.is_empty());
    assert!(processor.stats_of("b", "2.2.2.2").is_some());
    assert!(processor.stats_of("a", "2.2.2.2").is_none());
    assert!(processor.stats_of("c", "3.3.3.3").is_none());
}

#[test]
fn later_target_with_the_same_key_names_the_entry() {
    let processor = DataProcessor::new(
        &[("a_b".to_string(), "c".to_string()), ("a".to_string(), "b_c".to_string())],
        "table",
    );
    let found = processor.stats_of("a_b", "c").unwrap();
    assert_eq!(found.addr, "a");
    assert_eq!(found.ip, "b_c");
}

#[test]
fn processor_with_capacity_three_keeps_the_latest_three_samples() {
    let targets = [("host".to_string(), "10.0.0.1".to_string())];
    let mut processor = DataProcessor::with_capacity(&targets, 3);
    assert_eq!(processor.point_num(), 3);
    processor.process_event(success("host", "10.0.0.1", 10));
    processor.process_event(success("host", "10.0.0.1", 20));
    processor.process_event(timeout("host", "10.0.0.1"));
    let snapshot = processor.process_event(success("host", "10.0.0.1", 5)).unwrap();
    assert_eq!(window(&snapshot), vec![20, -1, 5]);
    assert_eq!(snapshot.evicted_count, 1);
    assert_eq!(snapshot.min_rtt, 5);
    assert_eq!(snapshot.max_rtt, 20);
    assert_eq!(snapshot.received, 3);
    assert_eq!(snapshot.timeout_count, 1);
}

#[test]
fn aggregator_with_capacity_keeps_that_many_samples() {
    let targets = [("host".to_string(), "10.0.0.1".to_string())];
    let mut aggregator = Aggregator::with_capacity(&targets, 2);
    aggregator.handle(Received::Event(success("host", "10.0.0.1", 1)));
    aggregator.handle(Received::Event(success("host", "10.0.0.1", 2)));
    let snapshot = aggregator.handle(Received::Event(success("host", "10.0.0.1", 3))).unwrap();
    assert_eq!(window(&snapshot), vec![2, 3]);
    assert_eq!(snapshot.evicted_count, 1);
}

#[test]
fn eviction_counter_may_be_full_while_nothing_is_evicted() {
    let mut stats = TargetStats::new("host".to_string(), "10.0.0.1".to_string());
    stats.evicted_count = usize::MAX;
    DataProcessor::update_success_stats(&mut stats, 10, 3);
    DataProcessor::update_timeout_stats(&mut stats, 3);
    assert_eq!(window(&stats), vec![10, -1]);
    assert_eq!(stats.evicted_count, usize::MAX);
}

#[test]
fn empty_processor_with_capacity_200_has_nothing_to_show() {
    let processor = one_target("point");
    let stats = processor.stats_of("host", "10.0.0.1").unwrap();
    assert!(stats.rtt_window.is_empty());
    assert_eq!(stats.min_rtt, 0);
    assert_eq!(stats.max_rtt, 0);
    assert_eq!(pingwatch::statistics::average_rtt(&stats.rtt_window), 0);
    assert_eq!(pingwatch::statistics::loss_percentage(stats.timeout_count, stats.received), 0);
}

#[test]
fn process_event_returns_the_updated_snapshot() {
    let mut processor = one_target("table");
    let event = success("host", "10.0.0.1", 1234);
    assert!(processor.can_process(&event));
    let snapshot = processor.process_event(event).unwrap();
    assert_eq!(snapshot.addr, "host");
    assert_eq!(snapshot.ip, "10.0.0.1");
    assert_eq!(window(&snapshot), vec![1234]);
    assert_eq!(snapshot.last_sample, 1234);
    assert_eq!(snapshot.received, 1);
    let snapshot = processor.process_event(timeout("host", "10.0.0.1")).unwrap();
    assert_eq!(window(&snapshot), vec![1234, -1]);
    assert_eq!(snapshot.timeout_count, 1);
    let kept = processor.stats_of("host", "10.0.0.1").unwrap();
    assert_eq!(window(&kept), vec![1234, -1]);
}

#[test]
fn event_for_unknown_target_is_dropped() {
    let mut processor = one_target("table");
    assert!(processor.process_event(success("other", "10.0.0.1", 5)).is_none());
    assert!(processor.process_event(timeout("host", "10.0.0.2")).is_none());
    let kept = processor.stats_of("host", "10.0.0.1").unwrap();
    assert_eq!(kept.received, 0);
    assert_eq!(kept.timeout_count, 0);
    assert!(processor.stats_of("other", "10.0.0.1").is_none());
}

#[test]
fn processor_windows_hold_at_most_ten_samples_in_table_mode() {
    let mut processor = one_target("table");
    let mut last = None;
    for n in 0..12 {
        last = processor.process_event(success("host", "10.0.0.1", 100 + n));
    }
    let last = last.unwrap();
    assert_eq!(window(&last), (102..112).collect::<Vec<i64>>());
    assert_eq!(last.evicted_count, 2);
}

#[test]
fn snapshots_of_one_target_follow_its_events_whatever_lies_between() {
    let targets =
        [("a".to_string(), "1.1.1.1".to_string()), ("b".to_string(), "2.2.2.2".to_string())];
    let mut mixed = DataProcessor::new(&targets, "table");
    let mut alone = DataProcessor::new(&targets, "table");
    let events_a = [success("a", "1.1.1.1", 10), timeout("a", "1.1.1.1"), success("a", "1.1.1.1", 7)];
    let mut from_mixed = Vec::new();
    let mut from_alone = Vec::new();
    for event in events_a.iter() {
        mixed.process_event(success("b", "2.2.2.2", 99));
        from_mixed.push(mixed.process_event(event.clone()).unwrap());
        mixed.process_event(timeout("b", "2.2.2.2"));
        from_alone.push(alone.process_event(event.clone()).unwrap());
    }
    for (m, a) in from_mixed.iter().zip(from_alone.iter()) {
        assert_eq!(m.addr, "a");
        assert_eq!(window(m), window(a));
        assert_eq!(m.received, a.received);
        assert_eq!(m.timeout_count, a.timeout_count);
        assert_eq!(m.min_rtt, a.min_rtt);
        assert_eq!(m.max_rtt, a.max_rtt);
    }
    assert_eq!(window(&from_mixed[2]), vec![10, -1, 7]);
}

#[test]
fn aggregator_polls_every_100_milliseconds() {
    assert_eq!(POLL_INTERVAL_MILLIS, 100);
}

#[test]
fn aggregator_waits_only_while_running() {
    let aggregator = Aggregator::new(&[("host".to_string(), "10.0.0.1".to_string())], "table");
    assert!(aggregator.wants_event(true));
    assert!(!aggregator.wants_event(false));
}

#[test]
fn aggregator_publishes_for_events_and_waits_on_timeouts() {
    let mut aggregator = Aggregator::new(&[("host".to_string(), "10.0.0.1".to_string())], "table");
    let received = Received::Event(success("host", "10.0.0.1", 42));
    assert!(aggregator.can_handle(&received));
    let snapshot = aggregator.handle(received).unwrap();
    assert_eq!(window(&snapshot), vec![42]);
    assert!(aggregator.handle(Received::TimedOut).is_none());
    assert!(aggregator.wants_event(true));
    assert!(aggregator.handle(Received::Event(success("nobody", "10.0.0.1", 42))).is_none());
    assert!(aggregator.wants_event(true));
}

#[test]
fn aggregator_ends_when_the_event_bus_is_disconnected() {
    let mut aggregator = Aggregator::new(&[("host".to_string(), "10.0.0.1".to_string())], "table");
    assert!(aggregator.handle(Received::Disconnected).is_none());
    assert!(!aggregator.wants_event(true));
}

#[test]
fn aggregator_ends_when_the_update_receiver_is_gone() {
    let mut aggregator = Aggregator::new(&[("host".to_string(), "10.0.0.1".to_string())], "table");
    let snapshot = aggregator.handle(Received::Event(success("host", "10.0.0.1", 42)));
    assert!(snapshot.is_some());
    aggregator.publish_failed();
    assert!(!aggregator.wants_event(true));
    assert!(!aggregator.wants_event(false));
}
