use pingwatch::consumer::{
    apply_update, is_quit_key, output_line, view_kind, Key, ViewKind, KEY_POLL_MILLIS,
    UPDATE_POLL_MILLIS,
};
use pingwatch::exporter::{
    banner_more, banner_named, metric_action, route, status_label, MetricAction, Route,
    BANNER_TARGETS,
};
use pingwatch::i18n::{contains, language_for_culture, language_for_locale, starts_with};
use pingwatch::network::ProbeReply;
use pingwatch::target_stats::TargetStats;
use pingwatch::text::{decimal, hundredths};
use pingwatch::view::{
    last_sample_kind, loss_level, point_kind, rank_of, sparkline_data, table_order, LastSample,
    LossLevel, PointKind, Rank, UNITS_PER_MILLI,
};
use std::collections::VecDeque;

fn stats(addr: &str, ip: &str, last: i64) -> TargetStats {
    let mut s = TargetStats::new(addr.to_string(), ip.to_string());
    s.last_sample = last;
    s
}

fn row(timeouts: usize, received: usize, samples: &[i64]) -> TargetStats {
    let mut s = TargetStats::new("host".to_string(), "10.0.0.1".to_string());
    s.timeout_count = timeouts;
    s.received = received;
    s.rtt_window = samples.iter().copied().collect();
    s
}

#[test]
fn consumer_polls_every_50_milliseconds() {
    assert_eq!(KEY_POLL_MILLIS, 50);
    assert_eq!(UPDATE_POLL_MILLIS, 50);
}

#[test]
fn q_escape_and_control_c_quit() {
    assert!(is_quit_key(Key::Char('q'), false));
    assert!(is_quit_key(Key::Char('q'), true));
    assert!(is_quit_key(Key::Esc, false));
    assert!(is_quit_key(Key::Char('c'), true));
    assert!(!is_quit_key(Key::Char('c'), false));
    assert!(!is_quit_key(Key::Char('Q'), false));
    assert!(!is_quit_key(Key::Char('x'), true));
    assert!(!is_quit_key(Key::Other, true));
}

#[test]
fn view_mode_names_its_view() {
    assert_eq!(view_kind("graph"), ViewKind::Graph);
    assert_eq!(view_kind("table"), ViewKind::Table);
    assert_eq!(view_kind("point"), ViewKind::Point);
    assert_eq!(view_kind("sparkline"), ViewKind::Sparkline);
    assert_eq!(view_kind("anything"), ViewKind::Graph);
    assert_eq!(view_kind(""), ViewKind::Graph);
}

#[test]
fn update_replaces_the_first_entry_of_its_target() {
    let mut list = vec![stats("a", "1.1.1.1", 0), stats("b", "2.2.2.2", 0), stats("b", "2.2.2.2", 0)];
    apply_update(&mut list, stats("b", "2.2.2.2", 77));
    assert_eq!(list[0].last_sample, 0);
    assert_eq!(list[1].last_sample, 77);
    assert_eq!(list[2].last_sample, 0);
    assert_eq!(list.len(), 3);
}

#[test]
fn update_for_a_target_that_is_not_shown_changes_nothing() {
    let mut list = vec![stats("a", "1.1.1.1", 5), stats("b", "2.2.2.2", 6)];
    apply_update(&mut list, stats("a", "2.2.2.2", 77));
    assert_eq!(list[0].last_sample, 5);
    assert_eq!(list[1].last_sample, 6);
    let mut empty: Vec<TargetStats> = Vec::new();
    apply_update(&mut empty, stats("a", "1.1.1.1", 77));
    assert!(empty.is_empty());
}

#[test]
fn output_line_names_target_address_and_latency() {
    assert_eq!(output_line(&stats("example.org", "93.184.216.34", 1234)), "example.org 93.184.216.34 12.34ms");
    assert_eq!(output_line(&stats("a", "b", 5)), "a b 0.05ms");
    assert_eq!(output_line(&stats("a", "b", 0)), "a b 0.00ms");
    assert_eq!(output_line(&stats("a", "b", 100000)), "a b 1000.00ms");
}

#[test]
fn output_line_says_timeout_for_a_probe_without_reply() {
    assert_eq!(output_line(&stats("example.org", "93.184.216.34", -1)), "example.org 93.184.216.34 timeout");
}

#[test]
fn numbers_are_written_in_decimal() {
    assert_eq!(decimal(0), "0");
    assert_eq!(decimal(7), "7");
    assert_eq!(decimal(10), "10");
    assert_eq!(decimal(9876543210), "9876543210");
    assert_eq!(decimal(u64::MAX), "18446744073709551615");
}

#[test]
fn hundredths_are_written_with_two_decimal_places() {
    assert_eq!(hundredths(0), "0.00");
    assert_eq!(hundredths(7), "0.07");
    assert_eq!(hundredths(120), "1.20");
    assert_eq!(hundredths(-250), "-2.50");
    assert_eq!(hundredths(i64::MAX), "92233720368547758.07");
    assert_eq!(hundredths(i64::MIN), "-92233720368547758.08");
}

#[test]
fn exporter_records_replies() {
    assert!(matches!(
        metric_action("10.0.0.1", ProbeReply::Pong { nanos: 1500 }),
        MetricAction::Success { nanos: 1500 }
    ));
    assert!(matches!(metric_action("10.0.0.1", ProbeReply::Timeout), MetricAction::Timeout));
    let clean = ProbeReply::Exited { code: Some(0), status: "ok".to_string(), stderr: String::new() };
    assert!(matches!(metric_action("10.0.0.1", clean), MetricAction::Skip));
}

#[test]
fn exporter_counts_everything_else_as_an_error() {
    let failed =
        ProbeReply::Exited { code: Some(1), status: "exit status: 1".to_string(), stderr: "boom".to_string() };
    match metric_action("10.0.0.1", failed) {
        MetricAction::Error { message } => assert_eq!(
            message,
            "host(10.0.0.1) ping err, reason: ping exited, status: boom err: exit status: 1"
        ),
        other => panic!("unexpected action {:?}", other),
    }
    match metric_action("10.0.0.1", ProbeReply::Unknown { line: "???".to_string() }) {
        MetricAction::Error { message } => {
            assert_eq!(message, "host(10.0.0.1) ping err, reason: unknown, err: ???")
        }
        other => panic!("unexpected action {:?}", other),
    }
    match metric_action("10.0.0.1", ProbeReply::Failed { error: "closed".to_string() }) {
        MetricAction::Error { message } => {
            assert_eq!(message, "host(10.0.0.1) ping err, reason: recv failed, err: closed")
        }
        other => panic!("unexpected action {:?}", other),
    }
}

#[test]
fn metric_actions_have_their_status_label() {
    assert_eq!(status_label(&MetricAction::Success { nanos: 1 }), Some("success"));
    assert_eq!(status_label(&MetricAction::Timeout), Some("timeout"));
    assert_eq!(status_label(&MetricAction::Error { message: String::new() }), Some("error"));
    assert_eq!(status_label(&MetricAction::Skip), None);
}

#[test]
fn metrics_server_serves_the_metrics_path_only() {
    assert_eq!(route(true, "/metrics"), Route::Metrics);
    assert_eq!(route(true, "/"), Route::NotFound);
    assert_eq!(route(true, "/metrics/"), Route::NotFound);
    assert_eq!(route(true, "/index.html"), Route::NotFound);
    assert_eq!(route(true, ""), Route::NotFound);
    assert_eq!(route(false, "/metrics"), Route::NotFound);
    assert_eq!(route(false, "/"), Route::NotFound);
}

#[test]
fn banner_names_five_targets_and_counts_the_rest() {
    assert_eq!(BANNER_TARGETS, 5);
    assert_eq!((banner_named(0), banner_more(0)), (0, 0));
    assert_eq!((banner_named(5), banner_more(5)), (5, 0));
    assert_eq!((banner_named(6), banner_more(6)), (5, 1));
    assert_eq!((banner_named(12), banner_more(12)), (5, 7));
}

#[test]
fn text_search_finds_patterns() {
    assert!(contains("pt_BR.UTF-8", "pt"));
    assert!(contains("xxpt", "pt"));
    assert!(!contains("p_t", "pt"));
    assert!(!contains("p", "pt"));
    assert!(contains("abc", ""));
    assert!(contains("", ""));
    assert!(starts_with("es-MX", "es"));
    assert!(!starts_with("des", "es"));
    assert!(!starts_with("e", "es"));
    assert!(starts_with("e", ""));
}

#[test]
fn locale_names_its_language() {
    assert_eq!(language_for_locale("pt_BR.UTF-8"), "pt-BR");
    assert_eq!(language_for_locale("pt_PT.UTF-8"), "pt-BR");
    assert_eq!(language_for_locale("es_ES.UTF-8"), "es");
    assert_eq!(language_for_locale("en_US.UTF-8"), "en");
    assert_eq!(language_for_locale("C"), "en");
    assert_eq!(language_for_locale(""), "en");
    assert_eq!(language_for_locale("es_pt"), "pt-BR");
}

#[test]
fn culture_begins_with_its_language() {
    assert_eq!(language_for_culture("pt-BR"), "pt-BR");
    assert_eq!(language_for_culture("pt-PT"), "pt-BR");
    assert_eq!(language_for_culture("es-MX"), "es");
    assert_eq!(language_for_culture("en-US"), "en");
    assert_eq!(language_for_culture("de-es"), "en");
}

#[test]
fn loss_is_rated_exactly() {
    assert_eq!(loss_level(0, 0), LossLevel::Clean);
    assert_eq!(loss_level(0, 9), LossLevel::Clean);
    assert_eq!(loss_level(1, 9), LossLevel::Lossy);
    assert_eq!(loss_level(5, 5), LossLevel::Lossy);
    assert_eq!(loss_level(6, 5), LossLevel::Severe);
    assert_eq!(loss_level(1, 0), LossLevel::Severe);
    assert_eq!(loss_level(1, 1_000_000), LossLevel::Lossy);
    assert_eq!(loss_level(10_001, 10_000), LossLevel::Severe);
}

#[test]
fn latest_sample_is_shown_by_kind() {
    assert_eq!(last_sample_kind(0), LastSample::BelowUnit);
    assert_eq!(last_sample_kind(-1), LastSample::Timeout);
    assert_eq!(last_sample_kind(1234), LastSample::Latency(1234));
}

#[test]
fn points_are_lost_high_or_normal() {
    assert_eq!(point_kind(-1, 100), PointKind::Lost);
    assert_eq!(point_kind(81, 100), PointKind::High);
    assert_eq!(point_kind(80, 100), PointKind::Normal);
    assert_eq!(point_kind(0, 0), PointKind::Normal);
    assert_eq!(point_kind(1, 0), PointKind::High);
    assert_eq!(point_kind(i64::MAX, i64::MAX), PointKind::High);
}

#[test]
fn sparkline_shows_the_latest_samples_in_whole_milliseconds() {
    assert_eq!(UNITS_PER_MILLI, 100);
    let window: VecDeque<i64> = [150, -1, 1234, 99, 20000].into_iter().collect();
    assert_eq!(sparkline_data(&window, 3), vec![12, 0, 200]);
    assert_eq!(sparkline_data(&window, 5), vec![1, 0, 12, 0, 200]);
    assert_eq!(sparkline_data(&window, 50), vec![1, 0, 12, 0, 200]);
    assert_eq!(sparkline_data(&window, 0), Vec::<u64>::new());
    assert_eq!(sparkline_data(&VecDeque::new(), 4), Vec::<u64>::new());
}

#[test]
fn rows_are_ranked_by_place() {
    assert_eq!(rank_of(0, 12), Rank::First);
    assert_eq!(rank_of(1, 12), Rank::Second);
    assert_eq!(rank_of(2, 12), Rank::Third);
    assert_eq!(rank_of(3, 12), Rank::TopTen);
    assert_eq!(rank_of(9, 12), Rank::TopTen);
    assert_eq!(rank_of(10, 12), Rank::Slow);
    assert_eq!(rank_of(11, 12), Rank::Slow);
    assert_eq!(rank_of(3, 4), Rank::Slow);
    assert_eq!(rank_of(2, 3), Rank::Third);
    assert_eq!(rank_of(0, 1), Rank::First);
}

#[test]
fn table_sorts_by_loss_then_latency_and_keeps_ties_in_order() {
    let rows = vec![
        row(1, 1, &[10]),
        row(0, 5, &[30]),
        row(0, 5, &[20]),
        row(1, 1, &[10]),
        row(0, 5, &[20, -1]),
        row(3, 1, &[1]),
    ];
    assert_eq!(table_order(&rows), vec![2, 4, 1, 0, 3, 5]);
    assert_eq!(table_order(&Vec::new()), Vec::<usize>::new());
    assert_eq!(table_order(&vec![row(0, 0, &[])]), vec![0]);
}

#[test]
fn table_compares_losses_exactly() {
    // both losses are written 0.00, the second is the smaller
    let rows = vec![row(1, 29_999, &[1]), row(1, 30_000, &[100])];
    assert_eq!(table_order(&rows), vec![1, 0]);
    // a row without samples has no loss
    let rows = vec![row(1, 1_000_000, &[1]), row(0, 0, &[])];
    assert_eq!(table_order(&rows), vec![1, 0]);
    let rows = vec![row(2, 0, &[]), row(1, 0, &[]), row(1, 1, &[])];
    assert_eq!(table_order(&rows), vec![2, 0, 1]);
}

#[test]
fn table_compares_means_exactly() {
    // both means are written 4, the second is the smaller
    let rows = vec![row(0, 3, &[3, 4, 4]), row(0, 2, &[3, 4])];
    assert_eq!(table_order(&rows), vec![1, 0]);
    let rows = vec![row(0, 2, &[i64::MAX, i64::MAX]), row(0, 2, &[i64::MAX, i64::MAX - 1])];
    assert_eq!(table_order(&rows), vec![1, 0]);
}
