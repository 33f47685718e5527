use atlas::telemetry::{
    apply_metric_update, clear, journal_trim_start, metrics, status, update_daily_metrics,
    update_metrics, CalendarDay, FeedbackVerdict, MetricsUpdate, TelemetryConfig,
    TelemetryCounters, TelemetryMetrics,
};

#[test]
fn metrics_count_each_feedback_verdict_separately() {
    let mut counters = TelemetryCounters::default();

    for verdict in [
        FeedbackVerdict::Helpful,
        FeedbackVerdict::Misleading,
        FeedbackVerdict::Stale,
        FeedbackVerdict::Missing,
    ] {
        apply_metric_update(&mut counters, MetricsUpdate::Feedback(verdict));
    }

    assert_eq!(counters.helpful_feedback, 1);
    assert_eq!(counters.misleading_feedback, 1);
    assert_eq!(counters.stale_feedback, 1);
    assert_eq!(counters.missing_feedback, 1);
}

fn has_day(metrics: &TelemetryMetrics, day: &str) -> bool {
    metrics.daily.iter().any(|d| d.day == day)
}

#[test]
fn metrics_keep_all_time_totals_after_daily_buckets_expire() {
    let mut metrics = TelemetryMetrics::default();

    update_metrics(
        &mut metrics,
        &CalendarDay { year: 2026, month: 1, day: 1 },
        MetricsUpdate::Get,
    )
    .expect("date should be valid");
    update_metrics(
        &mut metrics,
        &CalendarDay { year: 2026, month: 8, day: 27 },
        MetricsUpdate::Search { total_results: 0 },
    )
    .expect("date should be valid");

    assert_eq!(metrics.all_time.gets, 1);
    assert_eq!(metrics.all_time.zero_result_searches, 1);
    assert!(!has_day(&metrics, "2026-01-01"));
    assert!(has_day(&metrics, "2026-08-27"));
}

#[test]
fn search_updates_count_results_and_zero_result_searches() {
    let mut counters = TelemetryCounters::default();
    apply_metric_update(&mut counters, MetricsUpdate::Search { total_results: 3 });
    apply_metric_update(&mut counters, MetricsUpdate::Search { total_results: 0 });
    apply_metric_update(&mut counters, MetricsUpdate::Get);
    assert_eq!(counters.searches, 2);
    assert_eq!(counters.results_matched, 3);
    assert_eq!(counters.zero_result_searches, 1);
    assert_eq!(counters.gets, 1);
}

#[test]
fn daily_buckets_stay_ordered_and_expire_at_the_cutoff() {
    let mut metrics = TelemetryMetrics::default();
    let days = ["2026-03-02", "2026-03-01", "2026-03-03", "2026-03-01"];
    for day in days {
        update_daily_metrics(&mut metrics, &day.to_string(), &"2026-01-01".to_string(), MetricsUpdate::Get);
    }
    let keys: Vec<&str> = metrics.daily.iter().map(|d| d.day.as_str()).collect();
    assert_eq!(keys, vec!["2026-03-01", "2026-03-02", "2026-03-03"]);
    assert_eq!(metrics.daily[0].counters.gets, 2);
    assert_eq!(metrics.all_time.gets, 4);

    update_daily_metrics(&mut metrics, &"2026-03-04".to_string(), &"2026-03-03".to_string(), MetricsUpdate::Get);
    let keys: Vec<&str> = metrics.daily.iter().map(|d| d.day.as_str()).collect();
    assert_eq!(keys, vec!["2026-03-03", "2026-03-04"]);
    assert_eq!(metrics.all_time.gets, 5);
}

#[test]
fn the_window_keeps_ninety_days() {
    let mut metrics = TelemetryMetrics::default();
    update_metrics(&mut metrics, &CalendarDay { year: 2026, month: 5, day: 30 }, MetricsUpdate::Get).unwrap();
    update_metrics(&mut metrics, &CalendarDay { year: 2026, month: 5, day: 31 }, MetricsUpdate::Get).unwrap();
    update_metrics(&mut metrics, &CalendarDay { year: 2026, month: 8, day: 28 }, MetricsUpdate::Get).unwrap();
    let keys: Vec<&str> = metrics.daily.iter().map(|d| d.day.as_str()).collect();
    assert_eq!(keys, vec!["2026-05-31", "2026-08-28"]);
    assert!(update_metrics(&mut metrics, &CalendarDay { year: 2026, month: 2, day: 30 }, MetricsUpdate::Get).is_err());
    assert_eq!(metrics.all_time.gets, 3);
}

#[test]
fn trim_journal_retains_the_newest_complete_entries() {
    let contents = b"a\nbbb\ncccc\n".to_vec();
    let start = journal_trim_start(&contents, 8);
    assert_eq!(&contents[start..], b"cccc\n");
    assert_eq!(journal_trim_start(&contents, 11), 0);
    let exact = b"ab\ncd\n".to_vec();
    assert_eq!(journal_trim_start(&exact, 3), 3);
    let one_entry = b"abcdef".to_vec();
    assert_eq!(journal_trim_start(&one_entry, 2), 6);
}

#[test]
fn status_defaults_to_enabled_and_clear_reports_removals() {
    assert!(status(None, "e".to_string()).enabled);
    assert!(!status(Some(TelemetryConfig { enabled: false }), "e".to_string()).enabled);
    assert_eq!(status(None, "p/events.jsonl".to_string()).events_path, "p/events.jsonl");
    assert!(clear(true, false).cleared);
    assert!(clear(false, true).cleared);
    assert!(!clear(false, false).cleared);
    let empty = metrics(None);
    assert_eq!(empty.all_time.searches, 0);
    assert!(empty.daily.is_empty());
}

#[test]
fn only_calendar_days_are_counted() {
    let mut metrics = TelemetryMetrics::default();
    assert!(update_metrics(&mut metrics, &CalendarDay { year: 2024, month: 2, day: 29 }, MetricsUpdate::Get).is_ok());
    assert!(update_metrics(&mut metrics, &CalendarDay { year: 2100, month: 2, day: 29 }, MetricsUpdate::Get).is_err());
    assert!(update_metrics(&mut metrics, &CalendarDay { year: 2000, month: 2, day: 29 }, MetricsUpdate::Get).is_ok());
    assert!(update_metrics(&mut metrics, &CalendarDay { year: 2026, month: 13, day: 1 }, MetricsUpdate::Get).is_err());
    assert_eq!(metrics.all_time.gets, 2);
}

#[test]
fn days_in_order_checks_strictly_increasing_days() {
    let mut metrics = TelemetryMetrics::default();
    assert!(metrics.days_in_order());
    update_metrics(&mut metrics, &CalendarDay { year: 2026, month: 5, day: 30 }, MetricsUpdate::Get).unwrap();
    update_metrics(&mut metrics, &CalendarDay { year: 2026, month: 5, day: 31 }, MetricsUpdate::Get).unwrap();
    assert!(metrics.days_in_order());
    metrics.daily.swap(0, 1);
    assert!(!metrics.days_in_order());
    let first = metrics.daily[0].clone();
    metrics.daily[1] = first;
    assert!(!metrics.days_in_order());
}
