use wayfindr::services::{get_top_used, get_top_used_with_counts, get_usage_boost, get_usage_count, init_usage_service, record_usage};
use wayfindr::usage::{usage_boost, UsageEntry, UsageService};
use wayfindr::usage_file::{load_usage_file, parse_usage_line, render_usage_file, usage_line};
use wayfindr::usage_tracker::UsageStats;

#[test]
fn boost_follows_the_step_table() {
    let expected = [
        (0, 0), (1, 50), (2, 50), (3, 150), (5, 150), (6, 300), (10, 300), (11, 500), (20, 500),
        (21, 750), (50, 750), (51, 1000), (u32::MAX, 1000),
    ];
    for (count, boost) in expected {
        assert_eq!(usage_boost(count), boost, "count {}", count);
    }
}

#[test]
fn boost_never_decreases_with_count() {
    let mut last = usage_boost(0);
    for count in 1..200u32 {
        let b = usage_boost(count);
        assert!(b >= last);
        last = b;
    }
}

#[test]
fn record_increments_by_one() {
    let mut store = UsageService::new();
    assert_eq!(store.get_usage_count("app_1"), 0);
    store.record_usage("app_1", 100);
    assert_eq!(store.get_usage_count("app_1"), 1);
    store.record_usage("app_1", 200);
    store.record_usage("app_1", 300);
    assert_eq!(store.get_usage_count("app_1"), 3);
    assert_eq!(store.get_usage_boost("app_1"), 150);
    let e = store.get_entry("app_1").unwrap();
    assert_eq!(e, UsageEntry { count: 3, last_used: 300, first_used: 100 });
    assert_eq!(store.get_usage_count("other"), 0);
}

#[test]
fn reset_and_clear() {
    let mut store = UsageService::new();
    store.record_usage("a", 1);
    store.record_usage("b", 1);
    assert!(store.reset_usage("a"));
    assert!(!store.reset_usage("a"));
    assert_eq!(store.get_usage_count("a"), 0);
    assert_eq!(store.get_usage_count("b"), 1);
    store.clear_all();
    assert_eq!(store.len(), 0);
}

#[test]
fn top_used_orders_by_count_then_first_use() {
    let mut store = UsageService::new();
    store.record_usage("a", 1);
    store.record_usage("b", 1);
    store.record_usage("b", 2);
    store.record_usage("c", 1);
    store.record_usage("d", 1);
    store.record_usage("d", 2);
    store.record_usage("d", 3);
    assert_eq!(
        get_top_used_with_counts(&store, 3),
        vec![("d".to_string(), 3), ("b".to_string(), 2), ("a".to_string(), 1)]
    );
    assert_eq!(get_top_used(&store, 10), vec!["d", "b", "a", "c"]);
    assert_eq!(get_top_used(&store, 0), Vec::<String>::new());
}

#[test]
fn free_functions_act_on_the_given_store() {
    let mut store = init_usage_service("");
    record_usage(&mut store, "x", 5);
    record_usage(&mut store, "x", 6);
    assert_eq!(get_usage_count(&store, "x"), 2);
    assert_eq!(get_usage_boost(&store, "x"), 50);
}

#[test]
fn usage_line_round_trip() {
    let e = UsageEntry { count: 42, last_used: 1_700_000_000, first_used: 1_600_000_000 };
    let line = usage_line("app_1f2e", e).unwrap();
    assert!(line.starts_with("app_1f2e|{\"count\":42,\"last_used\":\""));
    assert_eq!(parse_usage_line(&line), Some(("app_1f2e".to_string(), e)));
}

#[test]
fn usage_line_reads_fractional_seconds() {
    let line = "app_1|{\"count\":3,\"last_used\":\"2024-05-01T10:00:00.123456Z\",\"first_used\":\"2024-04-01T10:00:00Z\"}";
    let (id, e) = parse_usage_line(line).unwrap();
    assert_eq!(id, "app_1");
    assert_eq!(e.count, 3);
    assert_eq!(e.last_used, 1_714_557_600);
    assert_eq!(e.first_used, 1_711_965_600);
}

#[test]
fn usage_line_rejects_malformed_lines() {
    assert_eq!(parse_usage_line(""), None);
    assert_eq!(parse_usage_line("# comment"), None);
    assert_eq!(parse_usage_line("no bar here"), None);
    assert_eq!(parse_usage_line("a|{\"count\":x}"), None);
    assert_eq!(parse_usage_line("a|{\"count\":99999999999,\"last_used\":\"2024-05-01T10:00:00Z\",\"first_used\":\"2024-05-01T10:00:00Z\"}"), None);
    assert_eq!(parse_usage_line("a|{\"count\":1,\"last_used\":\"yesterday\",\"first_used\":\"2024-05-01T10:00:00Z\"}"), None);
}

#[test]
fn file_round_trip_keeps_counts_and_times() {
    let mut store = UsageService::new();
    store.record_usage("app_a", 1_000);
    store.record_usage("app_b", 2_000);
    store.record_usage("app_b", 3_000);
    let text = render_usage_file(&store);
    assert!(text.starts_with("# Wayfindr Usage Statistics\n# Format: action_id|json_data\n\n"));
    let b_at = text.find("app_b|").unwrap();
    let a_at = text.find("app_a|").unwrap();
    assert!(b_at < a_at, "most used first");
    let loaded = load_usage_file(&text);
    assert_eq!(loaded.get_entry("app_a"), store.get_entry("app_a"));
    assert_eq!(loaded.get_entry("app_b"), store.get_entry("app_b"));
    assert_eq!(loaded.len(), 2);
}

#[test]
fn later_lines_win_when_loading() {
    let text = "x|{\"count\":1,\"last_used\":\"2024-05-01T10:00:00Z\",\"first_used\":\"2024-05-01T10:00:00Z\"}\nx|{\"count\":7,\"last_used\":\"2024-05-02T10:00:00Z\",\"first_used\":\"2024-05-01T10:00:00Z\"}\n";
    let store = load_usage_file(text);
    assert_eq!(store.get_usage_count("x"), 7);
    assert_eq!(store.len(), 1);
}

#[test]
fn usage_stats_counts_and_boosts() {
    let mut stats = UsageStats::with_custom_path("/tmp/counts.txt");
    assert_eq!(stats.file_path(), "/tmp/counts.txt");
    for _ in 0..3 {
        stats.increment_usage("Firefox");
    }
    stats.increment_usage("Files");
    assert_eq!(stats.get_usage_count("Firefox"), 3);
    assert_eq!(stats.get_usage_boost("Firefox"), 25);
    assert_eq!(stats.get_usage_boost("Files"), 10);
    assert_eq!(stats.get_usage_boost("Nothing"), 0);
    assert_eq!(
        stats.get_top_apps(1),
        vec![("Firefox".to_string(), 3)]
    );
    let text = stats.render();
    assert_eq!(
        text,
        "# Wayfindr Application Usage Statistics\n# Format: app_name|usage_count\n\nFirefox|3\nFiles|1\n"
    );
    let mut again = UsageStats::new();
    again.load_from_text(&text);
    assert_eq!(again.get_usage_count("Firefox"), 3);
    assert_eq!(again.get_usage_count("Files"), 1);
    assert_eq!(again.print_stats().len(), 3);
    again.reset_usage("Firefox");
    assert_eq!(again.get_usage_count("Firefox"), 0);
    again.clear_all_usage();
    assert_eq!(again.get_top_apps(10), vec![]);
}

#[test]
fn usage_stats_skips_bad_count_lines() {
    let mut stats = UsageStats::new();
    stats.load_from_text("# header\n\nvim|+4\nemacs|x\nnano|-1\n  code|12  \n");
    assert_eq!(stats.get_usage_count("vim"), 4);
    assert_eq!(stats.get_usage_count("emacs"), 0);
    assert_eq!(stats.get_usage_count("nano"), 0);
    assert_eq!(stats.get_usage_count("code"), 12);
}

#[test]
fn usage_line_allows_json_white_space() {
    let line = "app_1|{ \"count\" : 3,\n \"last_used\":\"2024-05-01T10:00:00Z\" , \"first_used\": \"2024-04-01T10:00:00Z\" }";
    let (id, e) = parse_usage_line(line).unwrap();
    assert_eq!(id, "app_1");
    assert_eq!(e, UsageEntry { count: 3, last_used: 1_714_557_600, first_used: 1_711_965_600 });
}
