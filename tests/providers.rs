use wayfindr::ai::AiProvider;
use wayfindr::applications::{create_fallback_apps, is_common_app, ApplicationProvider};
use wayfindr::desktop::DesktopApp;
use wayfindr::directories::{parse_history_output, DirectoryProvider};
use wayfindr::providers::{apply_priority, merge_outcomes, ProviderOutcome};
use wayfindr::types::{ActionData, ActionResult, ActionType, ProviderError, ScoredResult};
use wayfindr::usage::UsageService;
use wayfindr::utils::generate_id;

fn app(name: &str) -> DesktopApp {
    DesktopApp {
        name: name.to_string(),
        command: name.to_lowercase(),
        icon: None,
        comment: None,
        categories: Vec::new(),
        no_display: false,
        terminal: false,
    }
}

fn scored(title: &str, score: i32) -> ScoredResult {
    let result = ActionResult::new_launch(
        title.to_string(),
        "test".to_string(),
        title.to_string(),
        title.to_string(),
        false,
    );
    ScoredResult::new(result, score, "test".to_string())
}

fn outcome(priority: u8, outcome: Result<Vec<ScoredResult>, ProviderError>) -> ProviderOutcome {
    ProviderOutcome { provider_id: "p".to_string(), priority, outcome }
}

#[test]
fn prefix_query_finds_one_app() {
    let mut provider = ApplicationProvider::new();
    provider.set_apps(vec![app("Firefox"), app("Files")]);
    let results = provider.search("fire", &UsageService::new());
    assert_eq!(results.len(), 1);
    assert_eq!(results[0].result.title, "Firefox");
    assert_eq!(results[0].score, 500);
    assert_eq!(results[0].result.id, generate_id("app", "Firefox"));
    assert!(matches!(results[0].result.data, ActionData::Command(ref c) if c == "firefox"));
}

#[test]
fn empty_query_shows_only_used_apps() {
    let mut provider = ApplicationProvider::new();
    provider.set_apps(vec![app("appA"), app("appB")]);
    let mut usage = UsageService::new();
    let id_a = generate_id("app", "appA");
    for t in 0..3 {
        usage.record_usage(&id_a, t);
    }
    let results = provider.search("", &usage);
    assert_eq!(results.len(), 1);
    assert_eq!(results[0].result.title, "appA");
    assert_eq!(results[0].score, 150);
    let same = provider.search("apps", &usage);
    assert_eq!(same.len(), 1);
}

#[test]
fn empty_query_caps_at_five() {
    let mut provider = ApplicationProvider::new();
    let names = ["a1", "a2", "a3", "a4", "a5", "a6", "a7"];
    provider.set_apps(names.iter().map(|n| app(n)).collect());
    let mut usage = UsageService::new();
    for n in names {
        usage.record_usage(&generate_id("app", n), 0);
    }
    assert_eq!(provider.search("", &usage).len(), 5);
}

#[test]
fn search_results_rank_by_score_then_name() {
    let mut provider = ApplicationProvider::new();
    provider.set_apps(vec![app("Zed Editor"), app("Editor"), app("Atom Editor")]);
    let mut usage = UsageService::new();
    usage.record_usage(&generate_id("app", "Zed Editor"), 0);
    let results = provider.search("app: editor", &usage);
    let titles: Vec<&str> = results.iter().map(|r| r.result.title.as_str()).collect();
    assert_eq!(titles, vec!["Editor", "Zed Editor", "Atom Editor"]);
    assert_eq!(results[0].score, 1000);
    assert_eq!(results[1].score, 250);
    assert_eq!(results[2].score, 200);
}

#[test]
fn search_caps_at_twenty() {
    let mut provider = ApplicationProvider::new();
    provider.set_apps((0..30).map(|i| app(&format!("tool{:02}", i))).collect());
    let results = provider.search("tool", &UsageService::new());
    assert_eq!(results.len(), 20);
    assert_eq!(results[0].result.title, "tool00");
    assert_eq!(results[19].result.title, "tool19");
}

#[test]
fn later_scan_entry_replaces_same_name() {
    let mut provider = ApplicationProvider::new();
    let mut user = app("Firefox");
    user.command = "firefox --private".to_string();
    provider.set_apps(vec![app("Firefox"), app("Files"), user]);
    assert_eq!(provider.apps().len(), 2);
    assert_eq!(provider.apps()[0].command, "firefox --private");
}

#[test]
fn application_queries() {
    let provider = ApplicationProvider::new();
    assert!(provider.can_handle(""));
    assert!(provider.can_handle("fire"));
    assert!(provider.can_handle("app:fire"));
    assert!(!provider.can_handle("ai: hello"));
    assert!(!provider.can_handle("ask: hello"));
    assert_eq!(provider.priority(), 70);
}

#[test]
fn common_apps_and_fallbacks() {
    assert!(is_common_app("Mozilla Firefox"));
    assert!(is_common_app("VLC media player"));
    assert!(!is_common_app("Calculator"));
    let fallback = create_fallback_apps();
    assert_eq!(fallback.len(), 5);
    assert_eq!(fallback[0].result.title, "Firefox");
    assert_eq!(fallback[4].score, 96);
    assert!(matches!(fallback[1].result.action, ActionType::Launch { needs_terminal: true }));
}

#[test]
fn failed_provider_is_left_out() {
    let outcomes = vec![
        outcome(50, Err(ProviderError::Network("down".to_string()))),
        outcome(50, Ok(vec![scored("a", 10), scored("b", 30), scored("c", 20)])),
    ];
    let merged = merge_outcomes(outcomes, 50);
    let titles: Vec<&str> = merged.iter().map(|r| r.result.title.as_str()).collect();
    assert_eq!(titles, vec!["b", "c", "a"]);
    assert_eq!(merged[0].score, 30);
}

#[test]
fn merge_never_exceeds_the_maximum() {
    let many: Vec<ScoredResult> = (0..60).map(|i| scored(&format!("r{}", i), i)).collect();
    let merged = merge_outcomes(vec![outcome(50, Ok(many))], 50);
    assert_eq!(merged.len(), 50);
    assert_eq!(merged[0].score, 59);
    assert_eq!(merge_outcomes(vec![], 50).len(), 0);
    assert_eq!(merge_outcomes(vec![outcome(50, Ok(vec![scored("x", 1)]))], 0).len(), 0);
}

#[test]
fn priority_shifts_scores_and_ties_keep_registration_order() {
    let outcomes = vec![
        outcome(40, Ok(vec![scored("dir", 150)])),
        outcome(70, Ok(vec![scored("app", 50)])),
        outcome(50, Ok(vec![scored("tie", 250)])),
    ];
    let merged = merge_outcomes(outcomes, 50);
    let got: Vec<(&str, i32)> = merged.iter().map(|r| (r.result.title.as_str(), r.score)).collect();
    assert_eq!(got, vec![("app", 250), ("tie", 250), ("dir", 50)]);
}

#[test]
fn priority_adjustment_saturates() {
    let adjusted = apply_priority(vec![scored("max", i32::MAX), scored("min", i32::MIN)], 255);
    assert_eq!(adjusted[0].score, i32::MAX);
    assert_eq!(adjusted[1].score, i32::MIN + 2050);
    let lowered = apply_priority(vec![scored("min", i32::MIN)], 0);
    assert_eq!(lowered[0].score, i32::MIN);
}

#[test]
fn directory_results_prefer_the_direct_path() {
    let provider = DirectoryProvider::new();
    let results = provider.merge_results(
        Some("/home/u/src".to_string()),
        vec!["/home/u/docs".to_string(), "/home/u/src".to_string()],
    );
    assert_eq!(results.len(), 2);
    assert_eq!(results[0].result.title, "/home/u/src");
    assert_eq!(results[0].score, 150);
    assert_eq!(results[1].result.title, "/home/u/docs");
    assert_eq!(results[1].score, 100);
    assert_eq!(results[1].result.description, "Navigate to /home/u/docs");
    assert_eq!(results[0].result.id, generate_id("dir", "/home/u/src"));
}

#[test]
fn directory_results_cap_at_fifteen() {
    let provider = DirectoryProvider::new();
    let history: Vec<String> = (0..20).map(|i| format!("/d/{}", i)).collect();
    let results = provider.merge_results(None, history);
    assert_eq!(results.len(), 15);
    assert_eq!(results[0].result.title, "/d/0");
}

#[test]
fn history_output_gives_last_words() {
    let out = "  12.5 /home/u/src\n   3.0 /home/u/My Docs\n\n  1.0 /tmp  \n";
    assert_eq!(parse_history_output(out), vec!["/home/u/src", "Docs", "/tmp"]);
}

#[test]
fn directory_queries() {
    let provider = DirectoryProvider::new();
    assert!(provider.can_handle("src"));
    assert!(!provider.can_handle(""));
    assert!(!provider.can_handle("app:x"));
    assert!(!provider.can_handle("ai:x"));
    assert_eq!(provider.priority(), 40);
}

#[test]
fn ai_provider_questions_and_answers() {
    let off = AiProvider::new(false);
    assert!(!off.can_handle("ai: 2+2"));
    assert_eq!(off.question("ai: 2+2"), None);
    let on = AiProvider::new(true);
    assert!(on.can_handle("ask: why"));
    assert!(!on.can_handle("why"));
    assert_eq!(on.question("ai:   2+2  "), Some("2+2".to_string()));
    assert_eq!(on.question("ai:   "), None);
    assert!(on.prompt("2+2").ends_with("User question: 2+2"));
    let results = on.answer("2+2", Ok("4".to_string())).unwrap();
    assert_eq!(results.len(), 1);
    assert_eq!(results[0].score, 1000);
    assert_eq!(results[0].result.title, "AI: 2+2");
    assert_eq!(results[0].result.id, generate_id("ai", "2+2"));
    assert!(on.answer("x", Ok("[INVALID]".to_string())).unwrap().is_empty());
    match on.answer("x", Err("timeout".to_string())) {
        Err(ProviderError::Api { status, message }) => {
            assert_eq!(status, 500);
            assert_eq!(message, "AI service error: timeout");
        }
        _ => panic!("expected an API error"),
    }
}

#[test]
fn live_search_keeps_only_the_latest_answer() {
    let mut live = wayfindr::live::LiveSearch::new();
    let first = live.issue();
    let second = live.issue();
    assert_eq!((first, second), (1, 2));
    assert!(!live.accept(first));
    assert!(live.accept(second));
    assert_eq!(live.latest(), 2);
}

#[test]
fn ranking_is_deterministic_for_equal_scores() {
    let a = merge_outcomes(vec![outcome(50, Ok(vec![scored("x", 5), scored("y", 5), scored("z", 5)]))], 50);
    let b = merge_outcomes(vec![outcome(50, Ok(vec![scored("x", 5), scored("y", 5), scored("z", 5)]))], 50);
    let ta: Vec<&str> = a.iter().map(|r| r.result.title.as_str()).collect();
    let tb: Vec<&str> = b.iter().map(|r| r.result.title.as_str()).collect();
    assert_eq!(ta, vec!["x", "y", "z"]);
    assert_eq!(ta, tb);
}
