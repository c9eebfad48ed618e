use wayfindr::utils::{
    calculate_relevance_score, fuzzy_match, generate_id, relevance_of_lowered, truncate_text,
};

#[test]
fn test_fuzzy_match() {
    assert_eq!(fuzzy_match("firefox", "fire"), true);
    assert_eq!(fuzzy_match("firefox", "fox"), true);
    assert_eq!(fuzzy_match("firefox", "xyz"), false);
    assert_eq!(fuzzy_match("", "test"), false);
    assert_eq!(fuzzy_match("test", ""), true);
}

#[test]
fn test_calculate_relevance_score() {
    let categories = vec!["browser".to_string()];

    // Exact match
    assert_eq!(
        calculate_relevance_score("firefox", "firefox", "Web browser", &categories),
        1000
    );

    // Starts with
    assert_eq!(
        calculate_relevance_score("fire", "firefox", "Web browser", &categories),
        500
    );

    // Contains
    assert_eq!(
        calculate_relevance_score("fox", "firefox", "Web browser", &categories),
        200
    );
}

#[test]
fn test_truncate_text() {
    assert_eq!(truncate_text("short", 10), "short");
    assert_eq!(truncate_text("this is a very long text", 10), "this is...");
    assert_eq!(truncate_text("12345678901", 10), "1234567...");
}

#[test]
fn relevance_tiers_below_title() {
    let categories = vec!["Network".to_string(), "WebBrowser".to_string()];
    assert_eq!(calculate_relevance_score("surf", "Firefox", "Surf the web", &categories), 100);
    assert_eq!(calculate_relevance_score("webbrow", "Firefox", "", &categories), 50);
    assert_eq!(calculate_relevance_score("ffx", "Firefox", "", &categories), 25);
    assert_eq!(calculate_relevance_score("zzz", "Firefox", "", &categories), 0);
}

#[test]
fn relevance_ignores_case() {
    assert_eq!(calculate_relevance_score("FIREFOX", "Firefox", "", &[]), 1000);
    assert_eq!(calculate_relevance_score("Fire", "firefox", "", &[]), 500);
}

#[test]
fn exact_name_beats_every_other_name() {
    let exact = calculate_relevance_score("files", "Files", "", &[]);
    let prefix = calculate_relevance_score("files", "Files Manager", "files", &[]);
    assert_eq!(exact, 1000);
    assert!(exact > prefix);
}

#[test]
fn fuzzy_match_ignores_case() {
    assert!(fuzzy_match("Visual Studio Code", "vsc"));
    assert!(!fuzzy_match("Visual Studio Code", "csv"));
}

#[test]
fn truncate_text_trims_first() {
    assert_eq!(truncate_text("   padded   ", 10), "padded");
    assert_eq!(truncate_text("abcdef", 2), "...");
}

#[test]
fn generated_ids_are_stable_and_prefixed() {
    let a = generate_id("app", "Firefox");
    let b = generate_id("app", "Firefox");
    let c = generate_id("app", "Files");
    assert_eq!(a, b);
    assert_ne!(a, c);
    assert!(a.starts_with("app_"));
    assert!(a["app_".len()..].chars().all(|ch| ch.is_ascii_hexdigit() && !ch.is_ascii_uppercase()));
    assert!(a.len() > "app_".len());
}

#[test]
fn truncate_text_counts_utf8_bytes() {
    assert_eq!(truncate_text("éééééé", 7), "éé...");
    assert_eq!(truncate_text("ééé", 6), "ééé");
    assert_eq!(truncate_text("aéé", 4), "a...");
    // a character that would cross the cut is left out whole
    assert_eq!(truncate_text("ééé", 4), "...");
    assert_eq!(truncate_text("日本語テキスト", 9), "日本...");
}

#[test]
fn relevance_over_lowered_text() {
    let cats = vec!["webbrowser".to_string()];
    assert_eq!(relevance_of_lowered("fire", "firefox", "", &cats), 500);
    assert_eq!(relevance_of_lowered("Fire", "firefox", "", &cats), 0);
    assert_eq!(relevance_of_lowered("webb", "firefox", "", &cats), 50);
}
