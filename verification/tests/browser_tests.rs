use ez_workspaces::browser::parse_label_input;
use ez_workspaces::browser::{format_age, format_pr_indicator, on_create_is_noop, SortMode, Tint};

#[test]
fn parses_add_and_remove() {
    let (a, r) = parse_label_input("foo, bar, -baz");
    assert_eq!(a, vec!["foo", "bar"]);
    assert_eq!(r, vec!["baz"]);
}

#[test]
fn empty_input() {
    let (a, r) = parse_label_input("");
    assert!(a.is_empty());
    assert!(r.is_empty());
}

#[test]
fn ignores_bare_dash() {
    let (a, r) = parse_label_input("-");
    assert!(a.is_empty());
    assert!(r.is_empty());
}

#[test]
fn label_input_trims_removed_names_and_skips_blanks() {
    let (a, r) = parse_label_input(" x ,, - y , -  ");
    assert_eq!(a, vec!["x"]);
    assert_eq!(r, vec!["y"]);
}

#[test]
fn sort_mode_toggles_and_labels() {
    assert_eq!(SortMode::Alpha.toggle(), SortMode::Lru);
    assert_eq!(SortMode::Lru.toggle(), SortMode::Alpha);
    assert_eq!(SortMode::Alpha.label(), "A-Z");
    assert_eq!(SortMode::Lru.label(), "LRU");
}

#[test]
fn sort_mode_from_config_ignores_ascii_case() {
    assert_eq!(SortMode::from_config("LrU"), SortMode::Lru);
    assert_eq!(SortMode::from_config("alpha"), SortMode::Alpha);
    assert_eq!(SortMode::from_config(""), SortMode::Alpha);
}

#[test]
fn on_create_noop_values() {
    assert!(on_create_is_noop(""));
    assert!(on_create_is_noop("none"));
    assert!(!on_create_is_noop("cd"));
}

#[test]
fn pr_badge_by_status() {
    let env = vec![
        ("ez_pr_number".to_string(), "42".to_string()),
        ("ez_pr_status".to_string(), "merged".to_string()),
    ];
    let b = format_pr_indicator(&env).unwrap();
    assert_eq!(b.text, "[PR #42 merged]");
    assert_eq!(b.tint, Tint::Magenta);
    let env = vec![
        ("ez_pr_status".to_string(), "closed".to_string()),
        ("ez_pr_number".to_string(), "7".to_string()),
    ];
    let b = format_pr_indicator(&env).unwrap();
    assert_eq!(b.text, "[PR #7 closed]");
    assert_eq!(b.tint, Tint::Red);
    let env = vec![("ez_pr_number".to_string(), "9".to_string())];
    let b = format_pr_indicator(&env).unwrap();
    assert_eq!(b.text, "[PR #9]");
    assert_eq!(b.tint, Tint::Green);
    assert!(format_pr_indicator(&Vec::new()).is_none());
}

#[test]
fn age_text_units() {
    assert_eq!(format_age(-5000), "0s ago");
    assert_eq!(format_age(59_999), "59s ago");
    assert_eq!(format_age(60_000), "1m ago");
    assert_eq!(format_age(3 * 3_600_000 + 5), "3h ago");
    assert_eq!(format_age(2 * 86_400_000), "2d ago");
}

#[test]
fn last_accessed_keeps_text_that_is_no_timestamp() {
    assert_eq!(
        ez_workspaces::browser::format_last_accessed("yesterday"),
        "yesterday"
    );
    let t = ez_workspaces::browser::format_last_accessed_at("2024-01-01T00:00:00Z", 1_704_067_200_000 + 7_200_000);
    assert_eq!(t, "2h ago");
}
