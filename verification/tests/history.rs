use tepora_core::history::{normalize_role, normalize_title, sanitize_limit, session_preview, title_at};

#[test]
fn limits_are_clamped() {
    assert_eq!(sanitize_limit(0), 1);
    assert_eq!(sanitize_limit(-5), 1);
    assert_eq!(sanitize_limit(50), 50);
    assert_eq!(sanitize_limit(1000), 1000);
    assert_eq!(sanitize_limit(5000), 1000);
}

#[test]
fn unknown_roles_become_human() {
    assert_eq!(normalize_role("ai"), "ai");
    assert_eq!(normalize_role("tool"), "tool");
    assert_eq!(normalize_role("system"), "system");
    assert_eq!(normalize_role("assistant"), "human");
    assert_eq!(normalize_role(""), "human");
}

#[test]
fn titles_are_trimmed_cut_or_dated() {
    assert_eq!(normalize_title(Some("  My chat ".to_string())), "My chat");
    let long = "t".repeat(200);
    assert_eq!(normalize_title(Some(long)).chars().count(), 160);
    assert!(normalize_title(None).starts_with("Session "));
    assert!(normalize_title(Some("   ".to_string())).starts_with("Session "));
}

#[test]
fn previews_take_first_hundred_chars() {
    assert_eq!(session_preview(None), "");
    assert_eq!(session_preview(Some("short".to_string())), "short");
    assert_eq!(session_preview(Some("あ".repeat(150))).chars().count(), 100);
}

#[test]
fn titles_fall_back_to_the_given_time() {
    assert_eq!(title_at(Some("  Trip plan ".to_string()), "2024-03-10 09:30"), "Trip plan");
    assert_eq!(title_at(Some("   ".to_string()), "2024-03-10 09:30"), "Session 2024-03-10 09:30");
    assert_eq!(title_at(None, "2024-03-10 09:30"), "Session 2024-03-10 09:30");
    let long = "x".repeat(200);
    assert_eq!(title_at(Some(long), "t").chars().count(), 160);
}
