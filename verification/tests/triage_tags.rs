use nixvulns::triage::{classify_tag, starts_with, SuggestionIndex, TagKind};

#[test]
fn suggestion_tag_names_package() {
    assert_eq!(classify_tag("suggested:firefox"), TagKind::Suggestion("firefox".to_string()));
}

#[test]
fn suggestion_keeps_later_colons() {
    assert_eq!(classify_tag("suggested:a:b"), TagKind::Suggestion("a:b".to_string()));
}

#[test]
fn suggestion_may_name_empty_package() {
    assert_eq!(classify_tag("suggested:"), TagKind::Suggestion(String::new()));
}

#[test]
fn bare_suggested_has_no_package() {
    assert_eq!(classify_tag("suggested"), TagKind::SuggestionMissing);
}

#[test]
fn other_tags_are_ignored() {
    assert_eq!(classify_tag("needs-triage"), TagKind::Other);
    assert_eq!(classify_tag(""), TagKind::Other);
    assert_eq!(classify_tag("suggestedx"), TagKind::Other);
    assert_eq!(classify_tag("Suggested:foo"), TagKind::Other);
    assert_eq!(classify_tag("suggest"), TagKind::Other);
    assert_eq!(classify_tag("x:suggested:foo"), TagKind::Other);
}

#[test]
fn suggestion_with_non_ascii_package() {
    assert_eq!(classify_tag("suggested:päckage"), TagKind::Suggestion("päckage".to_string()));
}

#[test]
fn prefix_check() {
    assert!(starts_with("suggested:x", "suggested:"));
    assert!(starts_with("abc", ""));
    assert!(!starts_with("sug", "suggested"));
    assert!(!starts_with("xuggested", "suggested"));
}

#[test]
fn threads_are_grouped_by_package_in_first_seen_order() {
    let mut index = SuggestionIndex::new();
    assert_eq!(index.len(), 0);
    assert_eq!(index.record_tag("suggested:firefox", 0), TagKind::Suggestion("firefox".to_string()));
    assert_eq!(index.record_tag("unread", 0), TagKind::Other);
    assert_eq!(index.record_tag("suggested:python", 1), TagKind::Suggestion("python".to_string()));
    assert_eq!(index.record_tag("suggested:firefox", 2), TagKind::Suggestion("firefox".to_string()));
    assert_eq!(index.record_tag("suggested", 3), TagKind::SuggestionMissing);
    assert_eq!(index.len(), 2);
    assert_eq!(index.package(0), "firefox");
    assert_eq!(index.threads(0), &vec![0, 2]);
    assert_eq!(index.package(1), "python");
    assert_eq!(index.threads(1), &vec![1]);
}

#[test]
fn filing_twice_keeps_both_entries() {
    let mut index = SuggestionIndex::new();
    index.file("gcc", 7);
    index.file("gcc", 7);
    assert_eq!(index.len(), 1);
    assert_eq!(index.threads(0), &vec![7, 7]);
}

#[test]
fn ignored_tags_leave_index_unchanged() {
    let mut index = SuggestionIndex::new();
    index.record_tag("inbox", 0);
    index.record_tag("suggested", 0);
    assert_eq!(index.len(), 0);
}
