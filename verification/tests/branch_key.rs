use jira_commit_hook::get_jira_issue_key;

fn key_of(branch: &str) -> Option<String> {
    get_jira_issue_key(branch.to_string())
}

#[test]
fn test_get_issue_key() {
    let result = get_jira_issue_key("feature/NTA-1996-this-is-a-branch".to_string());
    let expect = Some("NTA-1996".to_string());
    assert_eq!(expect, result)
}

#[test]
fn should_return_none_if_not_a_feature() {
    let result = get_jira_issue_key("NTA-1996-this-is-a-branch".to_string());
    assert!(result.is_none())
}

#[test]
fn bugfix_branch_has_a_key() {
    assert_eq!(key_of("bugfix/ABC-7-fix-the-thing"), Some("ABC-7".to_string()));
}

#[test]
fn key_differs_from_the_branch_name() {
    let branch = "feature/NTA-1996-this-is-a-branch";
    let key = key_of(branch).unwrap();
    assert_ne!(key, branch);
    assert_eq!(key.len(), 8);
}

#[test]
fn key_keeps_its_case() {
    assert_eq!(key_of("feature/nta-12-lower"), Some("nta-12".to_string()));
    assert_eq!(key_of("feature/NtA-12-mixed"), Some("NtA-12".to_string()));
}

#[test]
fn free_text_may_be_empty() {
    assert_eq!(key_of("feature/NTA-1-"), Some("NTA-1".to_string()));
}

#[test]
fn free_text_may_hold_anything_on_one_line() {
    assert_eq!(key_of("feature/NTA-1--"), Some("NTA-1".to_string()));
    assert_eq!(key_of("feature/NTA-1-a/b c\r\u{e9}#"), Some("NTA-1".to_string()));
    assert_eq!(key_of("bugfix/X-0-feature/Y-1-z"), Some("X-0".to_string()));
}

#[test]
fn hyphen_after_the_digits_is_required() {
    assert_eq!(key_of("feature/NTA-1996"), None);
    assert_eq!(key_of("feature/NTA-1996x-rest"), None);
    assert_eq!(key_of("feature/NTA-1996_rest"), None);
}

#[test]
fn letters_and_digits_are_required() {
    assert_eq!(key_of("feature/-1996-rest"), None);
    assert_eq!(key_of("feature/NTA--rest"), None);
    assert_eq!(key_of("feature/NTA-rest"), None);
    assert_eq!(key_of("feature/1996-NTA-rest"), None);
    assert_eq!(key_of("feature/NT4-1996-rest"), None);
}

#[test]
fn only_ascii_letters_and_digits_count() {
    assert_eq!(key_of("feature/NT\u{c4}-1996-rest"), None);
    assert_eq!(key_of("feature/NTA-\u{661}\u{662}-rest"), None);
    assert_eq!(key_of("feature/NTA-1\u{662}-rest"), None);
}

#[test]
fn other_branches_have_no_key() {
    assert_eq!(key_of("main"), None);
    assert_eq!(key_of("develop"), None);
    assert_eq!(key_of(""), None);
    assert_eq!(key_of("hotfix/NTA-1996-rest"), None);
    assert_eq!(key_of("Feature/NTA-1996-rest"), None);
    assert_eq!(key_of("feature-NTA-1996-rest"), None);
    assert_eq!(key_of("feature/"), None);
    assert_eq!(key_of("bugfix"), None);
}

#[test]
fn prefix_stands_at_the_start() {
    assert_eq!(key_of("my/feature/NTA-1996-rest"), None);
    assert_eq!(key_of(" feature/NTA-1996-rest"), None);
    assert_eq!(key_of("\nfeature/NTA-1996-rest"), None);
}

#[test]
fn free_text_holds_no_line_feed() {
    assert_eq!(key_of("feature/NTA-1996-rest\n"), None);
    assert_eq!(key_of("feature/NTA-1996-re\nst"), None);
    assert_eq!(key_of("feature/NTA-1996-\n"), None);
}
