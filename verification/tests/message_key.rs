use jira_commit_hook::{
    add_jira_key_to_commit_message, get_commit_message_without_comments, get_jira_issue_key,
    prepend_key,
};

#[test]
fn should_add_issue_key() {
    let issue_key = "NTA-2027".to_string();
    let message = "commit message".to_string();
    let expect = "[NTA-2027] commit message".to_string();

    let result = add_jira_key_to_commit_message(message, issue_key);

    assert_eq!(expect, result)
}

#[test]
fn should_ignore_issue_key_when_already_present() {
    let issue_key = "NTA-2027".to_string();
    let message = "[NTA-2027] commit message".to_string();
    let expect = "[NTA-2027] commit message".to_string();

    let result = add_jira_key_to_commit_message(message, issue_key);

    assert_eq!(expect, result)
}

#[test]
fn prepend_puts_the_key_in_front() {
    let out = prepend_key("commit message".to_string(), "NTA-2027");
    assert_eq!(out.message, "[NTA-2027] commit message");
    assert!(!out.already_present);
}

#[test]
fn prepend_leaves_a_body_that_holds_the_key() {
    for body in ["[NTA-2027] commit message", "fixes NTA-2027", "xNTA-20270", "NTA-2027"] {
        let out = prepend_key(body.to_string(), "NTA-2027");
        assert_eq!(out.message, body);
        assert!(out.already_present);
    }
}

#[test]
fn prepend_goes_by_the_exact_key() {
    let out = prepend_key("nta-2027 and NTA-202".to_string(), "NTA-2027");
    assert_eq!(out.message, "[NTA-2027] nta-2027 and NTA-202");
    assert!(!out.already_present);
}

#[test]
fn prepend_to_an_empty_body() {
    let out = prepend_key(String::new(), "NTA-1");
    assert_eq!(out.message, "[NTA-1] ");
    assert!(!out.already_present);
}

#[test]
fn prepend_of_an_empty_key_changes_nothing() {
    let out = prepend_key("commit message".to_string(), "");
    assert_eq!(out.message, "commit message");
    assert!(out.already_present);
}

#[test]
fn prepend_twice_is_prepend_once() {
    let once = prepend_key("commit message".to_string(), "NTA-2027");
    let twice = prepend_key(once.message.clone(), "NTA-2027");
    assert_eq!(twice.message, once.message);
    assert!(twice.already_present);
}

#[test]
fn key_is_looked_for_in_the_body_only() {
    let draft = "commit message\n# branch feature/NTA-2027-x\n".to_string();
    let result = add_jira_key_to_commit_message(draft, "NTA-2027".to_string());
    assert_eq!(result, "[NTA-2027] commit message");
}

#[test]
fn comments_go_also_where_the_key_is_present() {
    let draft = "NTA-2027: commit message\n# comment\n".to_string();
    let result = add_jira_key_to_commit_message(draft, "NTA-2027".to_string());
    assert_eq!(result, "NTA-2027: commit message");
}

#[test]
fn draft_on_a_tracked_branch_gets_the_key() {
    let branch = "feature/NTA-1996-this-is-a-branch".to_string();
    let draft = "subject line\n\nbody text\n# Please enter the commit message\n  # On branch\n";
    let key = get_jira_issue_key(branch).unwrap();
    let body = get_commit_message_without_comments(draft.to_string());
    let result = add_jira_key_to_commit_message(draft.to_string(), key.clone());
    assert_eq!(result, "[NTA-1996] subject line\n\nbody text");
    assert_eq!(result, format!("[{}] {}", key, body));
    for line in result.lines() {
        assert!(!line.trim_start().starts_with('#'));
    }
}

#[test]
fn draft_of_comments_only_gets_the_key() {
    let key = get_jira_issue_key("bugfix/AB-1-x".to_string()).unwrap();
    let result = add_jira_key_to_commit_message("# nothing yet\n".to_string(), key);
    assert_eq!(result, "[AB-1] ");
}
