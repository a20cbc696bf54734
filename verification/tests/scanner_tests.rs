use regex::Regex;
use todo_scan::config::Config;
use todo_scan::model::{Priority, Tag};
use todo_scan::scanner::{extract_issue_ref, scan_content};

fn default_pattern() -> Regex {
    let config = Config::default();
    Regex::new(&config.tags_pattern()).unwrap()
}

#[test]
fn test_basic_todo_detection() {
    let pattern = default_pattern();
    let content = "// TODO: implement this feature\n";
    let items = scan_content(content, "test.rs", &pattern).items;

    assert_eq!(items.len(), 1);
    assert_eq!(items[0].tag, Tag::Todo);
    assert_eq!(items[0].message, "implement this feature");
    assert_eq!(items[0].file, "test.rs");
    assert_eq!(items[0].line, 1);
    assert_eq!(items[0].priority, Priority::Normal);
    assert!(items[0].author.is_none());
}

#[test]
fn test_fixme_with_author() {
    let pattern = default_pattern();
    let content = "// FIXME(alice): broken parsing logic\n";
    let items = scan_content(content, "lib.rs", &pattern).items;

    assert_eq!(items.len(), 1);
    assert_eq!(items[0].tag, Tag::Fixme);
    assert_eq!(items[0].author.as_deref(), Some("alice"));
    assert_eq!(items[0].message, "broken parsing logic");
}

#[test]
fn test_priority_high() {
    let pattern = default_pattern();
    let content = "# TODO: ! fix memory leak\n";
    let items = scan_content(content, "main.py", &pattern).items;

    assert_eq!(items.len(), 1);
    assert_eq!(items[0].priority, Priority::High);
}

#[test]
fn test_priority_urgent() {
    let pattern = default_pattern();
    let content = "// BUG: !! crashes on empty input\n";
    let items = scan_content(content, "app.rs", &pattern).items;

    assert_eq!(items.len(), 1);
    assert_eq!(items[0].tag, Tag::Bug);
    assert_eq!(items[0].priority, Priority::Urgent);
}

#[test]
fn test_issue_ref_hash() {
    let pattern = default_pattern();
    let content = "// TODO: fix layout issue #123\n";
    let items = scan_content(content, "ui.rs", &pattern).items;

    assert_eq!(items.len(), 1);
    assert_eq!(items[0].issue_ref.as_deref(), Some("#123"));
}

#[test]
fn test_issue_ref_jira() {
    let pattern = default_pattern();
    let content = "// FIXME: address JIRA-456 regression\n";
    let items = scan_content(content, "api.rs", &pattern).items;

    assert_eq!(items.len(), 1);
    assert_eq!(items[0].issue_ref.as_deref(), Some("JIRA-456"));
}

#[test]
fn test_case_insensitivity() {
    let pattern = default_pattern();
    let content = "// todo: lowercase tag\n// Todo: mixed case\n// TODO: uppercase\n";
    let items = scan_content(content, "test.rs", &pattern).items;

    assert_eq!(items.len(), 3);
    for item in &items {
        assert_eq!(item.tag, Tag::Todo);
    }
}

#[test]
fn test_multiple_tags_in_content() {
    let pattern = default_pattern();
    let content = "\
// TODO: first task
fn foo() {}
// FIXME(bob): second task
// HACK: workaround for upstream bug
// NOTE: remember to update docs
";
    let items = scan_content(content, "multi.rs", &pattern).items;

    assert_eq!(items.len(), 4);
    assert_eq!(items[0].tag, Tag::Todo);
    assert_eq!(items[1].tag, Tag::Fixme);
    assert_eq!(items[1].author.as_deref(), Some("bob"));
    assert_eq!(items[2].tag, Tag::Hack);
    assert_eq!(items[3].tag, Tag::Note);
}

#[test]
fn test_line_numbers_are_correct() {
    let pattern = default_pattern();
    let content = "\
line one
// TODO: on line two
line three
line four
// FIXME: on line five
";
    let items = scan_content(content, "lines.rs", &pattern).items;

    assert_eq!(items.len(), 2);
    assert_eq!(items[0].line, 2);
    assert_eq!(items[1].line, 5);
}

#[test]
fn test_xxx_tag() {
    let pattern = default_pattern();
    let content = "// XXX: dangerous code path\n";
    let items = scan_content(content, "danger.rs", &pattern).items;

    assert_eq!(items.len(), 1);
    assert_eq!(items[0].tag, Tag::Xxx);
}

#[test]
fn test_no_match_on_plain_text() {
    let pattern = default_pattern();
    let content = "This is just a regular comment with no tags.\n";
    let items = scan_content(content, "plain.rs", &pattern).items;

    assert!(items.is_empty());
}

#[test]
fn test_author_with_special_chars() {
    let pattern = default_pattern();
    let content = "// TODO(user@domain.com): email-style author\n";
    let items = scan_content(content, "test.rs", &pattern).items;

    assert_eq!(items.len(), 1);
    assert_eq!(items[0].author.as_deref(), Some("user@domain.com"));
}

#[test]
fn test_extract_issue_ref_function() {
    assert_eq!(extract_issue_ref("fix #42"), Some("#42".to_string()));
    assert_eq!(extract_issue_ref("see PROJ-100"), Some("PROJ-100".to_string()));
    assert_eq!(extract_issue_ref("no reference here"), None);
}
