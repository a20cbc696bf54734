use todo_scan::markdown::deadline_text;
use todo_scan::model::{Deadline, Priority, Tag, TodoItem};
use todo_scan::sarif::rule_id;
use todo_scan::scanner::extract_issue_ref;

fn make_item(file: &str, line: usize, tag: Tag, message: &str) -> TodoItem {
    TodoItem {
        file: file.to_string(),
        line,
        tag,
        message: message.to_string(),
        author: None,
        issue_ref: None,
        priority: Priority::Normal,
        deadline: None,
    }
}

#[test]
fn test_tag_as_str_values() {
    assert_eq!(Tag::Todo.as_str(), "TODO");
    assert_eq!(Tag::Fixme.as_str(), "FIXME");
    assert_eq!(Tag::Hack.as_str(), "HACK");
    assert_eq!(Tag::Xxx.as_str(), "XXX");
    assert_eq!(Tag::Bug.as_str(), "BUG");
    assert_eq!(Tag::Note.as_str(), "NOTE");
}

#[test]
fn test_tag_from_str_case_insensitive() {
    assert_eq!(Tag::from_str("todo"), Some(Tag::Todo));
    assert_eq!(Tag::from_str("Todo"), Some(Tag::Todo));
    assert_eq!(Tag::from_str("FIXME"), Some(Tag::Fixme));
    assert_eq!(Tag::from_str("hack"), Some(Tag::Hack));
    assert_eq!(Tag::from_str("xxx"), Some(Tag::Xxx));
    assert_eq!(Tag::from_str("bug"), Some(Tag::Bug));
    assert_eq!(Tag::from_str("note"), Some(Tag::Note));
    assert_eq!(Tag::from_str("WARN"), None);
    assert_eq!(Tag::from_str(""), None);
}

#[test]
fn test_tag_severity_ordering() {
    assert_eq!(Tag::Note.severity(), 0);
    assert_eq!(Tag::Todo.severity(), 1);
    assert_eq!(Tag::Hack.severity(), 2);
    assert_eq!(Tag::Xxx.severity(), 3);
    assert_eq!(Tag::Fixme.severity(), 4);
    assert_eq!(Tag::Bug.severity(), 5);
}

#[test]
fn test_match_key_normalises_message() {
    let item = make_item("src/app.rs", 10, Tag::Fixme, "  Memory Leak ");
    assert_eq!(item.match_key(), "src/app.rs:FIXME:memory leak");
}

#[test]
fn test_match_key_ignores_line_number() {
    let a = make_item("a.rs", 1, Tag::Todo, "task");
    let b = make_item("a.rs", 99, Tag::Todo, "task");
    assert_eq!(a.match_key(), b.match_key());
}

#[test]
fn test_match_key_differs_on_tag() {
    let a = make_item("a.rs", 1, Tag::Todo, "task");
    let b = make_item("a.rs", 1, Tag::Fixme, "task");
    assert_ne!(a.match_key(), b.match_key());
}

#[test]
fn test_extract_issue_ref_prefers_leftmost() {
    assert_eq!(
        extract_issue_ref("see #1 and PROJ-2"),
        Some("#1".to_string())
    );
    assert_eq!(
        extract_issue_ref("PROJ-2 before #1"),
        Some("PROJ-2".to_string())
    );
}

#[test]
fn test_extract_issue_ref_requires_digits() {
    assert_eq!(extract_issue_ref("hash # alone"), None);
    assert_eq!(extract_issue_ref("KEY- alone"), None);
    assert_eq!(extract_issue_ref("lower-1 key"), None);
}

#[test]
fn test_rule_id_format() {
    assert_eq!(rule_id(&Tag::Todo), "todo-scan/TODO");
    assert_eq!(rule_id(&Tag::Bug), "todo-scan/BUG");
}

#[test]
fn test_deadline_text_pads_fields() {
    let d = Deadline { year: 2025, month: 6, day: 15 };
    assert_eq!(deadline_text(&d), "2025-06-15");
    let early = Deadline { year: 801, month: 11, day: 3 };
    assert_eq!(deadline_text(&early), "0801-11-03");
}
