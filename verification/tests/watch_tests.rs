use regex::Regex;
use todo_scan::config::Config;
use todo_scan::model::{Tag, TodoItem};
use todo_scan::scanner::scan_content;
use todo_scan::watch::{
    build_watch_event, collect_changed_files, process_event, FileContent, PathEvent, TodoIndex,
};

fn scan(content: &str, file: &str) -> Vec<TodoItem> {
    let config = Config::default();
    let re = Regex::new(&config.tags_pattern()).unwrap();
    scan_content(content, file, &re).items
}

/// Builds an index over the given files' contents, as a full scan would.
fn setup_index(files: &[(&str, &str)]) -> TodoIndex {
    let mut items: Vec<TodoItem> = Vec::new();
    for (path, content) in files {
        items.extend(scan(content, path));
    }
    let config = Config::default();
    TodoIndex::new(&items, &config).unwrap()
}

fn text(content: &str) -> FileContent {
    FileContent::Text(content.to_string())
}

#[test]
fn test_index_new_populates_items() {
    let index = setup_index(&[
        ("a.rs", "// TODO: first\n// FIXME: second\n"),
        ("b.rs", "// HACK: third\n"),
    ]);

    assert_eq!(index.total_count(), 3);
}

#[test]
fn test_index_tag_counts() {
    let index = setup_index(&[
        ("a.rs", "// TODO: one\n// TODO: two\n"),
        ("b.rs", "// FIXME: three\n"),
    ]);

    let counts = index.tag_counts();
    let todo_count = counts.iter().find(|(t, _)| *t == Tag::Todo).map(|(_, c)| *c);
    let fixme_count = counts.iter().find(|(t, _)| *t == Tag::Fixme).map(|(_, c)| *c);

    assert_eq!(todo_count, Some(2));
    assert_eq!(fixme_count, Some(1));
}

#[test]
fn test_index_update_file_detects_added() {
    let mut index = setup_index(&[("a.rs", "// TODO: original\n")]);

    assert_eq!(index.total_count(), 1);

    // Add a second annotation
    let update = index.update_file("a.rs", &text("// TODO: original\n// FIXME: new one\n"));
    assert_eq!(update.added.len(), 1);
    assert_eq!(update.added[0].tag, Tag::Fixme);
    assert!(update.removed.is_empty());
    assert_eq!(index.total_count(), 2);
}

#[test]
fn test_index_update_file_detects_removed() {
    let mut index = setup_index(&[("a.rs", "// TODO: one\n// FIXME: two\n")]);

    assert_eq!(index.total_count(), 2);

    // Remove the FIXME
    let update = index.update_file("a.rs", &text("// TODO: one\n"));
    assert!(update.added.is_empty());
    assert_eq!(update.removed.len(), 1);
    assert_eq!(update.removed[0].tag, Tag::Fixme);
    assert_eq!(index.total_count(), 1);
}

#[test]
fn test_index_update_file_unchanged() {
    let mut index = setup_index(&[("a.rs", "// TODO: same\n")]);

    let update = index.update_file("a.rs", &text("// TODO: same\n"));
    assert!(update.added.is_empty());
    assert!(update.removed.is_empty());
}

#[test]
fn test_index_remove_file() {
    let mut index = setup_index(&[("a.rs", "// TODO: gone\n// FIXME: also gone\n")]);

    assert_eq!(index.total_count(), 2);

    let removed = index.remove_file("a.rs");
    assert_eq!(removed.len(), 2);
    assert_eq!(index.total_count(), 0);
}

#[test]
fn test_index_remove_nonexistent_file() {
    let mut index = setup_index(&[("a.rs", "// TODO: exists\n")]);

    let removed = index.remove_file("nonexistent.rs");
    assert!(removed.is_empty());
    assert_eq!(index.total_count(), 1);
}

#[test]
fn test_should_exclude_dirs() {
    let config = Config {
        exclude_dirs: vec!["node_modules".to_string()],
        ..Config::default()
    };
    let index = TodoIndex::new(&vec![], &config).unwrap();

    assert!(index.should_exclude("node_modules/foo.js"));
    assert!(!index.should_exclude("src/main.rs"));
}

#[test]
fn test_should_exclude_patterns() {
    let config = Config {
        exclude_patterns: vec![r"\.min\.js$".to_string()],
        ..Config::default()
    };
    let index = TodoIndex::new(&vec![], &config).unwrap();

    assert!(index.should_exclude("dist/bundle.min.js"));
    assert!(!index.should_exclude("src/app.js"));
}

#[test]
fn test_collect_changed_files_dedup() {
    let events = vec![
        PathEvent { rel_path: Some("test.rs".to_string()), settled: true },
        PathEvent { rel_path: Some("test.rs".to_string()), settled: true },
    ];

    let files = collect_changed_files(&events);
    assert_eq!(files.len(), 1);
    assert_eq!(files[0], "test.rs");
}

#[test]
fn test_update_file_skips_oversized_file() {
    let mut index = setup_index(&[("big.rs", "// TODO: exists\n")]);
    assert_eq!(index.total_count(), 1);

    // The file grew past the size ceiling: it is treated as holding zero
    // annotations, without reading its content.
    let update = index.update_file("big.rs", &FileContent::Oversized);
    // The existing annotation should be removed (file is now too large to scan)
    assert_eq!(update.removed.len(), 1);
    assert!(update.added.is_empty());
    // Index should no longer contain items for this file
    assert_eq!(index.total_count(), 0);
}

#[test]
fn test_build_watch_event_delta() {
    let mut index = setup_index(&[("a.rs", "// TODO: one\n")]);

    let previous_total = index.total_count();

    let update = index.update_file(
        "a.rs",
        &text("// TODO: one\n// TODO: two\n// TODO: three\n"),
    );
    let event = build_watch_event("a.rs", &update, &index, previous_total, String::new());

    assert_eq!(event.total, 3);
    assert_eq!(event.total_delta, 2);
    assert_eq!(event.added.len(), 2);
    assert!(event.removed.is_empty());
}

#[test]
fn test_collect_changed_files_skips_non_any_kind() {
    // Events that have not settled are skipped.
    let events = vec![
        PathEvent { rel_path: Some("test.rs".to_string()), settled: false },
        PathEvent { rel_path: Some("other.rs".to_string()), settled: false },
    ];

    let files = collect_changed_files(&events);
    assert!(files.is_empty(), "unsettled events should be skipped");
}

#[test]
fn test_collect_changed_files_skips_unstrippable_prefix() {
    // Events whose path lies outside the watched root carry no relative
    // path and are skipped.
    let events = vec![PathEvent { rel_path: None, settled: true }];

    let files = collect_changed_files(&events);
    assert!(files.is_empty(), "paths outside the root should be skipped");
}

#[test]
fn test_build_watch_event_negative_delta() {
    let mut index = setup_index(&[("a.rs", "// TODO: one\n// TODO: two\n// TODO: three\n")]);

    let previous_total = index.total_count();
    assert_eq!(previous_total, 3);

    // Remove two annotations
    let update = index.update_file("a.rs", &text("// TODO: one\n"));
    let event = build_watch_event("a.rs", &update, &index, previous_total, String::new());

    assert_eq!(event.total, 1);
    assert_eq!(event.total_delta, -2);
    assert!(event.added.is_empty());
    assert_eq!(event.removed.len(), 2);
}

#[test]
fn test_build_watch_event_zero_delta() {
    let mut index = setup_index(&[("a.rs", "// TODO: one\n")]);

    let previous_total = index.total_count();
    assert_eq!(previous_total, 1);

    // No file changes, simulate an unchanged update
    let update = index.update_file("a.rs", &text("// TODO: one\n"));
    let event = build_watch_event("a.rs", &update, &index, previous_total, String::new());

    assert_eq!(event.total, 1);
    assert_eq!(event.total_delta, 0);
    assert!(event.added.is_empty());
    assert!(event.removed.is_empty());
}

#[test]
fn test_update_file_no_todos_removes_entry() {
    let mut index = setup_index(&[("a.rs", "// TODO: something\n")]);
    assert_eq!(index.total_count(), 1);

    // Overwrite file with no annotations
    let update = index.update_file("a.rs", &text("fn main() {}\n"));
    assert_eq!(update.removed.len(), 1);
    assert!(update.added.is_empty());
    assert_eq!(index.total_count(), 0);
    // The index must not retain an empty entry for "a.rs": evicting the
    // file now returns nothing.
    assert!(
        index.remove_file("a.rs").is_empty(),
        "Empty file entry should not remain in items map"
    );
}

#[test]
fn test_should_exclude_nested_dir() {
    let config = Config {
        exclude_dirs: vec!["node_modules".to_string()],
        ..Config::default()
    };
    let index = TodoIndex::new(&vec![], &config).unwrap();

    // node_modules as a nested component should be excluded
    assert!(index.should_exclude("foo/node_modules/bar.js"));
    assert!(index.should_exclude("deep/nested/node_modules/package/index.js"));
    // A file that merely contains "node_modules" in its name should NOT be excluded
    assert!(!index.should_exclude("src/not_node_modules_related.js"));
}

#[test]
fn test_should_exclude_invalid_regex_skipped() {
    let config = Config {
        exclude_patterns: vec![
            r"\.min\.js$".to_string(),  // valid
            r"[invalid".to_string(),    // invalid regex (unclosed bracket)
            r"\.test\.js$".to_string(), // valid
        ],
        ..Config::default()
    };
    let index = TodoIndex::new(&vec![], &config).unwrap();

    // The invalid pattern is silently skipped; the valid ones still apply.
    assert!(index.should_exclude("bundle.min.js"));
    assert!(index.should_exclude("app.test.js"));
    assert!(!index.should_exclude("src/app.js"));
}

#[test]
fn test_index_new_with_no_todo_files() {
    let index = setup_index(&[
        ("a.rs", "fn main() {}\n"),
        ("b.rs", "// just a comment\nlet x = 1;\n"),
    ]);

    assert_eq!(index.total_count(), 0);
}

#[test]
fn test_tag_counts_when_empty() {
    let index = setup_index(&[("a.rs", "fn main() {}\n")]);

    let counts = index.tag_counts();
    assert!(counts.is_empty(), "Empty index should return empty tag counts");
}

#[test]
fn test_collect_changed_files_mixed_kinds() {
    let events = vec![
        PathEvent { rel_path: Some("first.rs".to_string()), settled: true },
        PathEvent { rel_path: Some("skipped.rs".to_string()), settled: false },
        PathEvent { rel_path: Some("second.rs".to_string()), settled: true },
    ];

    let files = collect_changed_files(&events);
    assert_eq!(files.len(), 2);
    assert!(files.contains(&"first.rs".to_string()));
    assert!(files.contains(&"second.rs".to_string()));
    assert!(!files.contains(&"skipped.rs".to_string()));
}

#[test]
fn test_build_watch_event_tag_summary_content() {
    let index = setup_index(&[("a.rs", "// TODO: one\n// FIXME: two\n// TODO: three\n")]);

    let update = todo_scan::model::FileUpdate { added: vec![], removed: vec![] };
    let event = build_watch_event("a.rs", &update, &index, index.total_count(), String::new());

    // tag_summary should contain TODO=2 and FIXME=1
    let todo_count = event.tag_summary.iter().find(|(tag, _)| tag == "TODO").map(|(_, c)| *c);
    let fixme_count = event.tag_summary.iter().find(|(tag, _)| tag == "FIXME").map(|(_, c)| *c);

    assert_eq!(todo_count, Some(2));
    assert_eq!(fixme_count, Some(1));
    assert_eq!(event.total, 3);
    assert_eq!(event.total_delta, 0);
    assert_eq!(event.file, "a.rs");
}

#[test]
fn test_build_watch_event_empty_index() {
    let index = setup_index(&[("a.rs", "fn main() {}\n")]);

    let update = todo_scan::model::FileUpdate { added: vec![], removed: vec![] };
    let event = build_watch_event("a.rs", &update, &index, 0, String::new());

    assert_eq!(event.total, 0);
    assert_eq!(event.total_delta, 0);
    assert!(event.tag_summary.is_empty());
}

#[test]
fn test_update_file_new_file_not_in_index() {
    let mut index = setup_index(&[("a.rs", "fn main() {}\n")]);
    assert_eq!(index.total_count(), 0);

    // A new file with one annotation appears
    let update = index.update_file("b.rs", &text("// TODO: new file\n"));
    assert_eq!(update.added.len(), 1);
    assert!(update.removed.is_empty());
    assert_eq!(index.total_count(), 1);
}

#[test]
fn test_should_exclude_multiple_dirs() {
    let config = Config {
        exclude_dirs: vec![
            "node_modules".to_string(),
            ".git".to_string(),
            "target".to_string(),
        ],
        ..Config::default()
    };
    let index = TodoIndex::new(&vec![], &config).unwrap();

    assert!(index.should_exclude("node_modules/package/lib.js"));
    assert!(index.should_exclude(".git/objects/abc"));
    assert!(index.should_exclude("target/debug/build/foo.rs"));
    assert!(!index.should_exclude("src/lib.rs"));
}

#[test]
fn test_total_count_multiple_files() {
    let index = setup_index(&[
        ("a.rs", "// TODO: a1\n// TODO: a2\n"),
        ("b.rs", "// FIXME: b1\n"),
        ("c.rs", "// HACK: c1\n// BUG: c2\n// NOTE: c3\n"),
    ]);

    assert_eq!(index.total_count(), 6);
}

#[test]
fn test_collect_changed_files_empty_events() {
    let events: Vec<PathEvent> = vec![];

    let files = collect_changed_files(&events);
    assert!(files.is_empty());
}

#[test]
fn test_process_event_skips_excluded_path() {
    let config = Config {
        exclude_dirs: vec!["target".to_string()],
        ..Config::default()
    };
    let mut index = TodoIndex::new(&vec![], &config).unwrap();

    let event = process_event(
        &mut index,
        "target/gen.rs",
        Some(&text("// TODO: generated\n")),
        String::new(),
        &vec![],
    );
    assert!(event.is_none());
    assert_eq!(index.total_count(), 0);
}

#[test]
fn test_process_event_vanished_file_reports_removals() {
    let mut index = setup_index(&[("a.rs", "// TODO: one\n// FIXME: two\n")]);

    let event = process_event(&mut index, "a.rs", None, String::new(), &vec![])
        .expect("removals should produce an event");
    assert!(event.added.is_empty());
    assert_eq!(event.removed.len(), 2);
    assert_eq!(event.total, 0);
    assert_eq!(event.total_delta, -2);
}

#[test]
fn test_process_event_suppresses_noop_update() {
    let mut index = setup_index(&[("a.rs", "// TODO: one\n")]);

    let event = process_event(
        &mut index,
        "a.rs",
        Some(&text("// TODO: one\n")),
        String::new(),
        &vec![],
    );
    assert!(event.is_none(), "no-op changes produce no output");
}

#[test]
fn test_process_event_tag_filter_suppresses_event() {
    let mut index = setup_index(&[("a.rs", "// TODO: one\n")]);

    // The update only adds a FIXME, but the filter only shows NOTE.
    let event = process_event(
        &mut index,
        "a.rs",
        Some(&text("// TODO: one\n// FIXME: two\n")),
        String::new(),
        &vec![Tag::Note],
    );
    assert!(event.is_none(), "filtering away every delta suppresses the event");
    // The index itself was still updated.
    assert_eq!(index.total_count(), 2);
}

#[test]
fn test_process_event_tag_filter_keeps_matching() {
    let mut index = setup_index(&[("a.rs", "// TODO: one\n")]);

    let event = process_event(
        &mut index,
        "a.rs",
        Some(&text("// TODO: one\n// FIXME: two\n// NOTE: three\n")),
        String::new(),
        &vec![Tag::Fixme],
    )
    .expect("a matching delta should produce an event");
    assert_eq!(event.added.len(), 1);
    assert_eq!(event.added[0].tag, Tag::Fixme);
    assert!(event.removed.is_empty());
    assert_eq!(event.total, 3);
}

#[test]
fn test_index_new_rejects_invalid_pattern() {
    // A tag vocabulary that breaks the pattern makes index construction
    // fail, returning the offending pattern source.
    let config = Config { tags: vec!["(".to_string()], ..Config::default() };
    let err = match TodoIndex::new(&vec![], &config) {
        Ok(_) => panic!("an invalid pattern must be rejected"),
        Err(p) => p,
    };
    assert!(err.contains("("));
}
