use regex::Regex;
use todo_scan::config::Config;
use todo_scan::diff::{
    cmd_diff, compute_diff, detect_changed_files, snapshot_diff, DetailLevel, DiffError,
    DiffOptions, GitOps,
};
use todo_scan::model::{DiffStatus, Priority, ScanResult, Tag, TodoItem};
use todo_scan::scanner::scan_content;

fn make_item(file: &str, line: usize, tag: Tag, message: &str) -> TodoItem {
    TodoItem {
        file: file.to_string(),
        line,
        tag,
        message: message.to_string(),
        author: None,
        issue_ref: None,
        priority: Priority::Normal,
        deadline: None,
    }
}

/// A version-control stub over a fixed base tree.
struct FakeGit {
    /// `Ok`: one path per line; `Err`: listing fails (bad ref / no repo).
    ls_tree: Result<String, String>,
    /// Output of the ref-to-index diff listing.
    diff_ref: Result<String, String>,
    /// Output of the index-to-working-tree diff listing.
    diff_unstaged: Result<String, String>,
    /// Per-path file content at the base ref.
    files: Vec<(String, String)>,
}

impl GitOps for FakeGit {
    fn ls_tree(&self, _base_ref: &str) -> Result<String, String> {
        self.ls_tree.clone()
    }

    fn diff_names(&self, base_ref: Option<&str>) -> Result<String, String> {
        if base_ref.is_some() {
            self.diff_ref.clone()
        } else {
            self.diff_unstaged.clone()
        }
    }

    fn show_file(&self, _base_ref: &str, path: &str) -> Result<String, String> {
        for (p, c) in &self.files {
            if p == path {
                return Ok(c.clone());
            }
        }
        Err(format!("no such file: {}", path))
    }

    fn log_commits(&self) -> Result<String, String> {
        Err("no log".to_string())
    }
}

fn scan(content: &str, file: &str) -> Vec<TodoItem> {
    let config = Config::default();
    let re = Regex::new(&config.tags_pattern()).unwrap();
    scan_content(content, file, &re).items
}

#[test]
fn test_compute_diff_rejects_ref_starting_with_dash() {
    let current = ScanResult { items: vec![], files_scanned: 0, ignored_items: vec![] };
    let config = Config::default();
    let git = FakeGit {
        ls_tree: Ok(String::new()),
        diff_ref: Ok(String::new()),
        diff_unstaged: Ok(String::new()),
        files: vec![],
    };
    let result = compute_diff(&current, "--output=/tmp/leak", &git, &config);
    assert!(result.is_err());
    let err_msg = result.unwrap_err().message();
    assert!(
        err_msg.contains("must not start with '-'"),
        "expected rejection of dash-prefixed ref, got: {err_msg}"
    );
}

#[test]
fn test_compute_diff_no_changes() {
    // No modifications to files after commit - diff should be empty
    let content = "// TODO: existing task\nfn main() {}\n";
    let git = FakeGit {
        ls_tree: Ok("main.rs\n".to_string()),
        diff_ref: Ok(String::new()),
        diff_unstaged: Ok(String::new()),
        files: vec![("main.rs".to_string(), content.to_string())],
    };
    let config = Config::default();
    let current = ScanResult { items: scan(content, "main.rs"), files_scanned: 1, ignored_items: vec![] };
    let result = compute_diff(&current, "HEAD", &git, &config).unwrap();

    assert_eq!(result.added_count, 0);
    assert_eq!(result.removed_count, 0);
    assert!(result.entries.is_empty());
}

#[test]
fn test_compute_diff_empty_scan_results() {
    // Base tree with no annotations at all, and no changes
    let git = FakeGit {
        ls_tree: Ok("main.rs\n".to_string()),
        diff_ref: Ok(String::new()),
        diff_unstaged: Ok(String::new()),
        files: vec![("main.rs".to_string(), "fn main() {}\n".to_string())],
    };
    let current = ScanResult { items: vec![], files_scanned: 1, ignored_items: vec![] };
    let config = Config::default();
    let result = compute_diff(&current, "HEAD", &git, &config).unwrap();

    assert_eq!(result.added_count, 0);
    assert_eq!(result.removed_count, 0);
    assert!(result.entries.is_empty());
}

#[test]
fn test_compute_diff_with_invalid_git_ref() {
    let git = FakeGit {
        ls_tree: Err("unknown revision".to_string()),
        diff_ref: Err("unknown revision".to_string()),
        diff_unstaged: Ok(String::new()),
        files: vec![],
    };
    let current = ScanResult { items: vec![], files_scanned: 0, ignored_items: vec![] };
    let config = Config::default();
    let result = compute_diff(&current, "nonexistent-ref-abc123", &git, &config);

    assert!(result.is_err());
    let err_msg = result.unwrap_err().message();
    assert!(
        err_msg.contains("Failed to list files at ref nonexistent-ref-abc123"),
        "expected error about invalid ref, got: {err_msg}"
    );
}

#[test]
fn test_compute_diff_preserves_base_ref_in_result() {
    let git = FakeGit {
        ls_tree: Ok("main.rs\n".to_string()),
        diff_ref: Ok(String::new()),
        diff_unstaged: Ok(String::new()),
        files: vec![("main.rs".to_string(), "fn main() {}\n".to_string())],
    };
    let current = ScanResult { items: vec![], files_scanned: 1, ignored_items: vec![] };
    let config = Config::default();
    let result = compute_diff(&current, "HEAD", &git, &config).unwrap();
    assert_eq!(result.base_ref, "HEAD");
}

#[test]
fn test_compute_diff_empty_repo_with_empty_current() {
    let git = FakeGit {
        ls_tree: Ok("main.rs\n".to_string()),
        diff_ref: Ok(String::new()),
        diff_unstaged: Ok(String::new()),
        files: vec![("main.rs".to_string(), "\n".to_string())],
    };
    let current = ScanResult { items: vec![], files_scanned: 1, ignored_items: vec![] };
    let config = Config::default();

    let result = compute_diff(&current, "HEAD", &git, &config).unwrap();
    assert_eq!(result.added_count, 0);
    assert_eq!(result.removed_count, 0);
    assert!(result.entries.is_empty());
}

#[test]
fn test_compute_diff_binary_file_in_base_is_skipped() {
    // A base file whose content cannot be fetched is silently skipped.
    let git = FakeGit {
        ls_tree: Ok("data.bin\n".to_string()),
        diff_ref: Ok("data.bin\n".to_string()),
        diff_unstaged: Ok(String::new()),
        files: vec![],
    };
    let current = ScanResult { items: vec![], files_scanned: 1, ignored_items: vec![] };
    let config = Config::default();
    let result = compute_diff(&current, "HEAD", &git, &config);

    assert!(result.is_ok());
}

#[test]
fn test_detect_changed_files_fallback_on_invalid_ref() {
    // When the diff listings fail, detect_changed_files falls back to
    // treating all files (base plus current item files) as changed.
    let base_files = vec!["base.rs".to_string()];
    let current = ScanResult {
        items: vec![make_item("current.rs", 1, Tag::Todo, "task")],
        files_scanned: 1,
        ignored_items: vec![],
    };

    let changed = detect_changed_files(&None, &None, &base_files, &current);

    assert!(
        changed.iter().any(|p| p == "base.rs"),
        "fallback should include base files"
    );
    assert!(
        changed.iter().any(|p| p == "current.rs"),
        "fallback should include current item files"
    );
}

#[test]
fn test_detect_changed_files_fallback_includes_all_base_and_current() {
    // The fallback path returns the union of base files and current item files
    let base_files = vec!["base1.rs".to_string(), "base2.rs".to_string()];
    let current = ScanResult {
        items: vec![
            make_item("current1.rs", 1, Tag::Todo, "t1"),
            make_item("current2.rs", 2, Tag::Fixme, "t2"),
            make_item("base1.rs", 3, Tag::Hack, "t3"), // overlaps with base
        ],
        files_scanned: 3,
        ignored_items: vec![],
    };

    let changed = detect_changed_files(&None, &None, &base_files, &current);

    assert!(changed.iter().any(|p| p == "base1.rs"));
    assert!(changed.iter().any(|p| p == "base2.rs"));
    assert!(changed.iter().any(|p| p == "current1.rs"));
    assert!(changed.iter().any(|p| p == "current2.rs"));
    assert_eq!(changed.len(), 4);
}

#[test]
fn test_detect_changed_files_empty_inputs() {
    let base_files: Vec<String> = vec![];
    let current = ScanResult { items: vec![], files_scanned: 0, ignored_items: vec![] };

    let changed = detect_changed_files(
        &Some(String::new()),
        &Some(String::new()),
        &base_files,
        &current,
    );

    // No files changed, no new files
    assert!(changed.is_empty());
}

#[test]
fn test_diff_added_across_ref() {
    // Base commit holds `fn main() {}`; the working tree gained one TODO.
    let base_content = "fn main() {}\n";
    let new_content = "// TODO: new feature\nfn main() {}\n";
    let git = FakeGit {
        ls_tree: Ok("main.rs\n".to_string()),
        diff_ref: Ok("main.rs\n".to_string()),
        diff_unstaged: Ok(String::new()),
        files: vec![("main.rs".to_string(), base_content.to_string())],
    };
    let current = ScanResult {
        items: scan(new_content, "main.rs"),
        files_scanned: 1,
        ignored_items: vec![],
    };
    let config = Config::default();
    let result = compute_diff(&current, "HEAD", &git, &config).unwrap();

    assert_eq!(result.added_count, 1);
    assert_eq!(result.removed_count, 0);
    assert_eq!(result.entries.len(), 1);
    assert_eq!(result.entries[0].status, DiffStatus::Added);
    assert_eq!(result.entries[0].item.tag, Tag::Todo);
    assert_eq!(result.entries[0].item.message, "new feature");
}

#[test]
fn test_diff_removed_across_ref() {
    // Base commit holds one TODO; the working tree dropped it.
    let base_content = "// TODO: old task\nfn main() {}\n";
    let new_content = "fn main() {}\n";
    let git = FakeGit {
        ls_tree: Ok("main.rs\n".to_string()),
        diff_ref: Ok("main.rs\n".to_string()),
        diff_unstaged: Ok(String::new()),
        files: vec![("main.rs".to_string(), base_content.to_string())],
    };
    let current = ScanResult {
        items: scan(new_content, "main.rs"),
        files_scanned: 1,
        ignored_items: vec![],
    };
    let config = Config::default();
    let result = compute_diff(&current, "HEAD", &git, &config).unwrap();

    assert_eq!(result.added_count, 0);
    assert_eq!(result.removed_count, 1);
    assert_eq!(result.entries.len(), 1);
    assert_eq!(result.entries[0].status, DiffStatus::Removed);
    assert_eq!(result.entries[0].item.message, "old task");
}

#[test]
fn test_diff_unrelated_file_untouched() {
    // Two files at the base, only one changed: entries never reference the
    // untouched file.
    let a_base = "// TODO: task in a\nfn a() {}\n";
    let a_new = "// TODO: task in a\n// HACK: new hack in a\nfn a() {}\n";
    let b_content = "// FIXME: task in b\nfn b() {}\n";
    let git = FakeGit {
        ls_tree: Ok("a.rs\nb.rs\n".to_string()),
        diff_ref: Ok("a.rs\n".to_string()),
        diff_unstaged: Ok(String::new()),
        files: vec![
            ("a.rs".to_string(), a_base.to_string()),
            ("b.rs".to_string(), b_content.to_string()),
        ],
    };
    let mut items = scan(a_new, "a.rs");
    items.extend(scan(b_content, "b.rs"));
    let current = ScanResult { items, files_scanned: 2, ignored_items: vec![] };
    let config = Config::default();
    let result = compute_diff(&current, "HEAD", &git, &config).unwrap();

    assert_eq!(result.added_count, 1);
    assert_eq!(result.removed_count, 0);
    assert_eq!(result.entries[0].item.message, "new hack in a");
    for entry in &result.entries {
        assert_ne!(entry.item.file, "b.rs", "unchanged file b.rs should not appear in diff");
    }
}

#[test]
fn test_snapshot_diff_self_is_empty() {
    // Diffing a snapshot against itself yields nothing.
    let items = vec![
        make_item("a.rs", 1, Tag::Todo, "one"),
        make_item("a.rs", 2, Tag::Fixme, "two"),
        make_item("b.rs", 3, Tag::Bug, "three"),
    ];
    let same = vec![
        make_item("a.rs", 1, Tag::Todo, "one"),
        make_item("a.rs", 2, Tag::Fixme, "two"),
        make_item("b.rs", 3, Tag::Bug, "three"),
    ];
    let d = snapshot_diff(&items, &same, "HEAD");
    assert!(d.entries.is_empty());
    assert_eq!(d.added_count, 0);
    assert_eq!(d.removed_count, 0);
}

#[test]
fn test_snapshot_diff_ignores_line_shift() {
    // The same annotation on a different line produces no entries.
    let base = vec![make_item("a.rs", 1, Tag::Todo, "stable task")];
    let cur = vec![make_item("a.rs", 4, Tag::Todo, "stable task")];
    let d = snapshot_diff(&base, &cur, "HEAD");
    assert!(d.entries.is_empty(), "line number change only should not produce diff entries");
}

#[test]
fn test_snapshot_diff_tag_change_is_added_and_removed() {
    // Changing only the tag produces exactly one Added and one Removed.
    let base = vec![make_item("main.rs", 1, Tag::Todo, "fix something")];
    let cur = vec![make_item("main.rs", 1, Tag::Fixme, "fix something")];
    let d = snapshot_diff(&base, &cur, "HEAD");
    assert_eq!(d.added_count, 1);
    assert_eq!(d.removed_count, 1);
    assert_eq!(d.entries.len(), 2);
}

#[test]
fn test_snapshot_diff_message_change_is_added_and_removed() {
    // Changing only the message produces exactly one Added and one Removed.
    let base = vec![make_item("main.rs", 1, Tag::Todo, "original message")];
    let cur = vec![make_item("main.rs", 1, Tag::Todo, "updated message")];
    let d = snapshot_diff(&base, &cur, "HEAD");
    assert_eq!(d.added_count, 1);
    assert_eq!(d.removed_count, 1);
    let added: Vec<_> = d.entries.iter().filter(|e| e.status == DiffStatus::Added).collect();
    let removed: Vec<_> = d.entries.iter().filter(|e| e.status == DiffStatus::Removed).collect();
    assert_eq!(added[0].item.message, "updated message");
    assert_eq!(removed[0].item.message, "original message");
}

#[test]
fn test_snapshot_diff_message_case_is_same_identity() {
    // Identity compares the normalised message: case and surrounding white
    // space do not matter.
    let base = vec![make_item("main.rs", 1, Tag::Todo, "Fix The Thing")];
    let cur = vec![make_item("main.rs", 9, Tag::Todo, "  fix the thing  ")];
    let d = snapshot_diff(&base, &cur, "HEAD");
    assert!(d.entries.is_empty());
}

#[test]
fn test_snapshot_diff_counts_match_entries() {
    // The counts always equal the entry-status tally.
    let base = vec![
        make_item("main.rs", 1, Tag::Todo, "a"),
        make_item("main.rs", 2, Tag::Todo, "b"),
        make_item("main.rs", 3, Tag::Fixme, "c"),
    ];
    let cur = vec![
        make_item("main.rs", 1, Tag::Todo, "a"),
        make_item("main.rs", 2, Tag::Hack, "d"),
        make_item("main.rs", 3, Tag::Bug, "e"),
    ];
    let d = snapshot_diff(&base, &cur, "HEAD");
    let added = d.entries.iter().filter(|e| e.status == DiffStatus::Added).count();
    let removed = d.entries.iter().filter(|e| e.status == DiffStatus::Removed).count();
    assert_eq!(d.added_count, added);
    assert_eq!(d.removed_count, removed);
    assert_eq!(d.entries.len(), d.added_count + d.removed_count);
}

#[test]
fn test_cmd_diff_applies_tag_filter() {
    let base_content = "fn main() {}\n";
    let new_content = "// TODO: new feature\n// FIXME: urgent fix\nfn main() {}\n";
    let git = FakeGit {
        ls_tree: Ok("main.rs\n".to_string()),
        diff_ref: Ok("main.rs\n".to_string()),
        diff_unstaged: Ok(String::new()),
        files: vec![("main.rs".to_string(), base_content.to_string())],
    };
    let current = ScanResult {
        items: scan(new_content, "main.rs"),
        files_scanned: 1,
        ignored_items: vec![],
    };
    let config = Config::default();
    let opts = DiffOptions {
        git_ref: "HEAD".to_string(),
        tag: vec!["FIXME".to_string()],
        context: None,
        detail: DetailLevel::Normal,
    };
    let result = cmd_diff(&current, &git, &config, &opts).unwrap();
    assert_eq!(result.added_count, 1);
    assert_eq!(result.removed_count, 0);
    assert_eq!(result.entries.len(), 1);
    assert_eq!(result.entries[0].item.tag, Tag::Fixme);
    assert_eq!(result.base_ref, "HEAD");
}

#[test]
fn test_diff_error_messages() {
    let invalid = DiffError::InvalidRef("-x".to_string());
    assert_eq!(invalid.message(), "invalid git ref '-x': must not start with '-'");
    let not_found = DiffError::RefNotFound("HEAD".to_string());
    assert_eq!(not_found.message(), "Failed to list files at ref HEAD");
    let bad_pattern = DiffError::PatternCompileError("(".to_string());
    assert_eq!(bad_pattern.message(), "Invalid tags pattern: (");
}

#[test]
fn test_compute_diff_invalid_pattern_is_reported() {
    // A tag vocabulary that breaks the pattern makes the diff fail with a
    // pattern-compile error, after the listing succeeded.
    let git = FakeGit {
        ls_tree: Ok("main.rs\n".to_string()),
        diff_ref: Ok(String::new()),
        diff_unstaged: Ok(String::new()),
        files: vec![("main.rs".to_string(), "fn main() {}\n".to_string())],
    };
    let current = ScanResult { items: vec![], files_scanned: 1, ignored_items: vec![] };
    let config = Config { tags: vec!["(".to_string()], ..Config::default() };
    let err = compute_diff(&current, "HEAD", &git, &config).unwrap_err();
    assert!(matches!(err, DiffError::PatternCompileError(_)));
    assert!(err.message().starts_with("Invalid tags pattern: "));
}
