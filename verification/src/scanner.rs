//! Turns text content into annotations: one configurable tag pattern matched
//! per line, plus a fixed grammar for issue references inside messages.

use vstd::prelude::*;
use vstd::string::*;

use crate::model::{clone_opt_string, spec_tag_from, ItemView, Priority, ScanResult, Tag, TodoItem};
use crate::pattern::{pattern_captures, regex_src, spec_captures, CapturedView};
use crate::strings::{spec_lines, spec_trim, split_lines, str_eq, trim};

verus! {

pub open spec fn is_upper_char(c: char) -> bool {
    'A' <= c && c <= 'Z'
}

pub open spec fn is_digit_char(c: char) -> bool {
    '0' <= c && c <= '9'
}

fn is_upper(c: char) -> (b: bool)
    ensures
        b == is_upper_char(c),
{
    'A' <= c && c <= 'Z'
}

fn is_digit(c: char) -> (b: bool)
    ensures
        b == is_digit_char(c),
{
    '0' <= c && c <= '9'
}

/// The length of the maximal run of upper-case letters starting at `i`.
pub open spec fn upper_run(s: Seq<char>, i: int) -> int
    decreases s.len() - i,
    when 0 <= i <= s.len()
{
    if i < s.len() && is_upper_char(s[i]) {
        1 + upper_run(s, i + 1)
    } else {
        0
    }
}

/// The length of the maximal run of decimal digits starting at `i`.
pub open spec fn digit_run(s: Seq<char>, i: int) -> int
    decreases s.len() - i,
    when 0 <= i <= s.len()
{
    if i < s.len() && is_digit_char(s[i]) {
        1 + digit_run(s, i + 1)
    } else {
        0
    }
}

proof fn lemma_upper_run_val(s: Seq<char>, i: int, j: int)
    requires
        0 <= i <= j <= s.len(),
        forall|k: int| i <= k < j ==> is_upper_char(s[k]),
        j == s.len() || !is_upper_char(s[j]),
    ensures
        upper_run(s, i) == j - i,
    decreases j - i,
{
    if i < j {
        lemma_upper_run_val(s, i + 1, j);
    }
}

proof fn lemma_digit_run_val(s: Seq<char>, i: int, j: int)
    requires
        0 <= i <= j <= s.len(),
        forall|k: int| i <= k < j ==> is_digit_char(s[k]),
        j == s.len() || !is_digit_char(s[j]),
    ensures
        digit_run(s, i) == j - i,
    decreases j - i,
{
    if i < j {
        lemma_digit_run_val(s, i + 1, j);
    }
}

/// An issue reference of the form `[A-Z]+-[0-9]+` begins at `i`.
pub open spec fn issue_plain_at(s: Seq<char>, i: int) -> bool {
    let u = upper_run(s, i);
    0 <= i <= s.len() && u >= 1 && i + u < s.len() && s[i + u] == '-' && digit_run(s, i + u + 1)
        >= 1
}

/// Where the issue reference beginning at `i` ends (one past its last digit).
pub open spec fn issue_plain_end(s: Seq<char>, i: int) -> int {
    let u = upper_run(s, i);
    i + u + 1 + digit_run(s, i + u + 1)
}

/// An issue reference of the form `#[0-9]+` begins at `i`.
pub open spec fn issue_hash_at(s: Seq<char>, i: int) -> bool {
    0 <= i < s.len() && s[i] == '#' && digit_run(s, i + 1) >= 1
}

pub open spec fn issue_hash_end(s: Seq<char>, i: int) -> int {
    i + 1 + digit_run(s, i + 1)
}

/// The first issue reference at or after position `i`, if any; a plain
/// `KEY-123` form is preferred over `#123` at the same position.
pub open spec fn spec_issue_from(s: Seq<char>, i: int) -> Option<Seq<char>>
    decreases s.len() - i,
    when 0 <= i <= s.len()
{
    if i >= s.len() {
        None
    } else if issue_plain_at(s, i) {
        Some(s.subrange(i, issue_plain_end(s, i)))
    } else if issue_hash_at(s, i) {
        Some(s.subrange(i, issue_hash_end(s, i)))
    } else {
        spec_issue_from(s, i + 1)
    }
}

/// The leftmost issue reference in a message, if any.
pub open spec fn spec_issue_ref(s: Seq<char>) -> Option<Seq<char>> {
    spec_issue_from(s, 0)
}

/// Extracts an issue reference from a message: the leftmost occurrence of
/// either `KEY-123` (upper-case key) or `#123`.
pub fn extract_issue_ref(message: &str) -> (r: Option<String>)
    ensures
        r.deep_view() == spec_issue_ref(message@),
{
    let n: usize = message.unicode_len();
    let mut i: usize = 0;
    while i < n
        invariant
            0 <= i <= n,
            n == message@.len(),
            spec_issue_ref(message@) == spec_issue_from(message@, i as int),
        decreases n - i,
    {
        let ghost s = message@;
        // Maximal run of upper-case letters starting at i.
        let mut j: usize = i;
        while j < n && is_upper(message.get_char(j))
            invariant
                i <= j <= n,
                n == message@.len(),
                forall|k: int| i <= k < j ==> is_upper_char(message@[k]),
            decreases n - j,
        {
            j = j + 1;
        }
        proof {
            lemma_upper_run_val(s, i as int, j as int);
        }
        if j > i && j < n && message.get_char(j) == '-' {
            let mut k: usize = j + 1;
            while k < n && is_digit(message.get_char(k))
                invariant
                    j + 1 <= k <= n,
                    n == message@.len(),
                    forall|m: int| j + 1 <= m < k ==> is_digit_char(message@[m]),
                decreases n - k,
            {
                k = k + 1;
            }
            proof {
                lemma_digit_run_val(s, j + 1 as int, k as int);
            }
            if k > j + 1 {
                proof {
                    assert(issue_plain_at(s, i as int));
                    assert(issue_plain_end(s, i as int) == k as int);
                }
                let text: String = message.substring_char(i, k).to_owned();
                return Some(text);
            }
            proof {
                assert(!issue_plain_at(s, i as int));
                assert(!issue_hash_at(s, i as int));
            }
        } else if message.get_char(i) == '#' {
            let mut k: usize = i + 1;
            while k < n && is_digit(message.get_char(k))
                invariant
                    i + 1 <= k <= n,
                    n == message@.len(),
                    forall|m: int| i + 1 <= m < k ==> is_digit_char(message@[m]),
                decreases n - k,
            {
                k = k + 1;
            }
            proof {
                lemma_digit_run_val(s, i + 1 as int, k as int);
            }
            if k > i + 1 {
                proof {
                    assert(upper_run(s, i as int) == 0);
                    assert(!issue_plain_at(s, i as int));
                    assert(issue_hash_at(s, i as int));
                    assert(issue_hash_end(s, i as int) == k as int);
                }
                let text: String = message.substring_char(i, k).to_owned();
                return Some(text);
            }
            proof {
                assert(!issue_plain_at(s, i as int));
                assert(!issue_hash_at(s, i as int));
            }
        } else {
            proof {
                assert(!issue_plain_at(s, i as int));
                assert(!issue_hash_at(s, i as int));
            }
        }
        i = i + 1;
    }
    None
}

/// The group's characters, or the empty sequence where the group is absent.
pub open spec fn opt_or_empty(o: Option<Seq<char>>) -> Seq<char> {
    match o {
        Some(s) => s,
        None => Seq::empty(),
    }
}

/// The priority encoded by the priority marker group.
pub open spec fn spec_priority_from(b: Option<Seq<char>>) -> Priority {
    match b {
        Some(x) => if x == "!!"@ {
            Priority::Urgent
        } else if x == "!"@ {
            Priority::High
        } else {
            Priority::Normal
        },
        None => Priority::Normal,
    }
}

/// The annotation one line yields under a pattern, if any: group 1 names the
/// tag, group 2 the author, group 3 the priority marker, group 4 the message.
pub open spec fn spec_scan_line(
    pat: Seq<char>,
    file: Seq<char>,
    line_no: int,
    line: Seq<char>,
) -> Option<ItemView> {
    match spec_captures(pat, line) {
        None => None,
        Some(c) => match spec_tag_from(opt_or_empty(c.tag)) {
            None => None,
            Some(tag) => Some(
                ItemView {
                    file,
                    line: line_no,
                    tag,
                    message: spec_trim(opt_or_empty(c.rest)),
                    author: c.author,
                    issue_ref: spec_issue_ref(spec_trim(opt_or_empty(c.rest))),
                    priority: spec_priority_from(c.bang),
                    deadline: None,
                },
            ),
        },
    }
}

/// Scans one line for an annotation.
fn scan_line(pattern: &regex::Regex, file_path: &str, line_no: usize, line: &str) -> (r: Option<
    TodoItem,
>)
    ensures
        r.deep_view() == spec_scan_line(regex_src(*pattern), file_path@, line_no as int, line@),
{
    proof {
        reveal_strlit("");
        assert(""@ =~= Seq::<char>::empty());
    }
    let caps = match pattern_captures(pattern, line) {
        Some(c) => c,
        None => {
            return None;
        },
    };
    let tag_opt: Option<Tag> = match &caps.tag {
        Some(t) => Tag::from_str(t.as_str()),
        None => Tag::from_str(""),
    };
    let tag: Tag = match tag_opt {
        Some(t) => t,
        None => {
            return None;
        },
    };
    let rest: &str = match &caps.rest {
        Some(rs) => rs.as_str(),
        None => "",
    };
    let message: String = trim(rest).to_owned();
    let issue_ref: Option<String> = extract_issue_ref(message.as_str());
    let priority: Priority = match &caps.bang {
        Some(b) => if str_eq(b.as_str(), "!!") {
            Priority::Urgent
        } else if str_eq(b.as_str(), "!") {
            Priority::High
        } else {
            Priority::Normal
        },
        None => Priority::Normal,
    };
    let author: Option<String> = clone_opt_string(&caps.author);
    Some(
        TodoItem {
            file: file_path.to_owned(),
            line: line_no,
            tag,
            message,
            author,
            issue_ref,
            priority,
            deadline: None,
        },
    )
}

/// The annotations a whole content yields: each line scanned with its
/// 1-based line number.
pub open spec fn spec_scan_lines(pat: Seq<char>, file: Seq<char>, lines: Seq<Seq<char>>) -> Seq<
    ItemView,
>
    decreases lines.len(),
{
    if lines.len() == 0 {
        Seq::empty()
    } else {
        spec_scan_lines(pat, file, lines.drop_last()) + (match spec_scan_line(
            pat,
            file,
            lines.len() as int,
            lines.last(),
        ) {
            Some(it) => seq![it],
            None => Seq::empty(),
        })
    }
}

/// The annotations a content yields under a pattern.
pub open spec fn spec_scan(pat: Seq<char>, file: Seq<char>, content: Seq<char>) -> Seq<ItemView> {
    spec_scan_lines(pat, file, spec_lines(content))
}

/// Scans text content line by line for tagged annotations. Pure: the result
/// depends only on the content, the file label and the pattern.
pub fn scan_content(content: &str, file_path: &str, pattern: &regex::Regex) -> (r: ScanResult)
    ensures
        r.items.deep_view() == spec_scan(regex_src(*pattern), file_path@, content@),
        r.files_scanned == 1,
        r.ignored_items@.len() == 0,
{
    let lines: Vec<String> = split_lines(content);
    let ghost lv = lines.deep_view();
    let mut items: Vec<TodoItem> = Vec::new();
    let mut i: usize = 0;
    proof {
        assert(items.deep_view() =~= Seq::<ItemView>::empty());
        assert(lv.take(0) =~= Seq::<Seq<char>>::empty());
    }
    while i < lines.len()
        invariant
            0 <= i <= lines.len(),
            lv == lines.deep_view(),
            lv == spec_lines(content@),
            items.deep_view() == spec_scan_lines(regex_src(*pattern), file_path@, lv.take(i as int)),
        decreases lines.len() - i,
    {
        let ghost pat = regex_src(*pattern);
        let line_no: usize = i + 1;
        let item_opt = scan_line(pattern, file_path, line_no, lines[i].as_str());
        proof {
            assert(lv[i as int] == lines@[i as int].deep_view());
            assert(lv.take(i + 1).drop_last() =~= lv.take(i as int));
            assert(lv.take(i + 1).last() == lv[i as int]);
            assert(lv.take(i + 1).len() == i + 1);
        }
        match item_opt {
            Some(item) => {
                let ghost old_dv = items.deep_view();
                proof {
                    assert(item_opt.deep_view() == Some(item.deep_view()));
                }
                items.push(item);
                proof {
                    assert(items.deep_view() =~= old_dv.push(item@));
                    assert(old_dv.push(item@) =~= old_dv + seq![item@]);
                    assert(items.deep_view() =~= spec_scan_lines(pat, file_path@, lv.take(i + 1)));
                }
            },
            None => {
                proof {
                    assert(items.deep_view() + Seq::<ItemView>::empty() =~= items.deep_view());
                    assert(items.deep_view() =~= spec_scan_lines(pat, file_path@, lv.take(i + 1)));
                }
            },
        }
        i = i + 1;
    }
    proof {
        assert(lv.take(lines@.len() as int) =~= lv);
    }
    ScanResult { items, files_scanned: 1, ignored_items: Vec::new() }
}

} // verus!
