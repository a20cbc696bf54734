//! The data model: annotations, their identity keys, snapshots, diff results
//! and the result records the other modules produce.

use vstd::prelude::*;
use vstd::string::*;

use crate::strings::{lower_of, lowercase, push_char, spec_trim, str_eq, trim};

verus! {

/// The closed vocabulary of annotation tags.
#[derive(Debug, Clone, Copy, PartialEq, Eq, Hash, Structural)]
pub enum Tag {
    Todo,
    Fixme,
    Hack,
    Xxx,
    Bug,
    Note,
}

/// The canonical upper-case name of a tag.
pub open spec fn spec_tag_str(t: Tag) -> Seq<char> {
    match t {
        Tag::Todo => "TODO"@,
        Tag::Fixme => "FIXME"@,
        Tag::Hack => "HACK"@,
        Tag::Xxx => "XXX"@,
        Tag::Bug => "BUG"@,
        Tag::Note => "NOTE"@,
    }
}

/// How pressing a tag is, for tie-breaking; larger is more severe.
pub open spec fn spec_severity(t: Tag) -> int {
    match t {
        Tag::Note => 0,
        Tag::Todo => 1,
        Tag::Hack => 2,
        Tag::Xxx => 3,
        Tag::Fixme => 4,
        Tag::Bug => 5,
    }
}

/// Upper-case form of an ASCII letter; other characters are unchanged.
pub open spec fn ascii_upper_char(c: char) -> char {
    if c == 'a' {
        'A'
    } else if c == 'b' {
        'B'
    } else if c == 'c' {
        'C'
    } else if c == 'd' {
        'D'
    } else if c == 'e' {
        'E'
    } else if c == 'f' {
        'F'
    } else if c == 'g' {
        'G'
    } else if c == 'h' {
        'H'
    } else if c == 'i' {
        'I'
    } else if c == 'j' {
        'J'
    } else if c == 'k' {
        'K'
    } else if c == 'l' {
        'L'
    } else if c == 'm' {
        'M'
    } else if c == 'n' {
        'N'
    } else if c == 'o' {
        'O'
    } else if c == 'p' {
        'P'
    } else if c == 'q' {
        'Q'
    } else if c == 'r' {
        'R'
    } else if c == 's' {
        'S'
    } else if c == 't' {
        'T'
    } else if c == 'u' {
        'U'
    } else if c == 'v' {
        'V'
    } else if c == 'w' {
        'W'
    } else if c == 'x' {
        'X'
    } else if c == 'y' {
        'Y'
    } else if c == 'z' {
        'Z'
    } else {
        c
    }
}

/// The ASCII upper-case image of a character sequence.
pub open spec fn ascii_upper_seq(s: Seq<char>) -> Seq<char> {
    s.map_values(|c: char| ascii_upper_char(c))
}

pub fn upper_char(c: char) -> (r: char)
    ensures
        r == ascii_upper_char(c),
{
    match c {
        'a' => 'A',
        'b' => 'B',
        'c' => 'C',
        'd' => 'D',
        'e' => 'E',
        'f' => 'F',
        'g' => 'G',
        'h' => 'H',
        'i' => 'I',
        'j' => 'J',
        'k' => 'K',
        'l' => 'L',
        'm' => 'M',
        'n' => 'N',
        'o' => 'O',
        'p' => 'P',
        'q' => 'Q',
        'r' => 'R',
        's' => 'S',
        't' => 'T',
        'u' => 'U',
        'v' => 'V',
        'w' => 'W',
        'x' => 'X',
        'y' => 'Y',
        'z' => 'Z',
        _ => c,
    }
}

/// True when `a` and `b` are equal after ASCII upper-casing.
pub fn eq_ignore_case(a: &str, b: &str) -> (r: bool)
    ensures
        r == (ascii_upper_seq(a@) == ascii_upper_seq(b@)),
{
    let na: usize = a.unicode_len();
    let nb: usize = b.unicode_len();
    if na != nb {
        proof {
            assert(ascii_upper_seq(a@).len() == a@.len());
            assert(ascii_upper_seq(b@).len() == b@.len());
        }
        return false;
    }
    let mut i: usize = 0;
    while i < na
        invariant
            0 <= i <= na,
            na == a@.len(),
            na == b@.len(),
            forall|k: int| 0 <= k < i ==> ascii_upper_char(a@[k]) == ascii_upper_char(b@[k]),
        decreases na - i,
    {
        if upper_char(a.get_char(i)) != upper_char(b.get_char(i)) {
            proof {
                assert(ascii_upper_seq(a@)[i as int] != ascii_upper_seq(b@)[i as int]);
            }
            return false;
        }
        i = i + 1;
    }
    proof {
        assert(ascii_upper_seq(a@) =~= ascii_upper_seq(b@));
    }
    true
}

impl Tag {
    /// The canonical upper-case name of the tag.
    pub fn as_str(&self) -> (r: &'static str)
        ensures
            r@ == spec_tag_str(*self),
    {
        match self {
            Tag::Todo => "TODO",
            Tag::Fixme => "FIXME",
            Tag::Hack => "HACK",
            Tag::Xxx => "XXX",
            Tag::Bug => "BUG",
            Tag::Note => "NOTE",
        }
    }

    /// Parses a tag name, ignoring ASCII case; unknown names give `None`.
    pub fn from_str(s: &str) -> (r: Option<Tag>)
        ensures
            r == spec_tag_from(s@),
    {
        if eq_ignore_case(s, "TODO") {
            Some(Tag::Todo)
        } else if eq_ignore_case(s, "FIXME") {
            Some(Tag::Fixme)
        } else if eq_ignore_case(s, "HACK") {
            Some(Tag::Hack)
        } else if eq_ignore_case(s, "XXX") {
            Some(Tag::Xxx)
        } else if eq_ignore_case(s, "BUG") {
            Some(Tag::Bug)
        } else if eq_ignore_case(s, "NOTE") {
            Some(Tag::Note)
        } else {
            None
        }
    }

    /// Severity ordinal of the tag; larger is more severe.
    pub fn severity(&self) -> (r: u8)
        ensures
            r as int == spec_severity(*self),
    {
        match self {
            Tag::Note => 0,
            Tag::Todo => 1,
            Tag::Hack => 2,
            Tag::Xxx => 3,
            Tag::Fixme => 4,
            Tag::Bug => 5,
        }
    }
}

/// The tag whose name matches `s` ignoring ASCII case, if any.
pub open spec fn spec_tag_from(s: Seq<char>) -> Option<Tag> {
    if ascii_upper_seq(s) == ascii_upper_seq("TODO"@) {
        Some(Tag::Todo)
    } else if ascii_upper_seq(s) == ascii_upper_seq("FIXME"@) {
        Some(Tag::Fixme)
    } else if ascii_upper_seq(s) == ascii_upper_seq("HACK"@) {
        Some(Tag::Hack)
    } else if ascii_upper_seq(s) == ascii_upper_seq("XXX"@) {
        Some(Tag::Xxx)
    } else if ascii_upper_seq(s) == ascii_upper_seq("BUG"@) {
        Some(Tag::Bug)
    } else if ascii_upper_seq(s) == ascii_upper_seq("NOTE"@) {
        Some(Tag::Note)
    } else {
        None
    }
}

/// Priority markers attached to an annotation.
#[derive(Debug, Clone, Copy, PartialEq, Eq, Structural)]
pub enum Priority {
    Normal,
    High,
    Urgent,
}

/// Rank of a priority; larger is more pressing.
pub open spec fn spec_priority_rank(p: Priority) -> int {
    match p {
        Priority::Normal => 0,
        Priority::High => 1,
        Priority::Urgent => 2,
    }
}

pub fn priority_rank(p: &Priority) -> (r: u8)
    ensures
        r as int == spec_priority_rank(*p),
{
    match p {
        Priority::Normal => 0,
        Priority::High => 1,
        Priority::Urgent => 2,
    }
}

/// A calendar date attached to an annotation as a deadline.
#[derive(Debug, Clone, Copy, PartialEq, Eq, Structural)]
pub struct Deadline {
    pub year: u32,
    pub month: u32,
    pub day: u32,
}

/// One recognised annotation, extracted from one source line.
#[derive(Debug)]
pub struct TodoItem {
    pub file: String,
    pub line: usize,
    pub tag: Tag,
    pub message: String,
    pub author: Option<String>,
    pub issue_ref: Option<String>,
    pub priority: Priority,
    pub deadline: Option<Deadline>,
}

/// The view of an annotation: every field as a mathematical value.
pub struct ItemView {
    pub file: Seq<char>,
    pub line: int,
    pub tag: Tag,
    pub message: Seq<char>,
    pub author: Option<Seq<char>>,
    pub issue_ref: Option<Seq<char>>,
    pub priority: Priority,
    pub deadline: Option<Deadline>,
}

impl View for TodoItem {
    type V = ItemView;

    open spec fn view(&self) -> ItemView {
        ItemView {
            file: self.file@,
            line: self.line as int,
            tag: self.tag,
            message: self.message@,
            author: self.author.deep_view(),
            issue_ref: self.issue_ref.deep_view(),
            priority: self.priority,
            deadline: self.deadline,
        }
    }
}

impl DeepView for TodoItem {
    type V = ItemView;

    open spec fn deep_view(&self) -> ItemView {
        self.view()
    }
}

pub fn clone_opt_string(s: &Option<String>) -> (r: Option<String>)
    ensures
        r == *s,
{
    match s {
        Some(v) => Some(v.clone()),
        None => None,
    }
}

impl Clone for TodoItem {
    /// Clones preserve the value exactly.
    fn clone(&self) -> (r: Self)
        ensures
            r == *self,
    {
        TodoItem {
            file: self.file.clone(),
            line: self.line,
            tag: self.tag,
            message: self.message.clone(),
            author: clone_opt_string(&self.author),
            issue_ref: clone_opt_string(&self.issue_ref),
            priority: self.priority,
            deadline: self.deadline,
        }
    }
}

/// The normalised form of a message: trimmed, then lower-cased.
pub open spec fn norm_msg(m: Seq<char>) -> Seq<char> {
    lower_of(spec_trim(m))
}

/// The identity key of an annotation: file, tag, and normalised message.
/// Line number, author, priority, issue reference and deadline are
/// deliberately excluded.
pub open spec fn item_key(it: ItemView) -> (Seq<char>, Tag, Seq<char>) {
    (it.file, it.tag, norm_msg(it.message))
}

/// Two annotations stand for the same logical item.
pub open spec fn same_identity(a: ItemView, b: ItemView) -> bool {
    item_key(a) == item_key(b)
}

/// Decides whether two annotations carry the same identity key.
pub fn same_key(a: &TodoItem, b: &TodoItem) -> (r: bool)
    ensures
        r == same_identity(a@, b@),
{
    if !str_eq(a.file.as_str(), b.file.as_str()) {
        return false;
    }
    if a.tag != b.tag {
        return false;
    }
    let na: String = lowercase(trim(a.message.as_str()));
    let nb: String = lowercase(trim(b.message.as_str()));
    na == nb
}

impl TodoItem {
    /// Matching key for diff comparison (excludes the line number):
    /// `file:TAG:normalised-message`.
    pub fn match_key(&self) -> (r: String)
        ensures
            r@ == self.file@ + seq![':'] + spec_tag_str(self.tag) + seq![':'] + norm_msg(
                self.message@,
            ),
    {
        let mut s: String = self.file.clone();
        push_char(&mut s, ':');
        s.append(self.tag.as_str());
        push_char(&mut s, ':');
        let norm: String = lowercase(trim(self.message.as_str()));
        s.append(norm.as_str());
        proof {
            assert(s@ =~= self.file@ + seq![':'] + spec_tag_str(self.tag) + seq![':'] + norm_msg(
                self.message@,
            ));
        }
        s
    }
}

/// The annotations found by one scan, with how many files were read.
#[derive(Debug)]
pub struct ScanResult {
    pub items: Vec<TodoItem>,
    pub files_scanned: usize,
    pub ignored_items: Vec<TodoItem>,
}

/// Whether a diff entry records an annotation that appeared or one that
/// disappeared.
#[derive(Debug, Clone, Copy, PartialEq, Eq, Structural)]
pub enum DiffStatus {
    Added,
    Removed,
}

/// One added or removed annotation in a diff.
#[derive(Debug)]
pub struct DiffEntry {
    pub status: DiffStatus,
    pub item: TodoItem,
}

impl Clone for DiffEntry {
    /// Clones preserve the value exactly.
    fn clone(&self) -> (r: Self)
        ensures
            r == *self,
    {
        DiffEntry { status: self.status, item: self.item.clone() }
    }
}

/// The outcome of diffing two snapshots.
#[derive(Debug)]
pub struct DiffResult {
    pub entries: Vec<DiffEntry>,
    pub added_count: usize,
    pub removed_count: usize,
    pub base_ref: String,
}

/// The outcome of a policy check run.
#[derive(Debug)]
pub struct CheckResult {
    pub passed: bool,
    pub total: usize,
    pub violations: Vec<CheckViolation>,
}

/// One violated check rule.
#[derive(Debug)]
pub struct CheckViolation {
    pub rule: String,
    pub message: String,
}

/// The outcome of a message search.
#[derive(Debug)]
pub struct SearchResult {
    pub query: String,
    pub exact: bool,
    pub items: Vec<TodoItem>,
    pub match_count: usize,
    pub file_count: usize,
}

/// Authorship data for one annotation, taken from version control.
#[derive(Debug)]
pub struct BlameInfo {
    pub author: String,
    pub email: String,
    pub date: String,
    pub age_days: u64,
    pub commit: String,
}

/// One annotation paired with its authorship data.
#[derive(Debug)]
pub struct BlameEntry {
    pub item: TodoItem,
    pub blame: BlameInfo,
    pub stale: bool,
}

/// The outcome of a blame pass over a snapshot.
#[derive(Debug)]
pub struct BlameResult {
    pub entries: Vec<BlameEntry>,
    pub total: usize,
    pub avg_age_days: u64,
    pub stale_count: usize,
    pub stale_threshold_days: u64,
}

/// One violated lint rule.
#[derive(Debug)]
pub struct LintViolation {
    pub file: String,
    pub line: usize,
    pub rule: String,
    pub message: String,
    pub suggestion: Option<String>,
}

/// The outcome of a lint run.
#[derive(Debug)]
pub struct LintResult {
    pub passed: bool,
    pub total_items: usize,
    pub violation_count: usize,
    pub violations: Vec<LintViolation>,
}

/// One violated hygiene rule.
#[derive(Debug)]
pub struct CleanViolation {
    pub file: String,
    pub line: usize,
    pub rule: String,
    pub message: String,
    pub issue_ref: Option<String>,
    pub duplicate_of: Option<String>,
}

/// The outcome of a hygiene run.
#[derive(Debug)]
pub struct CleanResult {
    pub passed: bool,
    pub total_items: usize,
    pub stale_count: usize,
    pub duplicate_count: usize,
    pub violations: Vec<CleanViolation>,
}

/// The per-file delta produced by reconciling a fresh scan of one file
/// against that file's prior index entry.
#[derive(Debug)]
pub struct FileUpdate {
    pub added: Vec<TodoItem>,
    pub removed: Vec<TodoItem>,
}

/// A read-only snapshot of the index state immediately after one file's
/// update.
#[derive(Debug)]
pub struct WatchEvent {
    pub timestamp: String,
    pub file: String,
    pub added: Vec<TodoItem>,
    pub removed: Vec<TodoItem>,
    pub tag_summary: Vec<(String, usize)>,
    pub total: usize,
    pub total_delta: i64,
}

/// Counts of annotations by priority.
#[derive(Debug, Clone, Copy, PartialEq, Eq, Structural)]
pub struct PriorityCounts {
    pub normal: usize,
    pub high: usize,
    pub urgent: usize,
}

/// Added/removed counts against a base reference.
#[derive(Debug)]
pub struct TrendInfo {
    pub added: usize,
    pub removed: usize,
    pub base_ref: String,
}

/// A condensed summary of one snapshot.
#[derive(Debug)]
pub struct BriefResult {
    pub total_items: usize,
    pub total_files: usize,
    pub priority_counts: PriorityCounts,
    pub top_urgent: Option<TodoItem>,
    pub trend: Option<TrendInfo>,
}

/// The annotation count at one sampled commit.
#[derive(Debug)]
pub struct HistoryPoint {
    pub commit: String,
    pub date: String,
    pub count: usize,
}

/// One bucket of the age histogram.
#[derive(Debug)]
pub struct AgeBucket {
    pub label: String,
    pub count: usize,
}

/// Headline figures of a report.
#[derive(Debug)]
pub struct ReportSummary {
    pub total_items: usize,
    pub total_files: usize,
    pub files_scanned: usize,
    pub urgent_count: usize,
    pub high_count: usize,
    pub stale_count: usize,
    pub avg_age_days: u64,
}

/// The full report over one snapshot.
#[derive(Debug)]
pub struct ReportResult {
    pub generated_at: String,
    pub summary: ReportSummary,
    pub tag_counts: Vec<(Tag, usize)>,
    pub priority_counts: PriorityCounts,
    pub author_counts: Vec<(String, usize)>,
    pub hotspot_files: Vec<(String, usize)>,
    pub history: Vec<HistoryPoint>,
    pub age_histogram: Vec<AgeBucket>,
    pub items: Vec<TodoItem>,
}

} // verus!
