//! Markdown rendering: tables and summaries over the result records. Every
//! formatter's output is pinned, character for character, by a spec builder.

use vstd::prelude::*;
use vstd::string::*;

use crate::model::{
    spec_tag_str, BlameEntry, BlameResult, CheckResult, CleanResult, CleanViolation, Deadline,
    DiffResult, DiffStatus, ItemView, LintResult, LintViolation, Priority, ScanResult,
    SearchResult, TodoItem,
};
use crate::strings::{push_char, spec_digits, usize_to_string};

verus! {

/// How one character is rendered inside a markdown table cell.
pub open spec fn spec_escape_char(c: char) -> Seq<char> {
    if c == '|' {
        seq!['\\', '|']
    } else if c == '\n' {
        seq![' ']
    } else if c == '\r' {
        Seq::empty()
    } else if c == '[' {
        seq!['\\', '[']
    } else if c == ']' {
        seq!['\\', ']']
    } else if c == '`' {
        seq!['\\', '`']
    } else {
        seq![c]
    }
}

/// A string with every cell-breaking character escaped or dropped.
pub open spec fn spec_escape(s: Seq<char>) -> Seq<char>
    decreases s.len(),
{
    if s.len() == 0 {
        Seq::empty()
    } else {
        spec_escape(s.drop_last()) + spec_escape_char(s.last())
    }
}

/// Escapes characters that break markdown table cells: pipes, brackets and
/// backticks are backslash-escaped, a newline becomes a space, a carriage
/// return is dropped.
pub fn escape_cell(s: &str) -> (r: String)
    ensures
        r@ == spec_escape(s@),
{
    let n: usize = s.unicode_len();
    let mut out: String = String::new();
    let mut i: usize = 0;
    proof {
        assert(s@.take(0) =~= Seq::<char>::empty());
        assert(out@ =~= spec_escape(s@.take(0)));
    }
    while i < n
        invariant
            0 <= i <= n,
            n == s@.len(),
            out@ == spec_escape(s@.take(i as int)),
        decreases n - i,
    {
        proof {
            assert(s@.take(i + 1).drop_last() =~= s@.take(i as int));
            assert(s@.take(i + 1).last() == s@[i as int]);
        }
        let c: char = s.get_char(i);
        if c == '|' {
            push_char(&mut out, '\\');
            push_char(&mut out, '|');
        } else if c == '\n' {
            push_char(&mut out, ' ');
        } else if c == '\r' {
        } else if c == '[' {
            push_char(&mut out, '\\');
            push_char(&mut out, '[');
        } else if c == ']' {
            push_char(&mut out, '\\');
            push_char(&mut out, ']');
        } else if c == '`' {
            push_char(&mut out, '\\');
            push_char(&mut out, '`');
        } else {
            push_char(&mut out, c);
        }
        proof {
            assert(out@ =~= spec_escape(s@.take(i + 1)));
        }
        i = i + 1;
    }
    proof {
        assert(s@.take(s@.len() as int) =~= s@);
    }
    out
}

/// The priority marker: nothing, `!`, or `!!`.
pub open spec fn spec_priority_str(p: Priority) -> Seq<char> {
    match p {
        Priority::Normal => Seq::empty(),
        Priority::High => "!"@,
        Priority::Urgent => "!!"@,
    }
}

pub fn priority_str(priority: &Priority) -> (r: &'static str)
    ensures
        r@ == spec_priority_str(*priority),
{
    proof {
        reveal_strlit("");
        assert(""@ =~= Seq::<char>::empty());
    }
    match priority {
        Priority::Normal => "",
        Priority::High => "!",
        Priority::Urgent => "!!",
    }
}

/// A number padded with leading zeros to at least two digits.
pub open spec fn spec_pad2(n: nat) -> Seq<char> {
    if n < 10 {
        seq!['0'] + spec_digits(n)
    } else {
        spec_digits(n)
    }
}

/// A number padded with leading zeros to at least four digits.
pub open spec fn spec_pad4(n: nat) -> Seq<char> {
    if n < 10 {
        seq!['0', '0', '0'] + spec_digits(n)
    } else if n < 100 {
        seq!['0', '0'] + spec_digits(n)
    } else if n < 1000 {
        seq!['0'] + spec_digits(n)
    } else {
        spec_digits(n)
    }
}

/// A deadline rendered as `YYYY-MM-DD`.
pub open spec fn spec_deadline_text(d: Deadline) -> Seq<char> {
    spec_pad4(d.year as nat) + seq!['-'] + spec_pad2(d.month as nat) + seq!['-'] + spec_pad2(
        d.day as nat,
    )
}

/// Renders a deadline as `YYYY-MM-DD`.
pub fn deadline_text(d: &Deadline) -> (r: String)
    ensures
        r@ == spec_deadline_text(*d),
{
    let mut out: String = String::new();
    if d.year < 10 {
        out.append("000");
    } else if d.year < 100 {
        out.append("00");
    } else if d.year < 1000 {
        out.append("0");
    }
    let y: String = usize_to_string(d.year as usize);
    out.append(y.as_str());
    push_char(&mut out, '-');
    if d.month < 10 {
        out.append("0");
    }
    let m: String = usize_to_string(d.month as usize);
    out.append(m.as_str());
    push_char(&mut out, '-');
    if d.day < 10 {
        out.append("0");
    }
    let dd: String = usize_to_string(d.day as usize);
    out.append(dd.as_str());
    proof {
        reveal_strlit("0");
        reveal_strlit("00");
        reveal_strlit("000");
        assert("0"@ =~= seq!['0']);
        assert("00"@ =~= seq!['0', '0']);
        assert("000"@ =~= seq!['0', '0', '0']);
        assert(out@ =~= spec_deadline_text(*d));
    }
    out
}

/// The escaped text of an optional cell; an absent value renders empty.
pub open spec fn spec_escape_opt(o: Option<Seq<char>>) -> Seq<char> {
    match o {
        Some(s) => spec_escape(s),
        None => Seq::empty(),
    }
}

/// One table row of the list/search table.
pub open spec fn spec_item_row(it: ItemView) -> Seq<char> {
    "| "@ + spec_escape(it.file) + " | "@ + spec_digits(it.line as nat) + " | "@ + spec_tag_str(
        it.tag,
    ) + " | "@ + spec_priority_str(it.priority) + " | "@ + spec_escape(it.message) + " | "@
        + spec_escape_opt(it.author) + " | "@ + spec_escape_opt(it.issue_ref) + " | "@ + (match it
        .deadline {
        Some(d) => spec_escape(spec_deadline_text(d)),
        None => Seq::empty(),
    }) + " |"@
}

/// The item rows, each preceded by a newline.
pub open spec fn spec_item_rows(items: Seq<ItemView>) -> Seq<char>
    decreases items.len(),
{
    if items.len() == 0 {
        Seq::empty()
    } else {
        spec_item_rows(items.drop_last()) + seq!['\n'] + spec_item_row(items.last())
    }
}

/// Builds one row of the list/search table.
fn item_row(it: &TodoItem) -> (r: String)
    ensures
        r@ == spec_item_row(it@),
{
    let mut out: String = String::from_str("| ");
    let file_e: String = escape_cell(it.file.as_str());
    out.append(file_e.as_str());
    out.append(" | ");
    let line_s: String = usize_to_string(it.line);
    out.append(line_s.as_str());
    out.append(" | ");
    out.append(it.tag.as_str());
    out.append(" | ");
    out.append(priority_str(&it.priority));
    out.append(" | ");
    let msg_e: String = escape_cell(it.message.as_str());
    out.append(msg_e.as_str());
    out.append(" | ");
    match &it.author {
        Some(a) => {
            let a_e: String = escape_cell(a.as_str());
            out.append(a_e.as_str());
        },
        None => {},
    }
    out.append(" | ");
    match &it.issue_ref {
        Some(r2) => {
            let r_e: String = escape_cell(r2.as_str());
            out.append(r_e.as_str());
        },
        None => {},
    }
    out.append(" | ");
    match &it.deadline {
        Some(d) => {
            let d_s: String = deadline_text(d);
            let d_e: String = escape_cell(d_s.as_str());
            out.append(d_e.as_str());
        },
        None => {},
    }
    out.append(" |");
    proof {
        assert(out@ =~= spec_item_row(it@));
    }
    out
}

/// The whole list table: header, separator, one row per annotation, and the
/// item count.
pub open spec fn spec_format_list(items: Seq<ItemView>) -> Seq<char> {
    "| File | Line | Tag | Priority | Message | Author | Issue | Deadline |"@ + seq!['\n']
        + "|------|------|-----|----------|---------|--------|-------|----------|"@
        + spec_item_rows(items) + seq!['\n'] + seq!['\n'] + "**"@ + spec_digits(items.len())
        + " items found**"@ + seq!['\n']
}

/// Formats a scan result as a markdown table.
pub fn format_list(result: &ScanResult) -> (r: String)
    ensures
        r@ == spec_format_list(result.items.deep_view()),
{
    let ghost iv = result.items.deep_view();
    let mut out: String = String::from_str(
        "| File | Line | Tag | Priority | Message | Author | Issue | Deadline |",
    );
    push_char(&mut out, '\n');
    out.append("|------|------|-----|----------|---------|--------|-------|----------|");
    let ghost head = out@;
    let mut i: usize = 0;
    proof {
        assert(iv.take(0) =~= Seq::<ItemView>::empty());
        assert(out@ =~= head + spec_item_rows(iv.take(0)));
    }
    while i < result.items.len()
        invariant
            0 <= i <= result.items@.len(),
            iv == result.items.deep_view(),
            out@ == head + spec_item_rows(iv.take(i as int)),
        decreases result.items@.len() - i,
    {
        proof {
            assert(iv.take(i + 1).drop_last() =~= iv.take(i as int));
            assert(iv.take(i + 1).last() == iv[i as int]);
            assert(iv[i as int] == result.items@[i as int]@);
        }
        push_char(&mut out, '\n');
        let row: String = item_row(&result.items[i]);
        out.append(row.as_str());
        proof {
            assert(out@ =~= head + spec_item_rows(iv.take(i + 1)));
        }
        i = i + 1;
    }
    proof {
        assert(iv.take(result.items@.len() as int) =~= iv);
    }
    push_char(&mut out, '\n');
    push_char(&mut out, '\n');
    out.append("**");
    let n_s: String = usize_to_string(result.items.len());
    out.append(n_s.as_str());
    out.append(" items found**");
    push_char(&mut out, '\n');
    proof {
        assert(out@ =~= spec_format_list(iv));
    }
    out
}

/// The whole search table: the list table shape, with a match summary that
/// echoes the escaped query.
pub open spec fn spec_format_search(
    items: Seq<ItemView>,
    match_count: nat,
    file_count: nat,
    query: Seq<char>,
) -> Seq<char> {
    "| File | Line | Tag | Priority | Message | Author | Issue | Deadline |"@ + seq!['\n']
        + "|------|------|-----|----------|---------|--------|-------|----------|"@
        + spec_item_rows(items) + seq!['\n'] + seq!['\n'] + "**"@ + spec_digits(match_count)
        + " matches across "@ + spec_digits(file_count) + " files** (query: \""@ + spec_escape(
        query,
    ) + "\")"@ + seq!['\n']
}

/// Formats a search result as a markdown table.
pub fn format_search(result: &SearchResult) -> (r: String)
    ensures
        r@ == spec_format_search(
            result.items.deep_view(),
            result.match_count as nat,
            result.file_count as nat,
            result.query@,
        ),
{
    let ghost iv = result.items.deep_view();
    let mut out: String = String::from_str(
        "| File | Line | Tag | Priority | Message | Author | Issue | Deadline |",
    );
    push_char(&mut out, '\n');
    out.append("|------|------|-----|----------|---------|--------|-------|----------|");
    let ghost head = out@;
    let mut i: usize = 0;
    proof {
        assert(iv.take(0) =~= Seq::<ItemView>::empty());
        assert(out@ =~= head + spec_item_rows(iv.take(0)));
    }
    while i < result.items.len()
        invariant
            0 <= i <= result.items@.len(),
            iv == result.items.deep_view(),
            out@ == head + spec_item_rows(iv.take(i as int)),
        decreases result.items@.len() - i,
    {
        proof {
            assert(iv.take(i + 1).drop_last() =~= iv.take(i as int));
            assert(iv.take(i + 1).last() == iv[i as int]);
            assert(iv[i as int] == result.items@[i as int]@);
        }
        push_char(&mut out, '\n');
        let row: String = item_row(&result.items[i]);
        out.append(row.as_str());
        proof {
            assert(out@ =~= head + spec_item_rows(iv.take(i + 1)));
        }
        i = i + 1;
    }
    proof {
        assert(iv.take(result.items@.len() as int) =~= iv);
    }
    push_char(&mut out, '\n');
    push_char(&mut out, '\n');
    out.append("**");
    let m_s: String = usize_to_string(result.match_count);
    out.append(m_s.as_str());
    out.append(" matches across ");
    let f_s: String = usize_to_string(result.file_count);
    out.append(f_s.as_str());
    out.append(" files** (query: \"");
    let q_e: String = escape_cell(result.query.as_str());
    out.append(q_e.as_str());
    out.append("\")");
    push_char(&mut out, '\n');
    proof {
        assert(out@ =~= spec_format_search(
            iv,
            result.match_count as nat,
            result.file_count as nat,
            result.query@,
        ));
    }
    out
}

/// One row of the diff table: `+` for Added, `-` for Removed.
pub open spec fn spec_diff_row(status: DiffStatus, it: ItemView) -> Seq<char> {
    "| "@ + (match status {
        DiffStatus::Added => "+"@,
        DiffStatus::Removed => "-"@,
    }) + " | "@ + spec_escape(it.file) + " | "@ + spec_digits(it.line as nat) + " | "@
        + spec_tag_str(it.tag) + " | "@ + spec_escape(it.message) + " |"@
}

/// The diff rows, each preceded by a newline.
pub open spec fn spec_diff_rows(entries: Seq<crate::diff::EntryView>) -> Seq<char>
    decreases entries.len(),
{
    if entries.len() == 0 {
        Seq::empty()
    } else {
        spec_diff_rows(entries.drop_last()) + seq!['\n'] + spec_diff_row(
            entries.last().status,
            entries.last().item,
        )
    }
}

/// The whole diff table with its `**+a -r** (base: ...)` summary.
pub open spec fn spec_format_diff(
    entries: Seq<crate::diff::EntryView>,
    added: nat,
    removed: nat,
    base_ref: Seq<char>,
) -> Seq<char> {
    "| Status | File | Line | Tag | Message |"@ + seq!['\n']
        + "|--------|------|------|-----|---------|"@ + spec_diff_rows(entries) + seq!['\n']
        + seq!['\n'] + "**+"@ + spec_digits(added) + " -"@ + spec_digits(removed) + "** (base: `"@
        + spec_escape(base_ref) + "`)"@ + seq!['\n']
}

/// Formats a diff result as a markdown table.
pub fn format_diff(result: &DiffResult) -> (r: String)
    ensures
        r@ == spec_format_diff(
            result.entries.deep_view(),
            result.added_count as nat,
            result.removed_count as nat,
            result.base_ref@,
        ),
{
    let ghost ev = result.entries.deep_view();
    let mut out: String = String::from_str("| Status | File | Line | Tag | Message |");
    push_char(&mut out, '\n');
    out.append("|--------|------|------|-----|---------|");
    let ghost head = out@;
    let mut i: usize = 0;
    proof {
        assert(ev.take(0) =~= Seq::<crate::diff::EntryView>::empty());
        assert(out@ =~= head + spec_diff_rows(ev.take(0)));
    }
    while i < result.entries.len()
        invariant
            0 <= i <= result.entries@.len(),
            ev == result.entries.deep_view(),
            out@ == head + spec_diff_rows(ev.take(i as int)),
        decreases result.entries@.len() - i,
    {
        proof {
            assert(ev.take(i + 1).drop_last() =~= ev.take(i as int));
            assert(ev.take(i + 1).last() == ev[i as int]);
            assert(ev[i as int] == result.entries@[i as int]@);
        }
        push_char(&mut out, '\n');
        out.append("| ");
        match result.entries[i].status {
            DiffStatus::Added => out.append("+"),
            DiffStatus::Removed => out.append("-"),
        }
        out.append(" | ");
        let file_e: String = escape_cell(result.entries[i].item.file.as_str());
        out.append(file_e.as_str());
        out.append(" | ");
        let line_s: String = usize_to_string(result.entries[i].item.line);
        out.append(line_s.as_str());
        out.append(" | ");
        out.append(result.entries[i].item.tag.as_str());
        out.append(" | ");
        let msg_e: String = escape_cell(result.entries[i].item.message.as_str());
        out.append(msg_e.as_str());
        out.append(" |");
        proof {
            assert(out@ =~= head + spec_diff_rows(ev.take(i + 1)));
        }
        i = i + 1;
    }
    proof {
        assert(ev.take(result.entries@.len() as int) =~= ev);
    }
    push_char(&mut out, '\n');
    push_char(&mut out, '\n');
    out.append("**+");
    let a_s: String = usize_to_string(result.added_count);
    out.append(a_s.as_str());
    out.append(" -");
    let r_s: String = usize_to_string(result.removed_count);
    out.append(r_s.as_str());
    out.append("** (base: `");
    let b_e: String = escape_cell(result.base_ref.as_str());
    out.append(b_e.as_str());
    out.append("`)");
    push_char(&mut out, '\n');
    proof {
        assert(out@ =~= spec_format_diff(
            ev,
            result.added_count as nat,
            result.removed_count as nat,
            result.base_ref@,
        ));
    }
    out
}

/// Formats `n` in decimal (for 64-bit counters).
fn u64_to_string(n: u64) -> (r: String)
    ensures
        r@ == spec_digits(n as nat),
    decreases n,
{
    let mut s: String = if n >= 10 {
        u64_to_string(n / 10)
    } else {
        String::new()
    };
    let d: u64 = n % 10;
    let c: char = match d {
        0 => '0',
        1 => '1',
        2 => '2',
        3 => '3',
        4 => '4',
        5 => '5',
        6 => '6',
        7 => '7',
        8 => '8',
        _ => '9',
    };
    push_char(&mut s, c);
    proof {
        if n < 10 {
            assert(Seq::<char>::empty().push(crate::strings::digit_char(n as int)) =~= seq![
                crate::strings::digit_char(n as int),
            ]);
        }
    }
    s
}

/// One row of the blame table.
pub open spec fn spec_blame_row(e: BlameEntry) -> Seq<char> {
    "| "@ + spec_escape(e.item@.file) + " | "@ + spec_digits(e.item@.line as nat) + " | "@
        + spec_tag_str(e.item@.tag) + " | "@ + spec_escape(e.item@.message) + " | "@ + spec_escape(
        e.blame.author@,
    ) + " | "@ + spec_escape(e.blame.date@) + " | "@ + spec_digits(e.blame.age_days as nat)
        + " | "@ + (if e.stale {
        "Yes"@
    } else {
        Seq::empty()
    }) + " |"@
}

/// The blame rows, each preceded by a newline.
pub open spec fn spec_blame_rows(entries: Seq<BlameEntry>) -> Seq<char>
    decreases entries.len(),
{
    if entries.len() == 0 {
        Seq::empty()
    } else {
        spec_blame_rows(entries.drop_last()) + seq!['\n'] + spec_blame_row(entries.last())
    }
}

/// The whole blame table with its age summary.
pub open spec fn spec_format_blame(
    entries: Seq<BlameEntry>,
    total: nat,
    avg: nat,
    stale: nat,
    threshold: nat,
) -> Seq<char> {
    "| File | Line | Tag | Message | Author | Date | Age (days) | Stale |"@ + seq!['\n']
        + "|------|------|-----|---------|--------|------|------------|-------|"@
        + spec_blame_rows(entries) + seq!['\n'] + seq!['\n'] + "**"@ + spec_digits(total)
        + " items, avg age "@ + spec_digits(avg) + " days, "@ + spec_digits(stale)
        + " stale** (threshold: "@ + spec_digits(threshold) + " days)"@ + seq!['\n']
}

/// Formats a blame result as a markdown table.
#[verifier::rlimit(40)]
pub fn format_blame(result: &BlameResult) -> (r: String)
    ensures
        r@ == spec_format_blame(
            result.entries@,
            result.total as nat,
            result.avg_age_days as nat,
            result.stale_count as nat,
            result.stale_threshold_days as nat,
        ),
{
    let ghost ev = result.entries@;
    let mut out: String = String::from_str(
        "| File | Line | Tag | Message | Author | Date | Age (days) | Stale |",
    );
    push_char(&mut out, '\n');
    out.append("|------|------|-----|---------|--------|------|------------|-------|");
    let ghost head = out@;
    let mut i: usize = 0;
    proof {
        assert(ev.take(0) =~= Seq::<BlameEntry>::empty());
        assert(out@ =~= head + spec_blame_rows(ev.take(0)));
    }
    while i < result.entries.len()
        invariant
            0 <= i <= ev.len(),
            ev == result.entries@,
            out@ == head + spec_blame_rows(ev.take(i as int)),
        decreases ev.len() - i,
    {
        proof {
            assert(ev.take(i + 1).drop_last() =~= ev.take(i as int));
            assert(ev.take(i + 1).last() == ev[i as int]);
        }
        push_char(&mut out, '\n');
        out.append("| ");
        let file_e: String = escape_cell(result.entries[i].item.file.as_str());
        out.append(file_e.as_str());
        out.append(" | ");
        let line_s: String = usize_to_string(result.entries[i].item.line);
        out.append(line_s.as_str());
        out.append(" | ");
        out.append(result.entries[i].item.tag.as_str());
        out.append(" | ");
        let msg_e: String = escape_cell(result.entries[i].item.message.as_str());
        out.append(msg_e.as_str());
        out.append(" | ");
        let auth_e: String = escape_cell(result.entries[i].blame.author.as_str());
        out.append(auth_e.as_str());
        out.append(" | ");
        let date_e: String = escape_cell(result.entries[i].blame.date.as_str());
        out.append(date_e.as_str());
        out.append(" | ");
        let age_s: String = u64_to_string(result.entries[i].blame.age_days);
        out.append(age_s.as_str());
        out.append(" | ");
        if result.entries[i].stale {
            out.append("Yes");
        }
        out.append(" |");
        proof {
            assert(out@ =~= head + spec_blame_rows(ev.take(i + 1)));
        }
        i = i + 1;
    }
    proof {
        assert(ev.take(ev.len() as int) =~= ev);
    }
    push_char(&mut out, '\n');
    push_char(&mut out, '\n');
    out.append("**");
    let t_s: String = usize_to_string(result.total);
    out.append(t_s.as_str());
    out.append(" items, avg age ");
    let a_s: String = u64_to_string(result.avg_age_days);
    out.append(a_s.as_str());
    out.append(" days, ");
    let s_s: String = usize_to_string(result.stale_count);
    out.append(s_s.as_str());
    out.append(" stale** (threshold: ");
    let th_s: String = u64_to_string(result.stale_threshold_days);
    out.append(th_s.as_str());
    out.append(" days)");
    push_char(&mut out, '\n');
    proof {
        assert(out@ =~= spec_format_blame(
            ev,
            result.total as nat,
            result.avg_age_days as nat,
            result.stale_count as nat,
            result.stale_threshold_days as nat,
        ));
    }
    out
}

/// One row of the lint violation table.
pub open spec fn spec_lint_row(v: LintViolation) -> Seq<char> {
    "| "@ + spec_escape(v.file@) + " | "@ + spec_digits(v.line as nat) + " | "@ + spec_escape(
        v.rule@,
    ) + " | "@ + spec_escape(v.message@) + " | "@ + (match v.suggestion {
        Some(s) => spec_escape(s@),
        None => Seq::empty(),
    }) + " |"@
}

/// The lint rows, each preceded by a newline.
pub open spec fn spec_lint_rows(vs: Seq<LintViolation>) -> Seq<char>
    decreases vs.len(),
{
    if vs.len() == 0 {
        Seq::empty()
    } else {
        spec_lint_rows(vs.drop_last()) + seq!['\n'] + spec_lint_row(vs.last())
    }
}

/// The lint report: a PASS banner, or the violation table with a summary.
pub open spec fn spec_format_lint(
    passed: bool,
    total_items: nat,
    violation_count: nat,
    vs: Seq<LintViolation>,
) -> Seq<char> {
    if passed {
        "## PASS"@ + seq!['\n'] + seq!['\n'] + "All lint checks passed ("@ + spec_digits(
            total_items,
        ) + " items total)."@ + seq!['\n']
    } else {
        "## FAIL"@ + seq!['\n'] + seq!['\n'] + "| File | Line | Rule | Message | Suggestion |"@
            + seq!['\n'] + "|------|------|------|---------|------------|"@ + spec_lint_rows(vs)
            + seq!['\n'] + seq!['\n'] + "**"@ + spec_digits(violation_count) + " violations in "@
            + spec_digits(total_items) + " items**"@ + seq!['\n']
    }
}

/// Formats a lint result.
pub fn format_lint(result: &LintResult) -> (r: String)
    ensures
        r@ == spec_format_lint(
            result.passed,
            result.total_items as nat,
            result.violation_count as nat,
            result.violations@,
        ),
{
    if result.passed {
        let mut out: String = String::from_str("## PASS");
        push_char(&mut out, '\n');
        push_char(&mut out, '\n');
        out.append("All lint checks passed (");
        let n_s: String = usize_to_string(result.total_items);
        out.append(n_s.as_str());
        out.append(" items total).");
        push_char(&mut out, '\n');
        proof {
            assert(out@ =~= spec_format_lint(
                result.passed,
                result.total_items as nat,
                result.violation_count as nat,
                result.violations@,
            ));
        }
        return out;
    }
    let ghost vs = result.violations@;
    let mut out: String = String::from_str("## FAIL");
    push_char(&mut out, '\n');
    push_char(&mut out, '\n');
    out.append("| File | Line | Rule | Message | Suggestion |");
    push_char(&mut out, '\n');
    out.append("|------|------|------|---------|------------|");
    let ghost head = out@;
    let mut i: usize = 0;
    proof {
        assert(vs.take(0) =~= Seq::<LintViolation>::empty());
        assert(out@ =~= head + spec_lint_rows(vs.take(0)));
    }
    while i < result.violations.len()
        invariant
            0 <= i <= vs.len(),
            vs == result.violations@,
            out@ == head + spec_lint_rows(vs.take(i as int)),
        decreases vs.len() - i,
    {
        proof {
            assert(vs.take(i + 1).drop_last() =~= vs.take(i as int));
            assert(vs.take(i + 1).last() == vs[i as int]);
        }
        push_char(&mut out, '\n');
        out.append("| ");
        let file_e: String = escape_cell(result.violations[i].file.as_str());
        out.append(file_e.as_str());
        out.append(" | ");
        let line_s: String = usize_to_string(result.violations[i].line);
        out.append(line_s.as_str());
        out.append(" | ");
        let rule_e: String = escape_cell(result.violations[i].rule.as_str());
        out.append(rule_e.as_str());
        out.append(" | ");
        let msg_e: String = escape_cell(result.violations[i].message.as_str());
        out.append(msg_e.as_str());
        out.append(" | ");
        match &result.violations[i].suggestion {
            Some(sug) => {
                let s_e: String = escape_cell(sug.as_str());
                out.append(s_e.as_str());
            },
            None => {},
        }
        out.append(" |");
        proof {
            assert(out@ =~= head + spec_lint_rows(vs.take(i + 1)));
        }
        i = i + 1;
    }
    proof {
        assert(vs.take(vs.len() as int) =~= vs);
    }
    push_char(&mut out, '\n');
    push_char(&mut out, '\n');
    out.append("**");
    let v_s: String = usize_to_string(result.violation_count);
    out.append(v_s.as_str());
    out.append(" violations in ");
    let n_s: String = usize_to_string(result.total_items);
    out.append(n_s.as_str());
    out.append(" items**");
    push_char(&mut out, '\n');
    proof {
        assert(out@ =~= spec_format_lint(
            result.passed,
            result.total_items as nat,
            result.violation_count as nat,
            vs,
        ));
    }
    out
}

/// One bullet line of the check report.
pub open spec fn spec_check_line(v: crate::check::ViolationView) -> Seq<char> {
    "- **"@ + spec_escape(v.rule) + "**: "@ + spec_escape(v.message)
}

/// The check bullet lines, each preceded by a newline.
pub open spec fn spec_check_lines(vs: Seq<crate::check::ViolationView>) -> Seq<char>
    decreases vs.len(),
{
    if vs.len() == 0 {
        Seq::empty()
    } else {
        spec_check_lines(vs.drop_last()) + seq!['\n'] + spec_check_line(vs.last())
    }
}

/// The check report: a PASS banner, or a FAIL banner with one bullet per
/// violation.
pub open spec fn spec_format_check(
    passed: bool,
    total: nat,
    vs: Seq<crate::check::ViolationView>,
) -> Seq<char> {
    if passed {
        "## PASS"@ + seq!['\n'] + seq!['\n'] + "All checks passed ("@ + spec_digits(total)
            + " items total)."@ + seq!['\n']
    } else {
        "## FAIL"@ + seq!['\n'] + spec_check_lines(vs) + seq!['\n']
    }
}

/// Formats a check result.
pub fn format_check(result: &CheckResult) -> (r: String)
    ensures
        r@ == spec_format_check(
            result.passed,
            result.total as nat,
            result.violations.deep_view(),
        ),
{
    if result.passed {
        let mut out: String = String::from_str("## PASS");
        push_char(&mut out, '\n');
        push_char(&mut out, '\n');
        out.append("All checks passed (");
        let n_s: String = usize_to_string(result.total);
        out.append(n_s.as_str());
        out.append(" items total).");
        push_char(&mut out, '\n');
        proof {
            assert(out@ =~= spec_format_check(
                result.passed,
                result.total as nat,
                result.violations.deep_view(),
            ));
        }
        return out;
    }
    let ghost vs = result.violations.deep_view();
    let mut out: String = String::from_str("## FAIL");
    push_char(&mut out, '\n');
    let ghost head = out@;
    let mut i: usize = 0;
    proof {
        assert(vs.take(0) =~= Seq::<crate::check::ViolationView>::empty());
        assert(out@ =~= head + spec_check_lines(vs.take(0)));
    }
    while i < result.violations.len()
        invariant
            0 <= i <= vs.len(),
            vs == result.violations.deep_view(),
            out@ == head + spec_check_lines(vs.take(i as int)),
        decreases vs.len() - i,
    {
        proof {
            assert(vs.take(i + 1).drop_last() =~= vs.take(i as int));
            assert(vs.take(i + 1).last() == vs[i as int]);
            assert(vs[i as int] == result.violations@[i as int]@);
        }
        push_char(&mut out, '\n');
        out.append("- **");
        let rule_e: String = escape_cell(result.violations[i].rule.as_str());
        out.append(rule_e.as_str());
        out.append("**: ");
        let msg_e: String = escape_cell(result.violations[i].message.as_str());
        out.append(msg_e.as_str());
        proof {
            assert(out@ =~= head + spec_check_lines(vs.take(i + 1)));
        }
        i = i + 1;
    }
    proof {
        assert(vs.take(vs.len() as int) =~= vs);
    }
    push_char(&mut out, '\n');
    proof {
        assert(out@ =~= spec_format_check(result.passed, result.total as nat, vs));
    }
    out
}

/// The detail cell of a clean violation: what it duplicates, or its issue
/// reference, or nothing.
pub open spec fn spec_clean_detail(v: CleanViolation) -> Seq<char> {
    match v.duplicate_of {
        Some(dup) => spec_escape("duplicate of "@ + dup@),
        None => match v.issue_ref {
            Some(ir) => spec_escape(ir@),
            None => Seq::empty(),
        },
    }
}

/// One row of the clean violation table.
pub open spec fn spec_clean_row(v: CleanViolation) -> Seq<char> {
    "| "@ + spec_escape(v.file@) + " | "@ + spec_digits(v.line as nat) + " | "@ + spec_escape(
        v.rule@,
    ) + " | "@ + spec_escape(v.message@) + " | "@ + spec_clean_detail(v) + " |"@
}

/// The clean rows, each preceded by a newline.
pub open spec fn spec_clean_rows(vs: Seq<CleanViolation>) -> Seq<char>
    decreases vs.len(),
{
    if vs.len() == 0 {
        Seq::empty()
    } else {
        spec_clean_rows(vs.drop_last()) + seq!['\n'] + spec_clean_row(vs.last())
    }
}

/// The clean report: a PASS banner, or the violation table with a summary.
pub open spec fn spec_format_clean(
    passed: bool,
    total_items: nat,
    stale: nat,
    dup: nat,
    vs: Seq<CleanViolation>,
) -> Seq<char> {
    if passed {
        "## PASS"@ + seq!['\n'] + seq!['\n'] + "All clean checks passed ("@ + spec_digits(
            total_items,
        ) + " items total)."@ + seq!['\n']
    } else {
        "## FAIL"@ + seq!['\n'] + seq!['\n'] + "| File | Line | Rule | Message | Detail |"@
            + seq!['\n'] + "|------|------|------|---------|--------|"@ + spec_clean_rows(vs)
            + seq!['\n'] + seq!['\n'] + "**"@ + spec_digits(vs.len()) + " violations ("@
            + spec_digits(stale) + " stale, "@ + spec_digits(dup) + " duplicates) in "@
            + spec_digits(total_items) + " items**"@ + seq!['\n']
    }
}

/// Formats a clean result.
pub fn format_clean(result: &CleanResult) -> (r: String)
    ensures
        r@ == spec_format_clean(
            result.passed,
            result.total_items as nat,
            result.stale_count as nat,
            result.duplicate_count as nat,
            result.violations@,
        ),
{
    if result.passed {
        let mut out: String = String::from_str("## PASS");
        push_char(&mut out, '\n');
        push_char(&mut out, '\n');
        out.append("All clean checks passed (");
        let n_s: String = usize_to_string(result.total_items);
        out.append(n_s.as_str());
        out.append(" items total).");
        push_char(&mut out, '\n');
        proof {
            assert(out@ =~= spec_format_clean(
                result.passed,
                result.total_items as nat,
                result.stale_count as nat,
                result.duplicate_count as nat,
                result.violations@,
            ));
        }
        return out;
    }
    let ghost vs = result.violations@;
    let mut out: String = String::from_str("## FAIL");
    push_char(&mut out, '\n');
    push_char(&mut out, '\n');
    out.append("| File | Line | Rule | Message | Detail |");
    push_char(&mut out, '\n');
    out.append("|------|------|------|---------|--------|");
    let ghost head = out@;
    let mut i: usize = 0;
    proof {
        assert(vs.take(0) =~= Seq::<CleanViolation>::empty());
        assert(out@ =~= head + spec_clean_rows(vs.take(0)));
    }
    while i < result.violations.len()
        invariant
            0 <= i <= vs.len(),
            vs == result.violations@,
            out@ == head + spec_clean_rows(vs.take(i as int)),
        decreases vs.len() - i,
    {
        proof {
            assert(vs.take(i + 1).drop_last() =~= vs.take(i as int));
            assert(vs.take(i + 1).last() == vs[i as int]);
        }
        push_char(&mut out, '\n');
        out.append("| ");
        let file_e: String = escape_cell(result.violations[i].file.as_str());
        out.append(file_e.as_str());
        out.append(" | ");
        let line_s: String = usize_to_string(result.violations[i].line);
        out.append(line_s.as_str());
        out.append(" | ");
        let rule_e: String = escape_cell(result.violations[i].rule.as_str());
        out.append(rule_e.as_str());
        out.append(" | ");
        let msg_e: String = escape_cell(result.violations[i].message.as_str());
        out.append(msg_e.as_str());
        out.append(" | ");
        match &result.violations[i].duplicate_of {
            Some(dup) => {
                let mut d: String = String::from_str("duplicate of ");
                d.append(dup.as_str());
                let d_e: String = escape_cell(d.as_str());
                out.append(d_e.as_str());
            },
            None => {
                match &result.violations[i].issue_ref {
                    Some(ir) => {
                        let ir_e: String = escape_cell(ir.as_str());
                        out.append(ir_e.as_str());
                    },
                    None => {},
                }
            },
        }
        out.append(" |");
        proof {
            assert(out@ =~= head + spec_clean_rows(vs.take(i + 1)));
        }
        i = i + 1;
    }
    proof {
        assert(vs.take(vs.len() as int) =~= vs);
    }
    push_char(&mut out, '\n');
    push_char(&mut out, '\n');
    out.append("**");
    let v_s: String = usize_to_string(result.violations.len());
    out.append(v_s.as_str());
    out.append(" violations (");
    let s_s: String = usize_to_string(result.stale_count);
    out.append(s_s.as_str());
    out.append(" stale, ");
    let d_s: String = usize_to_string(result.duplicate_count);
    out.append(d_s.as_str());
    out.append(" duplicates) in ");
    let n_s: String = usize_to_string(result.total_items);
    out.append(n_s.as_str());
    out.append(" items**");
    push_char(&mut out, '\n');
    proof {
        assert(out@ =~= spec_format_clean(
            result.passed,
            result.total_items as nat,
            result.stale_count as nat,
            result.duplicate_count as nat,
            vs,
        ));
    }
    out
}

} // verus!
