//! The snapshot diff algorithm and the git-scoped diff driver: two annotation
//! collections are partitioned into Added/Removed entries by identity-key
//! membership, and a git-backed driver bounds the work to files that changed.

use vstd::prelude::*;
use vstd::string::*;

use crate::config::{spec_tags_pattern, Config};
use crate::model::{
    item_key, same_key, DiffEntry, DiffResult, DiffStatus, ItemView, ScanResult, Tag, TodoItem,
};
use crate::pattern::{compile_pattern, regex_src, spec_compiles};
use crate::scanner::scan_content;
use crate::strings::{
    contains_string, lemma_push_contains, spec_lines, spec_trim, split_lines, trim,
};

verus! {

/// The view of a diff entry.
pub struct EntryView {
    pub status: DiffStatus,
    pub item: ItemView,
}

impl View for DiffEntry {
    type V = EntryView;

    open spec fn view(&self) -> EntryView {
        EntryView { status: self.status, item: self.item@ }
    }
}

impl DeepView for DiffEntry {
    type V = EntryView;

    open spec fn deep_view(&self) -> EntryView {
        self.view()
    }
}

/// Some annotation in `items` carries the identity key `k`.
pub open spec fn key_in(k: (Seq<char>, Tag, Seq<char>), items: Seq<ItemView>) -> bool {
    exists|i: int| 0 <= i < items.len() && item_key(items[i]) == k
}

/// The Added entries of a diff: annotations of `cur`, in order, whose
/// identity key does not occur in `base`.
pub open spec fn spec_added_entries(base: Seq<ItemView>, cur: Seq<ItemView>) -> Seq<EntryView>
    decreases cur.len(),
{
    if cur.len() == 0 {
        Seq::empty()
    } else {
        spec_added_entries(base, cur.drop_last()) + (if !key_in(item_key(cur.last()), base) {
            seq![EntryView { status: DiffStatus::Added, item: cur.last() }]
        } else {
            Seq::empty()
        })
    }
}

/// The Removed entries of a diff: annotations of `base`, in order, whose
/// identity key does not occur in `cur`.
pub open spec fn spec_removed_entries(base: Seq<ItemView>, cur: Seq<ItemView>) -> Seq<EntryView>
    decreases base.len(),
{
    if base.len() == 0 {
        Seq::empty()
    } else {
        spec_removed_entries(base.drop_last(), cur) + (if !key_in(item_key(base.last()), cur) {
            seq![EntryView { status: DiffStatus::Removed, item: base.last() }]
        } else {
            Seq::empty()
        })
    }
}

/// The entries of a diff: every Added entry, then every Removed entry.
pub open spec fn spec_entries(base: Seq<ItemView>, cur: Seq<ItemView>) -> Seq<EntryView> {
    spec_added_entries(base, cur) + spec_removed_entries(base, cur)
}

/// How many entries carry the given status.
pub open spec fn count_status(entries: Seq<EntryView>, st: DiffStatus) -> int
    decreases entries.len(),
{
    if entries.len() == 0 {
        0
    } else {
        count_status(entries.drop_last(), st) + (if entries.last().status == st {
            1int
        } else {
            0int
        })
    }
}

/// The counts of a diff result always equal the entry-status tally.
pub open spec fn count_consistent(d: DiffResult) -> bool {
    d.added_count == count_status(d.entries.deep_view(), DiffStatus::Added)
        && d.removed_count == count_status(d.entries.deep_view(), DiffStatus::Removed)
        && d.entries@.len() == d.added_count + d.removed_count
}

proof fn lemma_count_concat(a: Seq<EntryView>, b: Seq<EntryView>, st: DiffStatus)
    ensures
        count_status(a + b, st) == count_status(a, st) + count_status(b, st),
    decreases b.len(),
{
    if b.len() == 0 {
        assert(a + b =~= a);
    } else {
        assert((a + b).drop_last() =~= a + b.drop_last());
        assert((a + b).last() == b.last());
        lemma_count_concat(a, b.drop_last(), st);
    }
}

proof fn lemma_count_uniform(s: Seq<EntryView>, st: DiffStatus, st2: DiffStatus)
    requires
        forall|i: int| 0 <= i < s.len() ==> s[i].status == st,
    ensures
        count_status(s, st2) == if st2 == st {
            s.len() as int
        } else {
            0
        },
    decreases s.len(),
{
    if s.len() > 0 {
        lemma_count_uniform(s.drop_last(), st, st2);
    }
}

proof fn lemma_added_all_added(base: Seq<ItemView>, cur: Seq<ItemView>)
    ensures
        forall|i: int|
            0 <= i < spec_added_entries(base, cur).len() ==> spec_added_entries(base, cur)[i].status
                == DiffStatus::Added,
    decreases cur.len(),
{
    if cur.len() > 0 {
        lemma_added_all_added(base, cur.drop_last());
    }
}

proof fn lemma_removed_all_removed(base: Seq<ItemView>, cur: Seq<ItemView>)
    ensures
        forall|i: int|
            0 <= i < spec_removed_entries(base, cur).len() ==> spec_removed_entries(
                base,
                cur,
            )[i].status == DiffStatus::Removed,
    decreases base.len(),
{
    if base.len() > 0 {
        lemma_removed_all_removed(base.drop_last(), cur);
    }
}

/// The status tally of `spec_entries` is exactly the two partition lengths.
pub proof fn lemma_entries_counts(base: Seq<ItemView>, cur: Seq<ItemView>)
    ensures
        count_status(spec_entries(base, cur), DiffStatus::Added) == spec_added_entries(
            base,
            cur,
        ).len(),
        count_status(spec_entries(base, cur), DiffStatus::Removed) == spec_removed_entries(
            base,
            cur,
        ).len(),
{
    let a = spec_added_entries(base, cur);
    let r = spec_removed_entries(base, cur);
    lemma_added_all_added(base, cur);
    lemma_removed_all_removed(base, cur);
    lemma_count_concat(a, r, DiffStatus::Added);
    lemma_count_concat(a, r, DiffStatus::Removed);
    lemma_count_uniform(a, DiffStatus::Added, DiffStatus::Added);
    lemma_count_uniform(a, DiffStatus::Added, DiffStatus::Removed);
    lemma_count_uniform(r, DiffStatus::Removed, DiffStatus::Added);
    lemma_count_uniform(r, DiffStatus::Removed, DiffStatus::Removed);
}

/// Decides whether any annotation in `items` shares `item`'s identity key.
pub(crate) fn key_in_vec(item: &TodoItem, items: &Vec<TodoItem>) -> (r: bool)
    ensures
        r == key_in(item_key(item@), items.deep_view()),
{
    let mut i: usize = 0;
    while i < items.len()
        invariant
            0 <= i <= items.len(),
            forall|k: int| 0 <= k < i ==> item_key(items.deep_view()[k]) != item_key(item@),
        decreases items.len() - i,
    {
        if same_key(item, &items[i]) {
            proof {
                assert(items.deep_view()[i as int] == items@[i as int]@);
                assert(key_in(item_key(item@), items.deep_view()));
            }
            return true;
        }
        proof {
            assert(items.deep_view()[i as int] == items@[i as int]@);
        }
        i = i + 1;
    }
    false
}

/// Diffs two snapshots by identity key: Added annotations are those of
/// `current_items` whose key is absent from `base_items`, Removed those of
/// `base_items` whose key is absent from `current_items`. An annotation
/// present in both snapshots never appears, even if it moved to another line.
pub fn snapshot_diff(
    base_items: &Vec<TodoItem>,
    current_items: &Vec<TodoItem>,
    base_ref: &str,
) -> (d: DiffResult)
    ensures
        d.entries.deep_view() == spec_entries(base_items.deep_view(), current_items.deep_view()),
        d.added_count == spec_added_entries(
            base_items.deep_view(),
            current_items.deep_view(),
        ).len(),
        d.removed_count == spec_removed_entries(
            base_items.deep_view(),
            current_items.deep_view(),
        ).len(),
        d.base_ref@ == base_ref@,
        count_consistent(d),
{
    let ghost bv = base_items.deep_view();
    let ghost cv = current_items.deep_view();
    let mut entries: Vec<DiffEntry> = Vec::new();
    let mut i: usize = 0;
    proof {
        assert(entries.deep_view() =~= Seq::<EntryView>::empty());
        assert(cv.take(0) =~= Seq::<ItemView>::empty());
        assert(entries.deep_view() =~= spec_added_entries(bv, cv.take(0)));
    }
    while i < current_items.len()
        invariant
            0 <= i <= current_items.len(),
            bv == base_items.deep_view(),
            cv == current_items.deep_view(),
            entries.deep_view() == spec_added_entries(bv, cv.take(i as int)),
        decreases current_items.len() - i,
    {
        proof {
            assert(cv.take(i + 1).drop_last() =~= cv.take(i as int));
            assert(cv.take(i + 1).last() == cv[i as int]);
            assert(cv[i as int] == current_items@[i as int]@);
        }
        if !key_in_vec(&current_items[i], base_items) {
            let ghost old_dv = entries.deep_view();
            let entry = DiffEntry { status: DiffStatus::Added, item: current_items[i].clone() };
            proof {
                assert(entry@ == (EntryView { status: DiffStatus::Added, item: cv[i as int] }));
            }
            entries.push(entry);
            proof {
                assert(entries.deep_view() =~= old_dv.push(entry@));
                assert(old_dv.push(entry@) =~= old_dv + seq![entry@]);
                assert(entries.deep_view() =~= spec_added_entries(bv, cv.take(i + 1)));
            }
        } else {
            proof {
                assert(entries.deep_view() + Seq::<EntryView>::empty() =~= entries.deep_view());
                assert(entries.deep_view() =~= spec_added_entries(bv, cv.take(i + 1)));
            }
        }
        i = i + 1;
    }
    proof {
        assert(cv.take(current_items@.len() as int) =~= cv);
    }
    let added_count: usize = entries.len();
    let mut j: usize = 0;
    proof {
        assert(bv.take(0) =~= Seq::<ItemView>::empty());
        assert(entries.deep_view() + spec_removed_entries(bv.take(0), cv) =~= entries.deep_view());
    }
    while j < base_items.len()
        invariant
            0 <= j <= base_items.len(),
            bv == base_items.deep_view(),
            cv == current_items.deep_view(),
            added_count == spec_added_entries(bv, cv).len(),
            entries.deep_view() == spec_added_entries(bv, cv) + spec_removed_entries(
                bv.take(j as int),
                cv,
            ),
        decreases base_items.len() - j,
    {
        proof {
            assert(bv.take(j + 1).drop_last() =~= bv.take(j as int));
            assert(bv.take(j + 1).last() == bv[j as int]);
            assert(bv[j as int] == base_items@[j as int]@);
        }
        if !key_in_vec(&base_items[j], current_items) {
            let ghost old_dv = entries.deep_view();
            let entry = DiffEntry { status: DiffStatus::Removed, item: base_items[j].clone() };
            proof {
                assert(entry@ == (EntryView { status: DiffStatus::Removed, item: bv[j as int] }));
            }
            entries.push(entry);
            proof {
                assert(entries.deep_view() =~= old_dv.push(entry@));
                assert(old_dv.push(entry@) =~= old_dv + seq![entry@]);
                assert(entries.deep_view() =~= spec_added_entries(bv, cv) + spec_removed_entries(
                    bv.take(j + 1),
                    cv,
                ));
            }
        } else {
            proof {
                assert(entries.deep_view() =~= spec_added_entries(bv, cv) + spec_removed_entries(
                    bv.take(j + 1),
                    cv,
                ));
            }
        }
        j = j + 1;
    }
    proof {
        assert(bv.take(base_items@.len() as int) =~= bv);
    }
    let total: usize = entries.len();
    let removed_count: usize = total - added_count;
    proof {
        lemma_entries_counts(bv, cv);
    }
    DiffResult { entries, added_count, removed_count, base_ref: base_ref.to_owned() }
}

/// Diffing a snapshot against itself yields no entries: every identity key
/// of the snapshot occurs in the snapshot.
pub proof fn lemma_diff_self_empty(s: Seq<ItemView>)
    ensures
        spec_entries(s, s) == Seq::<EntryView>::empty(),
{
    assert forall|i: int| 0 <= i < s.len() implies key_in(item_key(s[i]), s) by {
        assert(0 <= i < s.len() && item_key(s[i]) == item_key(s[i]));
    }
    lemma_added_empty(s, s);
    lemma_removed_empty(s, s);
    assert(spec_entries(s, s) =~= Seq::<EntryView>::empty());
}

proof fn lemma_added_empty(base: Seq<ItemView>, cur: Seq<ItemView>)
    requires
        forall|i: int| 0 <= i < cur.len() ==> key_in(item_key(cur[i]), base),
    ensures
        spec_added_entries(base, cur) == Seq::<EntryView>::empty(),
    decreases cur.len(),
{
    if cur.len() > 0 {
        assert(key_in(item_key(cur.last()), base));
        lemma_added_empty(base, cur.drop_last());
        assert(spec_added_entries(base, cur) =~= Seq::<EntryView>::empty());
    }
}

proof fn lemma_removed_empty(base: Seq<ItemView>, cur: Seq<ItemView>)
    requires
        forall|i: int| 0 <= i < base.len() ==> key_in(item_key(base[i]), cur),
    ensures
        spec_removed_entries(base, cur) == Seq::<EntryView>::empty(),
    decreases base.len(),
{
    if base.len() > 0 {
        assert(key_in(item_key(base.last()), cur));
        lemma_removed_empty(base.drop_last(), cur);
        assert(spec_removed_entries(base, cur) =~= Seq::<EntryView>::empty());
    }
}

/// Line-shift invariance: when two snapshots agree pointwise on identity
/// keys — in particular when annotations only moved to different lines, or
/// changed author, priority, issue reference or deadline — the diff is
/// empty.
pub proof fn lemma_diff_empty_when_keys_pointwise_equal(base: Seq<ItemView>, cur: Seq<ItemView>)
    requires
        base.len() == cur.len(),
        forall|i: int| 0 <= i < base.len() ==> item_key(base[i]) == item_key(cur[i]),
    ensures
        spec_entries(base, cur) == Seq::<EntryView>::empty(),
{
    assert forall|i: int| 0 <= i < cur.len() implies key_in(item_key(cur[i]), base) by {
        assert(0 <= i < base.len() && item_key(base[i]) == item_key(cur[i]));
    }
    assert forall|i: int| 0 <= i < base.len() implies key_in(item_key(base[i]), cur) by {
        assert(0 <= i < cur.len() && item_key(cur[i]) == item_key(base[i]));
    }
    lemma_added_empty(base, cur);
    lemma_removed_empty(base, cur);
    assert(spec_entries(base, cur) =~= Seq::<EntryView>::empty());
}

proof fn lemma_added_single(base: Seq<ItemView>, cur: Seq<ItemView>, j: int)
    requires
        0 <= j < cur.len(),
        !key_in(item_key(cur[j]), base),
        forall|i: int| 0 <= i < cur.len() && i != j ==> key_in(item_key(cur[i]), base),
    ensures
        spec_added_entries(base, cur) == seq![
            EntryView { status: DiffStatus::Added, item: cur[j] },
        ],
    decreases cur.len(),
{
    if j == cur.len() - 1 {
        lemma_added_empty(base, cur.drop_last());
        assert(spec_added_entries(base, cur) =~= seq![
            EntryView { status: DiffStatus::Added, item: cur[j] },
        ]);
    } else {
        lemma_added_single(base, cur.drop_last(), j);
        assert(key_in(item_key(cur.last()), base));
        assert(spec_added_entries(base, cur) =~= seq![
            EntryView { status: DiffStatus::Added, item: cur[j] },
        ]);
    }
}

proof fn lemma_removed_single(base: Seq<ItemView>, cur: Seq<ItemView>, j: int)
    requires
        0 <= j < base.len(),
        !key_in(item_key(base[j]), cur),
        forall|i: int| 0 <= i < base.len() && i != j ==> key_in(item_key(base[i]), cur),
    ensures
        spec_removed_entries(base, cur) == seq![
            EntryView { status: DiffStatus::Removed, item: base[j] },
        ],
    decreases base.len(),
{
    if j == base.len() - 1 {
        lemma_removed_empty(base.drop_last(), cur);
        assert(spec_removed_entries(base, cur) =~= seq![
            EntryView { status: DiffStatus::Removed, item: base[j] },
        ]);
    } else {
        lemma_removed_single(base.drop_last(), cur, j);
        assert(key_in(item_key(base.last()), cur));
        assert(spec_removed_entries(base, cur) =~= seq![
            EntryView { status: DiffStatus::Removed, item: base[j] },
        ]);
    }
}

/// One annotation changed identity, the rest kept theirs: the diff holds
/// exactly one Added entry (the new form) and one Removed entry (the old
/// form).
proof fn lemma_single_identity_change(base: Seq<ItemView>, cur: Seq<ItemView>, j: int)
    requires
        base.len() == cur.len(),
        0 <= j < base.len(),
        forall|i: int| 0 <= i < base.len() && i != j ==> item_key(base[i]) == item_key(cur[i]),
        item_key(base[j]) != item_key(cur[j]),
        forall|i: int| 0 <= i < base.len() && i != j ==> item_key(base[i]) != item_key(base[j]),
        forall|i: int| 0 <= i < cur.len() && i != j ==> item_key(cur[i]) != item_key(cur[j]),
    ensures
        spec_entries(base, cur) == seq![
            EntryView { status: DiffStatus::Added, item: cur[j] },
            EntryView { status: DiffStatus::Removed, item: base[j] },
        ],
{
    assert(!key_in(item_key(cur[j]), base)) by {
        if key_in(item_key(cur[j]), base) {
            let m = choose|m: int| 0 <= m < base.len() && item_key(base[m]) == item_key(cur[j]);
            if m != j {
                assert(item_key(base[m]) == item_key(cur[m]));
            }
        }
    }
    assert(!key_in(item_key(base[j]), cur)) by {
        if key_in(item_key(base[j]), cur) {
            let m = choose|m: int| 0 <= m < cur.len() && item_key(cur[m]) == item_key(base[j]);
            if m != j {
                assert(item_key(base[m]) == item_key(cur[m]));
            }
        }
    }
    assert forall|i: int| 0 <= i < cur.len() && i != j implies key_in(item_key(cur[i]), base) by {
        assert(0 <= i < base.len() && item_key(base[i]) == item_key(cur[i]));
    }
    assert forall|i: int| 0 <= i < base.len() && i != j implies key_in(item_key(base[i]), cur) by {
        assert(0 <= i < cur.len() && item_key(cur[i]) == item_key(base[i]));
    }
    lemma_added_single(base, cur, j);
    lemma_removed_single(base, cur, j);
    assert(spec_entries(base, cur) =~= seq![
        EntryView { status: DiffStatus::Added, item: cur[j] },
        EntryView { status: DiffStatus::Removed, item: base[j] },
    ]);
}

/// Identity sensitivity (tag): changing only the tag of one annotation —
/// its file and normalised message unchanged, and its identity otherwise
/// unique in both snapshots — produces exactly one Added and one Removed
/// entry.
pub proof fn lemma_tag_change_one_added_one_removed(
    base: Seq<ItemView>,
    cur: Seq<ItemView>,
    j: int,
)
    requires
        base.len() == cur.len(),
        0 <= j < base.len(),
        forall|i: int| 0 <= i < base.len() && i != j ==> item_key(base[i]) == item_key(cur[i]),
        cur[j].tag != base[j].tag,
        forall|i: int| 0 <= i < base.len() && i != j ==> item_key(base[i]) != item_key(base[j]),
        forall|i: int| 0 <= i < cur.len() && i != j ==> item_key(cur[i]) != item_key(cur[j]),
    ensures
        spec_entries(base, cur) == seq![
            EntryView { status: DiffStatus::Added, item: cur[j] },
            EntryView { status: DiffStatus::Removed, item: base[j] },
        ],
        count_status(spec_entries(base, cur), DiffStatus::Added) == 1,
        count_status(spec_entries(base, cur), DiffStatus::Removed) == 1,
{
    assert(item_key(base[j]).1 == base[j].tag);
    assert(item_key(cur[j]).1 == cur[j].tag);
    lemma_single_identity_change(base, cur, j);
    lemma_entries_counts(base, cur);
    lemma_added_single(base, cur, j);
    lemma_removed_single(base, cur, j);
}

/// No path occurs twice.
pub open spec fn nodup(s: Seq<Seq<char>>) -> bool {
    forall|i: int, j: int| 0 <= i < j < s.len() ==> s[i] != s[j]
}

/// `p` is one of the non-empty trimmed lines of a command's output.
pub open spec fn in_cmd_lines(out: Seq<char>, p: Seq<char>) -> bool {
    p.len() > 0 && exists|i: int|
        0 <= i < spec_lines(out).len() && spec_trim(spec_lines(out)[i]) == p
}

/// The file paths of a snapshot's annotations.
pub open spec fn files_of(items: Seq<ItemView>) -> Seq<Seq<char>> {
    items.map_values(|it: ItemView| it.file)
}

/// A path counts as changed when either diff listing names it, or it carries
/// an annotation now but was absent from the base file list (a new file).
pub open spec fn spec_changed(
    diff_ref_out: Seq<char>,
    diff_unstaged_out: Seq<char>,
    base_files: Seq<Seq<char>>,
    items: Seq<ItemView>,
    p: Seq<char>,
) -> bool {
    in_cmd_lines(diff_ref_out, p) || in_cmd_lines(diff_unstaged_out, p) || (files_of(
        items,
    ).contains(p) && !base_files.contains(p))
}

/// Adds every non-empty trimmed line of a command's output that is not
/// already present.
fn add_cmd_lines(out: &mut Vec<String>, cmd_out: &str)
    requires
        nodup(old(out).deep_view()),
    ensures
        nodup(final(out).deep_view()),
        forall|p: Seq<char>|
            #[trigger] final(out).deep_view().contains(p) <==> (old(out).deep_view().contains(p)
                || in_cmd_lines(cmd_out@, p)),
{
    let lines: Vec<String> = split_lines(cmd_out);
    let ghost lv = lines.deep_view();
    let ghost base_dv = out.deep_view();
    let mut i: usize = 0;
    while i < lines.len()
        invariant
            0 <= i <= lines.len(),
            lv == lines.deep_view(),
            lv == spec_lines(cmd_out@),
            nodup(out.deep_view()),
            forall|p: Seq<char>|
                #[trigger] out.deep_view().contains(p) <==> (base_dv.contains(p) || (p.len() > 0
                    && exists|k: int| 0 <= k < i && spec_trim(lv[k]) == p)),
        decreases lines.len() - i,
    {
        let t: &str = trim(lines[i].as_str());
        proof {
            assert(lv[i as int] == lines@[i as int]@);
            assert(t@ == spec_trim(lv[i as int]));
        }
        if t.unicode_len() > 0 && !contains_string(out, t) {
            let ghost old_dv = out.deep_view();
            out.push(t.to_owned());
            proof {
                assert(out.deep_view() =~= old_dv.push(t@));
                lemma_push_contains(old_dv, t@);
                assert forall|a: int, b: int|
                    0 <= a < b < out.deep_view().len() implies out.deep_view()[a]
                    != out.deep_view()[b] by {
                    if b < old_dv.len() {
                    } else {
                        assert(out.deep_view()[b] == t@);
                        assert(old_dv.contains(out.deep_view()[a]) || old_dv[a] == out.deep_view()[a]);
                        assert(old_dv.contains(old_dv[a]));
                    }
                }
            }
        }
        proof {
            assert forall|p: Seq<char>|
                #[trigger] out.deep_view().contains(p) implies (base_dv.contains(p) || (p.len() > 0
                && exists|k: int| 0 <= k < i + 1 && spec_trim(lv[k]) == p)) by {
                if !base_dv.contains(p) {
                    if spec_trim(lv[i as int]) == p {
                    } else {
                        assert(exists|k: int| 0 <= k < i && spec_trim(lv[k]) == p);
                    }
                }
            }
            assert forall|p: Seq<char>|
                (base_dv.contains(p) || (p.len() > 0 && exists|k: int|
                    0 <= k < i + 1 && spec_trim(lv[k]) == p)) implies #[trigger] out.deep_view().contains(
                p,
            ) by {
                if !base_dv.contains(p) && p.len() > 0 {
                    let k = choose|k: int| 0 <= k < i + 1 && spec_trim(lv[k]) == p;
                    if k < i {
                        assert(exists|m: int| 0 <= m < i && spec_trim(lv[m]) == p);
                    }
                }
            }
        }
        i = i + 1;
    }
}

/// Adds every string of `v` that is not already present.
fn add_strings(out: &mut Vec<String>, v: &Vec<String>)
    requires
        nodup(old(out).deep_view()),
    ensures
        nodup(final(out).deep_view()),
        forall|p: Seq<char>|
            #[trigger] final(out).deep_view().contains(p) <==> (old(out).deep_view().contains(p)
                || v.deep_view().contains(p)),
{
    let ghost base_dv = out.deep_view();
    let ghost vv = v.deep_view();
    let mut i: usize = 0;
    while i < v.len()
        invariant
            0 <= i <= v.len(),
            vv == v.deep_view(),
            nodup(out.deep_view()),
            forall|p: Seq<char>|
                #[trigger] out.deep_view().contains(p) <==> (base_dv.contains(p) || vv.take(
                    i as int,
                ).contains(p)),
        decreases v.len() - i,
    {
        proof {
            assert(vv[i as int] == v@[i as int]@);
        }
        if !contains_string(out, v[i].as_str()) {
            let ghost old_dv = out.deep_view();
            out.push(v[i].clone());
            proof {
                assert(out.deep_view() =~= old_dv.push(vv[i as int]));
                lemma_push_contains(old_dv, vv[i as int]);
                assert forall|a: int, b: int|
                    0 <= a < b < out.deep_view().len() implies out.deep_view()[a]
                    != out.deep_view()[b] by {
                    if b >= old_dv.len() {
                        assert(old_dv.contains(old_dv[a]));
                    }
                }
            }
        }
        proof {
            lemma_take_step(vv, i as int);
            assert forall|p: Seq<char>|
                #[trigger] out.deep_view().contains(p) implies (base_dv.contains(p) || vv.take(
                i + 1,
            ).contains(p)) by {
                if !base_dv.contains(p) {
                    if vv.take(i as int).contains(p) {
                        let k = choose|k: int|
                            0 <= k < vv.take(i as int).len() && vv.take(i as int)[k] == p;
                        assert(vv.take(i + 1)[k] == p);
                    } else {
                        assert(p == vv[i as int]);
                        assert(vv.take(i + 1)[i as int] == p);
                    }
                }
            }
            assert forall|p: Seq<char>|
                (base_dv.contains(p) || vv.take(i + 1).contains(p)) implies #[trigger] out.deep_view().contains(
                p,
            ) by {
                if !base_dv.contains(p) {
                    let k = choose|k: int|
                        0 <= k < vv.take(i + 1).len() && #[trigger] vv.take(i + 1)[k] == p;
                    if k < i {
                        assert(vv.take(i as int)[k] == p);
                        assert(vv.take(i as int).contains(p));
                    } else {
                        assert(p == vv[i as int]);
                    }
                }
            }
        }
        i = i + 1;
    }
    proof {
        assert(vv.take(vv.len() as int) =~= vv);
    }
}

proof fn lemma_take_step<A>(s: Seq<A>, i: int)
    requires
        0 <= i < s.len(),
    ensures
        s.take(i + 1) == s.take(i).push(s[i]),
{
    assert(s.take(i + 1) =~= s.take(i).push(s[i]));
}

/// Adds the file of every annotation, unless it is already present or
/// `base_files` already lists it.
fn add_new_item_files(out: &mut Vec<String>, items: &Vec<TodoItem>, base_files: &Vec<String>)
    requires
        nodup(old(out).deep_view()),
    ensures
        nodup(final(out).deep_view()),
        forall|p: Seq<char>|
            #[trigger] final(out).deep_view().contains(p) <==> (old(out).deep_view().contains(p)
                || (files_of(items.deep_view()).contains(p) && !base_files.deep_view().contains(
                p,
            ))),
{
    let ghost base_dv = out.deep_view();
    let ghost fv = files_of(items.deep_view());
    let mut i: usize = 0;
    while i < items.len()
        invariant
            0 <= i <= items.len(),
            fv == files_of(items.deep_view()),
            nodup(out.deep_view()),
            forall|p: Seq<char>|
                #[trigger] out.deep_view().contains(p) <==> (base_dv.contains(p) || (fv.take(
                    i as int,
                ).contains(p) && !base_files.deep_view().contains(p))),
        decreases items.len() - i,
    {
        proof {
            assert(fv[i as int] == items.deep_view()[i as int].file);
            assert(items.deep_view()[i as int] == items@[i as int]@);
        }
        if !contains_string(base_files, items[i].file.as_str()) && !contains_string(
            out,
            items[i].file.as_str(),
        ) {
            let ghost old_dv = out.deep_view();
            out.push(items[i].file.clone());
            proof {
                assert(out.deep_view() =~= old_dv.push(fv[i as int]));
                lemma_push_contains(old_dv, fv[i as int]);
                assert forall|a: int, b: int|
                    0 <= a < b < out.deep_view().len() implies out.deep_view()[a]
                    != out.deep_view()[b] by {
                    if b >= old_dv.len() {
                        assert(old_dv.contains(old_dv[a]));
                    }
                }
            }
        }
        proof {
            lemma_take_step(fv, i as int);
            lemma_push_contains(fv.take(i as int), fv[i as int]);
        }
        i = i + 1;
    }
    proof {
        assert(fv.take(fv.len() as int) =~= fv);
    }
}

/// Parses a file listing: its non-empty trimmed lines, without duplicates.
pub fn parse_listing(listing: &str) -> (r: Vec<String>)
    ensures
        nodup(r.deep_view()),
        forall|p: Seq<char>| #[trigger] r.deep_view().contains(p) <==> in_cmd_lines(listing@, p),
{
    let mut out: Vec<String> = Vec::new();
    proof {
        assert(out.deep_view() =~= Seq::<Seq<char>>::empty());
        assert(forall|p: Seq<char>| !out.deep_view().contains(p));
    }
    add_cmd_lines(&mut out, listing);
    out
}

/// Detects which files changed between the base reference and the working
/// tree, from the two diff listings. When either listing is unavailable the
/// fallback treats every base file and every file with a current annotation
/// as changed — correctness over performance.
pub fn detect_changed_files(
    diff_from_ref: &Option<String>,
    diff_unstaged: &Option<String>,
    base_files: &Vec<String>,
    current: &ScanResult,
) -> (r: Vec<String>)
    ensures
        nodup(r.deep_view()),
        diff_from_ref is Some && diff_unstaged is Some ==> forall|p: Seq<char>|
            #[trigger] r.deep_view().contains(p) <==> spec_changed(
                diff_from_ref->0@,
                diff_unstaged->0@,
                base_files.deep_view(),
                current.items.deep_view(),
                p,
            ),
        diff_from_ref is None || diff_unstaged is None ==> forall|p: Seq<char>|
            #[trigger] r.deep_view().contains(p) <==> (base_files.deep_view().contains(p)
                || files_of(current.items.deep_view()).contains(p)),
{
    let mut out: Vec<String> = Vec::new();
    proof {
        assert(out.deep_view() =~= Seq::<Seq<char>>::empty());
        assert(forall|p: Seq<char>| !out.deep_view().contains(p));
    }
    match (diff_from_ref, diff_unstaged) {
        (Some(a), Some(b)) => {
            add_cmd_lines(&mut out, a.as_str());
            add_cmd_lines(&mut out, b.as_str());
            add_new_item_files(&mut out, &current.items, base_files);
        },
        _ => {
            add_strings(&mut out, base_files);
            let mut i: usize = 0;
            let ghost fv = files_of(current.items.deep_view());
            let ghost mid_dv = out.deep_view();
            while i < current.items.len()
                invariant
                    0 <= i <= current.items.len(),
                    fv == files_of(current.items.deep_view()),
                    nodup(out.deep_view()),
                    forall|p: Seq<char>|
                        #[trigger] out.deep_view().contains(p) <==> (mid_dv.contains(p) || fv.take(
                            i as int,
                        ).contains(p)),
                decreases current.items.len() - i,
            {
                proof {
                    assert(fv[i as int] == current.items.deep_view()[i as int].file);
                    assert(current.items.deep_view()[i as int] == current.items@[i as int]@);
                }
                if !contains_string(&out, current.items[i].file.as_str()) {
                    let ghost old_dv = out.deep_view();
                    out.push(current.items[i].file.clone());
                    proof {
                        assert(out.deep_view() =~= old_dv.push(fv[i as int]));
                        lemma_push_contains(old_dv, fv[i as int]);
                        assert forall|x: int, y: int|
                            0 <= x < y < out.deep_view().len() implies out.deep_view()[x]
                            != out.deep_view()[y] by {
                            if y >= old_dv.len() {
                                assert(old_dv.contains(old_dv[x]));
                            }
                        }
                    }
                }
                proof {
                    lemma_take_step(fv, i as int);
                    lemma_push_contains(fv.take(i as int), fv[i as int]);
                }
                i = i + 1;
            }
            proof {
                assert(fv.take(fv.len() as int) =~= fv);
            }
        },
    }
    out
}

/// The version-control surface the diff driver needs. Implementations run
/// the underlying tool; a failed call returns `Err` with the tool's message.
/// Nothing is assumed of these calls: the driver states what holds whatever
/// they return.
pub trait GitOps {
    /// Lists every file path present at `base_ref`, one per line.
    fn ls_tree(&self, base_ref: &str) -> Result<String, String>;

    /// Lists paths that differ between `base_ref` and the index when a ref
    /// is given, or between the index and the working tree when none is,
    /// one per line.
    fn diff_names(&self, base_ref: Option<&str>) -> Result<String, String>;

    /// Returns the content of `path` as it stands at `base_ref`.
    fn show_file(&self, base_ref: &str, path: &str) -> Result<String, String>;

    /// Lists commits, newest first, one per line, as `<hash> <ISO date>`.
    fn log_commits(&self) -> Result<String, String>;
}

/// Why a diff invocation failed.
#[derive(Debug, PartialEq, Eq)]
pub enum DiffError {
    /// The base reference is unsafe or malformed.
    InvalidRef(String),
    /// The file listing at the base reference failed: unknown ref, or not a
    /// repository.
    RefNotFound(String),
    /// The configured tag pattern is not a valid regular expression.
    PatternCompileError(String),
}

impl DiffError {
    /// A human-readable description of the failure.
    pub fn message(&self) -> (r: String)
        ensures
            self matches DiffError::InvalidRef(x) ==> r@ == "invalid git ref '"@ + x@
                + "': must not start with '-'"@,
            self matches DiffError::RefNotFound(x) ==> r@ == "Failed to list files at ref "@ + x@,
            self matches DiffError::PatternCompileError(x) ==> r@ == "Invalid tags pattern: "@
                + x@,
    {
        match self {
            DiffError::InvalidRef(x) => {
                let mut s = String::from_str("invalid git ref '");
                s.append(x.as_str());
                s.append("': must not start with '-'");
                proof {
                    assert(s@ =~= "invalid git ref '"@ + x@ + "': must not start with '-'"@);
                }
                s
            },
            DiffError::RefNotFound(x) => {
                let mut s = String::from_str("Failed to list files at ref ");
                s.append(x.as_str());
                s
            },
            DiffError::PatternCompileError(x) => {
                let mut s = String::from_str("Invalid tags pattern: ");
                s.append(x.as_str());
                s
            },
        }
    }
}

/// The reference begins with `'-'` and could be taken for an option by the
/// underlying tool.
pub open spec fn starts_with_dash(s: Seq<char>) -> bool {
    s.len() > 0 && s[0] == '-'
}

proof fn lemma_added_items_in_cur(base: Seq<ItemView>, cur: Seq<ItemView>)
    ensures
        forall|i: int|
            0 <= i < spec_added_entries(base, cur).len() ==> cur.contains(
                #[trigger] spec_added_entries(base, cur)[i].item,
            ),
    decreases cur.len(),
{
    if cur.len() > 0 {
        lemma_added_items_in_cur(base, cur.drop_last());
        assert forall|i: int| 0 <= i < spec_added_entries(base, cur).len() implies cur.contains(
            #[trigger] spec_added_entries(base, cur)[i].item,
        ) by {
            let pre = spec_added_entries(base, cur.drop_last());
            if i < pre.len() {
                assert(cur.drop_last().contains(pre[i].item));
                let k = choose|k: int|
                    0 <= k < cur.drop_last().len() && cur.drop_last()[k] == pre[i].item;
                assert(cur[k] == pre[i].item);
            } else {
                assert(spec_added_entries(base, cur)[i].item == cur.last());
                assert(cur[cur.len() - 1] == cur.last());
            }
        }
    }
}

/// Every entry is either Added or Removed, so the two tallies cover all
/// entries.
pub proof fn lemma_counts_total(s: Seq<EntryView>)
    ensures
        count_status(s, DiffStatus::Added) + count_status(s, DiffStatus::Removed) == s.len(),
    decreases s.len(),
{
    if s.len() > 0 {
        lemma_counts_total(s.drop_last());
    }
}

/// Computes the diff between the annotations at `base_ref` and the current
/// scan. The base snapshot is rebuilt only for files that changed; a file
/// whose content cannot be fetched at the base ref is silently skipped.
pub fn compute_diff<G: GitOps>(
    current: &ScanResult,
    base_ref: &str,
    git: &G,
    config: &Config,
) -> (r: Result<DiffResult, DiffError>)
    ensures
        starts_with_dash(base_ref@) <==> (r matches Err(DiffError::InvalidRef(x)) && x@
            == base_ref@),
        r matches Err(DiffError::PatternCompileError(p)) ==> p@ == spec_tags_pattern(
            config.tags.deep_view(),
        ) && !spec_compiles(spec_tags_pattern(config.tags.deep_view())),
        r is Ok ==> spec_compiles(spec_tags_pattern(config.tags.deep_view())),
        r matches Ok(d) ==> d.base_ref@ == base_ref@ && count_consistent(d),
        r matches Ok(d) ==> forall|i: int|
            0 <= i < d.entries@.len() && (#[trigger] d.entries.deep_view()[i]).status
                == DiffStatus::Added ==> current.items.deep_view().contains(
                d.entries.deep_view()[i].item,
            ),
{
    let n: usize = base_ref.unicode_len();
    if n > 0 && base_ref.get_char(0) == '-' {
        return Err(DiffError::InvalidRef(base_ref.to_owned()));
    }
    let listing: String = match git.ls_tree(base_ref) {
        Ok(l) => l,
        Err(_) => {
            return Err(DiffError::RefNotFound(base_ref.to_owned()));
        },
    };
    let pattern_src: String = config.tags_pattern();
    let re: regex::Regex = match compile_pattern(pattern_src.as_str()) {
        Some(re) => re,
        None => {
            return Err(DiffError::PatternCompileError(pattern_src));
        },
    };
    let base_files: Vec<String> = parse_listing(listing.as_str());
    let diff_from_ref: Option<String> = match git.diff_names(Some(base_ref)) {
        Ok(s) => Some(s),
        Err(_) => None,
    };
    let diff_unstaged: Option<String> = match git.diff_names(None) {
        Ok(s) => Some(s),
        Err(_) => None,
    };
    let changed: Vec<String> = detect_changed_files(
        &diff_from_ref,
        &diff_unstaged,
        &base_files,
        current,
    );
    // Base snapshot: only changed files that exist at the base ref are
    // fetched and re-scanned; fetch failures skip just that file.
    let mut base_items: Vec<TodoItem> = Vec::new();
    let mut i: usize = 0;
    while i < changed.len()
        decreases changed.len() - i,
    {
        if contains_string(&base_files, changed[i].as_str()) {
            match git.show_file(base_ref, changed[i].as_str()) {
                Ok(content) => {
                    let mut scanned = scan_content(content.as_str(), changed[i].as_str(), &re);
                    base_items.append(&mut scanned.items);
                },
                Err(_) => {},
            }
        }
        i = i + 1;
    }
    // Current snapshot restricted to changed files: annotations in untouched
    // files cannot have changed.
    let mut current_changed: Vec<TodoItem> = Vec::new();
    let mut j: usize = 0;
    while j < current.items.len()
        invariant
            0 <= j <= current.items.len(),
            forall|k: int|
                0 <= k < current_changed.deep_view().len()
                    ==> current.items.deep_view().contains(
                    #[trigger] current_changed.deep_view()[k],
                ),
        decreases current.items.len() - j,
    {
        if contains_string(&changed, current.items[j].file.as_str()) {
            let ghost old_dv = current_changed.deep_view();
            current_changed.push(current.items[j].clone());
            proof {
                assert(current_changed.deep_view() =~= old_dv.push(current.items@[j as int]@));
                assert(current.items.deep_view()[j as int] == current.items@[j as int]@);
                assert(current.items.deep_view().contains(current.items@[j as int]@));
            }
        }
        j = j + 1;
    }
    let d = snapshot_diff(&base_items, &current_changed, base_ref);
    proof {
        lemma_added_items_in_cur(base_items.deep_view(), current_changed.deep_view());
        lemma_counts_total(spec_entries(base_items.deep_view(), current_changed.deep_view()));
        assert forall|i2: int|
            0 <= i2 < d.entries@.len() && (#[trigger] d.entries.deep_view()[i2]).status
                == DiffStatus::Added implies current.items.deep_view().contains(
            d.entries.deep_view()[i2].item,
        ) by {
            let bv = base_items.deep_view();
            let cv = current_changed.deep_view();
            lemma_removed_all_removed(bv, cv);
            if i2 >= spec_added_entries(bv, cv).len() {
                assert(d.entries.deep_view()[i2].status == DiffStatus::Removed);
            } else {
                assert(d.entries.deep_view()[i2] == spec_added_entries(bv, cv)[i2]);
                assert(cv.contains(d.entries.deep_view()[i2].item));
                let k = choose|k: int| 0 <= k < cv.len() && cv[k] == d.entries.deep_view()[i2].item;
            }
        }
    }
    Ok(d)
}

/// How much of each annotation the output should carry.
#[derive(Debug, Clone, Copy, PartialEq, Eq, Structural)]
pub enum DetailLevel {
    Normal,
    Minimal,
    Full,
}

/// Options of the diff command.
#[derive(Debug)]
pub struct DiffOptions {
    pub git_ref: String,
    pub tag: Vec<String>,
    pub context: Option<usize>,
    pub detail: DetailLevel,
}

/// The tags named by a list of tag names, unknown names dropped.
pub open spec fn spec_parse_tags(ts: Seq<Seq<char>>) -> Seq<Tag>
    decreases ts.len(),
{
    if ts.len() == 0 {
        Seq::empty()
    } else {
        spec_parse_tags(ts.drop_last()) + (match crate::model::spec_tag_from(ts.last()) {
            Some(t) => seq![t],
            None => Seq::empty(),
        })
    }
}

/// Parses a list of tag names, dropping names that match no tag.
fn parse_tags(names: &Vec<String>) -> (r: Vec<Tag>)
    ensures
        r@ == spec_parse_tags(names.deep_view()),
{
    let ghost nv = names.deep_view();
    let mut out: Vec<Tag> = Vec::new();
    let mut i: usize = 0;
    proof {
        assert(nv.take(0) =~= Seq::<Seq<char>>::empty());
        assert(out@ =~= spec_parse_tags(nv.take(0)));
    }
    while i < names.len()
        invariant
            0 <= i <= names.len(),
            nv == names.deep_view(),
            out@ == spec_parse_tags(nv.take(i as int)),
        decreases names.len() - i,
    {
        proof {
            assert(nv.take(i + 1).drop_last() =~= nv.take(i as int));
            assert(nv.take(i + 1).last() == nv[i as int]);
            assert(nv[i as int] == names@[i as int]@);
        }
        match Tag::from_str(names[i].as_str()) {
            Some(t) => {
                out.push(t);
                proof {
                    assert(out@ =~= spec_parse_tags(nv.take(i as int)) + seq![t]);
                    assert(out@ =~= spec_parse_tags(nv.take(i + 1)));
                }
            },
            None => {
                proof {
                    assert(out@ + Seq::<Tag>::empty() =~= out@);
                    assert(out@ =~= spec_parse_tags(nv.take(i + 1)));
                }
            },
        }
        i = i + 1;
    }
    proof {
        assert(nv.take(names@.len() as int) =~= nv);
    }
    out
}

/// Decides whether `t` is one of the tags in `filter`.
fn tag_in(filter: &Vec<Tag>, t: Tag) -> (r: bool)
    ensures
        r == filter@.contains(t),
{
    let mut i: usize = 0;
    while i < filter.len()
        invariant
            0 <= i <= filter.len(),
            forall|k: int| 0 <= k < i ==> filter@[k] != t,
        decreases filter.len() - i,
    {
        if filter[i] == t {
            return true;
        }
        i = i + 1;
    }
    proof {
        if filter@.contains(t) {
            let k = choose|k: int| 0 <= k < filter@.len() && filter@[k] == t;
        }
    }
    false
}

/// Counts the entries that carry the given status.
pub fn count_entries(entries: &Vec<DiffEntry>, st: DiffStatus) -> (r: usize)
    ensures
        r == count_status(entries.deep_view(), st),
{
    let ghost ev = entries.deep_view();
    let mut count: usize = 0;
    let mut i: usize = 0;
    proof {
        assert(ev.take(0) =~= Seq::<EntryView>::empty());
    }
    while i < entries.len()
        invariant
            0 <= i <= entries.len(),
            ev == entries.deep_view(),
            count == count_status(ev.take(i as int), st),
            count <= i,
        decreases entries.len() - i,
    {
        proof {
            assert(ev.take(i + 1).drop_last() =~= ev.take(i as int));
            assert(ev.take(i + 1).last() == ev[i as int]);
            assert(ev[i as int] == entries@[i as int]@);
        }
        if entries[i].status == st {
            count = count + 1;
        }
        i = i + 1;
    }
    proof {
        assert(ev.take(entries@.len() as int) =~= ev);
    }
    count
}

/// Runs the diff command: computes the diff against `opts.git_ref`, then
/// restricts the entries to the requested tags, recomputing both counts
/// from the entries that remain.
pub fn cmd_diff<G: GitOps>(
    current: &ScanResult,
    git: &G,
    config: &Config,
    opts: &DiffOptions,
) -> (r: Result<DiffResult, DiffError>)
    ensures
        starts_with_dash(opts.git_ref@) <==> (r matches Err(DiffError::InvalidRef(x)) && x@
            == opts.git_ref@),
        r matches Ok(d) ==> d.base_ref@ == opts.git_ref@ && count_consistent(d),
        r matches Ok(d) ==> (opts.tag@.len() > 0 ==> forall|i: int|
            0 <= i < d.entries@.len() ==> spec_parse_tags(opts.tag.deep_view()).contains(
                (#[trigger] d.entries.deep_view()[i]).item.tag,
            )),
{
    let d: DiffResult = match compute_diff(current, opts.git_ref.as_str(), git, config) {
        Ok(d) => d,
        Err(e) => {
            return Err(e);
        },
    };
    if opts.tag.len() == 0 {
        return Ok(d);
    }
    let filter: Vec<Tag> = parse_tags(&opts.tag);
    let mut kept: Vec<DiffEntry> = Vec::new();
    let mut i: usize = 0;
    while i < d.entries.len()
        invariant
            0 <= i <= d.entries@.len(),
            filter@ == spec_parse_tags(opts.tag.deep_view()),
            forall|k: int|
                0 <= k < kept.deep_view().len() ==> filter@.contains(
                    (#[trigger] kept.deep_view()[k]).item.tag,
                ),
        decreases d.entries@.len() - i,
    {
        if tag_in(&filter, d.entries[i].item.tag) {
            let ghost old_dv = kept.deep_view();
            let e = d.entries[i].clone();
            kept.push(e);
            proof {
                assert(kept.deep_view() =~= old_dv.push(d.entries@[i as int]@));
                assert(d.entries@[i as int]@.item.tag == d.entries@[i as int].item.tag);
            }
        }
        i = i + 1;
    }
    let added_count: usize = count_entries(&kept, DiffStatus::Added);
    let removed_count: usize = count_entries(&kept, DiffStatus::Removed);
    proof {
        lemma_counts_total(kept.deep_view());
    }
    Ok(DiffResult { entries: kept, added_count, removed_count, base_ref: d.base_ref })
}

/// Identity sensitivity (message): changing only the message of one
/// annotation — its file and tag unchanged, the new message distinct modulo
/// normalisation, and its identity otherwise unique in both snapshots —
/// produces exactly one Added and one Removed entry.
pub proof fn lemma_message_change_one_added_one_removed(
    base: Seq<ItemView>,
    cur: Seq<ItemView>,
    j: int,
)
    requires
        base.len() == cur.len(),
        0 <= j < base.len(),
        forall|i: int| 0 <= i < base.len() && i != j ==> item_key(base[i]) == item_key(cur[i]),
        cur[j].file == base[j].file,
        cur[j].tag == base[j].tag,
        item_key(base[j]) != item_key(cur[j]),
        forall|i: int| 0 <= i < base.len() && i != j ==> item_key(base[i]) != item_key(base[j]),
        forall|i: int| 0 <= i < cur.len() && i != j ==> item_key(cur[i]) != item_key(cur[j]),
    ensures
        spec_entries(base, cur) == seq![
            EntryView { status: DiffStatus::Added, item: cur[j] },
            EntryView { status: DiffStatus::Removed, item: base[j] },
        ],
        count_status(spec_entries(base, cur), DiffStatus::Added) == 1,
        count_status(spec_entries(base, cur), DiffStatus::Removed) == 1,
{
    lemma_single_identity_change(base, cur, j);
    lemma_entries_counts(base, cur);
    lemma_added_single(base, cur, j);
    lemma_removed_single(base, cur, j);
}

} // verus!
