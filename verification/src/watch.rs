//! The incremental in-memory index of annotations by file path, and the
//! event-assembly logic of the watch loop. Per file the index moves between
//! Absent and Present(non-empty list): an update that leaves a file with no
//! annotations removes its entry entirely.

use vstd::prelude::*;
use vstd::string::*;

use crate::config::{spec_tags_pattern, Config};
use crate::diff::{key_in, key_in_vec};
use crate::model::{
    item_key, same_key, spec_tag_str, FileUpdate, ItemView, Tag, TodoItem, WatchEvent,
};
use crate::pattern::{
    compile_pattern, pattern_matches, regex_src, spec_compiles, spec_is_match,
};
use crate::scanner::{scan_content, spec_scan};
use crate::strings::{clone_strings, spec_split, split_char, str_eq};

verus! {

/// Files larger than this are treated as having zero annotations, to bound
/// memory use on pathological inputs.
pub const MAX_FILE_SIZE: u64 = 10 * 1024 * 1024;

/// What the file system holds for one path, as handed to `update_file`:
/// either the file's text, or the mark that it exceeds `MAX_FILE_SIZE` and
/// was deliberately not read.
#[derive(Debug)]
pub enum FileContent {
    Oversized,
    Text(String),
}

/// In-memory index of annotations grouped by file path.
pub struct TodoIndex {
    entries: Vec<(String, Vec<TodoItem>)>,
    pattern: regex::Regex,
    exclude_dirs: Vec<String>,
    exclude_regexes: Vec<regex::Regex>,
}

/// The total number of annotations across all entries.
pub open spec fn sum_entry_lens(s: Seq<(Seq<char>, Seq<ItemView>)>) -> int
    decreases s.len(),
{
    if s.len() == 0 {
        0
    } else {
        sum_entry_lens(s.drop_last()) + s.last().1.len()
    }
}

/// `s` with every pair keyed by `path` removed.
pub open spec fn remove_key(s: Seq<(Seq<char>, Seq<ItemView>)>, path: Seq<char>) -> Seq<
    (Seq<char>, Seq<ItemView>),
>
    decreases s.len(),
{
    if s.len() == 0 {
        Seq::empty()
    } else {
        remove_key(s.drop_last(), path) + (if s.last().0 == path {
            Seq::empty()
        } else {
            seq![s.last()]
        })
    }
}

/// Grouping a snapshot by file: each annotation joins its file's list, a
/// fresh file opens a new entry at the end.
pub open spec fn spec_add_to(
    part: Seq<(Seq<char>, Seq<ItemView>)>,
    it: ItemView,
) -> Seq<(Seq<char>, Seq<ItemView>)> {
    if exists|i: int| 0 <= i < part.len() && part[i].0 == it.file {
        let i = choose|i: int| 0 <= i < part.len() && part[i].0 == it.file;
        part.update(i, (part[i].0, part[i].1.push(it)))
    } else {
        part.push((it.file, seq![it]))
    }
}

/// The partition of a snapshot by file path.
pub open spec fn spec_partition(items: Seq<ItemView>) -> Seq<(Seq<char>, Seq<ItemView>)>
    decreases items.len(),
{
    if items.len() == 0 {
        Seq::empty()
    } else {
        spec_add_to(spec_partition(items.drop_last()), items.last())
    }
}

proof fn lemma_sum_update(
    s: Seq<(Seq<char>, Seq<ItemView>)>,
    i: int,
    pair: (Seq<char>, Seq<ItemView>),
)
    requires
        0 <= i < s.len(),
    ensures
        sum_entry_lens(s.update(i, pair)) == sum_entry_lens(s) - s[i].1.len() + pair.1.len(),
    decreases s.len(),
{
    if i == s.len() - 1 {
        assert(s.update(i, pair).drop_last() =~= s.drop_last());
        assert(s.update(i, pair).last() == pair);
    } else {
        assert(s.update(i, pair).drop_last() =~= s.drop_last().update(i, pair));
        assert(s.update(i, pair).last() == s.last());
        lemma_sum_update(s.drop_last(), i, pair);
    }
}

proof fn lemma_add_to_total(part: Seq<(Seq<char>, Seq<ItemView>)>, it: ItemView)
    ensures
        sum_entry_lens(spec_add_to(part, it)) == sum_entry_lens(part) + 1,
{
    if exists|i: int| 0 <= i < part.len() && part[i].0 == it.file {
        let i = choose|i: int| 0 <= i < part.len() && part[i].0 == it.file;
        lemma_sum_update(part, i, (part[i].0, part[i].1.push(it)));
    } else {
        assert(part.push((it.file, seq![it])).drop_last() =~= part);
    }
}

/// Partitioning a snapshot by file loses nothing: the entry lists hold
/// exactly as many annotations as the snapshot.
pub proof fn lemma_partition_total(items: Seq<ItemView>)
    ensures
        sum_entry_lens(spec_partition(items)) == items.len(),
    decreases items.len(),
{
    if items.len() > 0 {
        lemma_partition_total(items.drop_last());
        lemma_add_to_total(spec_partition(items.drop_last()), items.last());
    }
}

impl TodoIndex {
    /// The index's entries: file path and annotation list, in entry order.
    pub closed spec fn entries_view(self) -> Seq<(Seq<char>, Seq<ItemView>)> {
        self.entries@.map_values(
            |p: (String, Vec<TodoItem>)| (p.0@, p.1.deep_view()),
        )
    }

    /// The pattern source the index scans with.
    pub closed spec fn pattern_src(self) -> Seq<char> {
        regex_src(self.pattern)
    }

    /// The configured excluded directory names.
    pub closed spec fn dirs_view(self) -> Seq<Seq<char>> {
        self.exclude_dirs.deep_view()
    }

    /// The compiled exclusion patterns.
    pub closed spec fn regexes_view(self) -> Seq<regex::Regex> {
        self.exclude_regexes@
    }

    /// Well-formed: file keys are unique, and no entry maps to an empty
    /// list.
    pub open spec fn wf(self) -> bool {
        (forall|i: int, j: int|
            0 <= i < j < self.entries_view().len() ==> (#[trigger] self.entries_view()[i]).0 != (
            #[trigger] self.entries_view()[j]).0) && (forall|i: int|
            0 <= i < self.entries_view().len() ==> (#[trigger] self.entries_view()[i]).1.len() > 0)
    }

    /// The index holds an entry for `path`.
    pub open spec fn contains_file(self, path: Seq<char>) -> bool {
        exists|i: int| 0 <= i < self.entries_view().len() && self.entries_view()[i].0 == path
    }

    /// The annotations indexed under `path` (meaningful when present).
    pub open spec fn items_at(self, path: Seq<char>) -> Seq<ItemView> {
        let i = choose|i: int|
            0 <= i < self.entries_view().len() && self.entries_view()[i].0 == path;
        self.entries_view()[i].1
    }

    /// The annotations indexed under `path`, or the empty sequence.
    pub open spec fn items_at_or_empty(self, path: Seq<char>) -> Seq<ItemView> {
        if self.contains_file(path) {
            self.items_at(path)
        } else {
            Seq::empty()
        }
    }

    /// The total annotation count.
    pub open spec fn total_view(self) -> int {
        sum_entry_lens(self.entries_view())
    }

    /// A path is excluded when an excluded directory name occurs among its
    /// `'/'`-separated components, or an exclusion pattern matches it.
    pub open spec fn excluded(self, path: Seq<char>) -> bool {
        (exists|i: int|
            0 <= i < self.dirs_view().len() && spec_split(path, '/').contains(
                #[trigger] self.dirs_view()[i],
            )) || (exists|i: int|
            0 <= i < self.regexes_view().len() && spec_is_match(
                regex_src(#[trigger] self.regexes_view()[i]),
                path,
            ))
    }

    /// Builds a new index from a full scan's annotations, partitioned by
    /// file. Fails exactly when the configured tag pattern does not compile,
    /// returning the pattern source; invalid exclusion patterns are silently
    /// dropped instead.
    pub fn new(items: &Vec<TodoItem>, config: &Config) -> (r: Result<TodoIndex, String>)
        ensures
            r is Ok == spec_compiles(spec_tags_pattern(config.tags.deep_view())),
            r matches Err(p) ==> p@ == spec_tags_pattern(config.tags.deep_view()),
            r matches Ok(idx) ==> idx.wf() && idx.entries_view() == spec_partition(
                items.deep_view(),
            ) && idx.total_view() == items@.len() && idx.pattern_src() == spec_tags_pattern(
                config.tags.deep_view(),
            )
                && idx.dirs_view() == config.exclude_dirs.deep_view() && (forall|i: int|
                0 <= i < idx.regexes_view().len() ==> config.exclude_patterns.deep_view().contains(
                    regex_src(#[trigger] idx.regexes_view()[i]),
                )) && (forall|j: int|
                0 <= j < config.exclude_patterns.deep_view().len() && spec_compiles(
                    #[trigger] config.exclude_patterns.deep_view()[j],
                ) ==> exists|i: int|
                    0 <= i < idx.regexes_view().len() && regex_src(#[trigger] idx.regexes_view()[i])
                        == config.exclude_patterns.deep_view()[j]),
    {
        let pattern_src: String = config.tags_pattern();
        let pattern: regex::Regex = match compile_pattern(pattern_src.as_str()) {
            Some(re) => re,
            None => {
                return Err(pattern_src);
            },
        };
        let mut exclude_regexes: Vec<regex::Regex> = Vec::new();
        let ghost pats = config.exclude_patterns.deep_view();
        let mut i: usize = 0;
        while i < config.exclude_patterns.len()
            invariant
                0 <= i <= config.exclude_patterns.len(),
                pats == config.exclude_patterns.deep_view(),
                forall|k: int|
                    0 <= k < exclude_regexes@.len() ==> pats.contains(
                        regex_src(#[trigger] exclude_regexes@[k]),
                    ),
                forall|j: int|
                    0 <= j < i && spec_compiles(#[trigger] pats[j]) ==> exists|k: int|
                        0 <= k < exclude_regexes@.len() && regex_src(
                            #[trigger] exclude_regexes@[k],
                        ) == pats[j],
            decreases config.exclude_patterns.len() - i,
        {
            proof {
                assert(pats[i as int] == config.exclude_patterns@[i as int]@);
            }
            match compile_pattern(config.exclude_patterns[i].as_str()) {
                Some(re) => {
                    let ghost old_regs = exclude_regexes@;
                    exclude_regexes.push(re);
                    proof {
                        assert(pats.contains(pats[i as int]));
                        assert forall|j: int|
                            0 <= j < i + 1 && spec_compiles(#[trigger] pats[j]) implies exists|
                            k: int,
                        |
                            0 <= k < exclude_regexes@.len() && regex_src(
                                #[trigger] exclude_regexes@[k],
                            ) == pats[j] by {
                            if j < i {
                                let k = choose|k: int|
                                    0 <= k < old_regs.len() && regex_src(#[trigger] old_regs[k])
                                        == pats[j];
                                assert(exclude_regexes@[k] == old_regs[k]);
                            } else {
                                assert(regex_src(exclude_regexes@[old_regs.len() as int])
                                    == pats[i as int]);
                            }
                        }
                    }
                },
                None => {},
            }
            i = i + 1;
        }
        let mut entries: Vec<(String, Vec<TodoItem>)> = Vec::new();
        let ghost iv = items.deep_view();
        let mut n: usize = 0;
        proof {
            assert(entries@.map_values(
                |p: (String, Vec<TodoItem>)| (p.0@, p.1.deep_view()),
            ) =~= Seq::<(Seq<char>, Seq<ItemView>)>::empty());
            assert(iv.take(0) =~= Seq::<ItemView>::empty());
        }
        while n < items.len()
            invariant
                0 <= n <= items.len(),
                iv == items.deep_view(),
                entries@.map_values(|p: (String, Vec<TodoItem>)| (p.0@, p.1.deep_view()))
                    == spec_partition(iv.take(n as int)),
                forall|a: int, b: int|
                    0 <= a < b < entries@.len() ==> (#[trigger] entries@[a]).0@ != (
                    #[trigger] entries@[b]).0@,
                forall|a: int| 0 <= a < entries@.len() ==> (#[trigger] entries@[a]).1@.len() > 0,
            decreases items.len() - n,
        {
            let ghost part = entries@.map_values(
                |p: (String, Vec<TodoItem>)| (p.0@, p.1.deep_view()),
            );
            proof {
                assert(iv.take(n + 1).drop_last() =~= iv.take(n as int));
                assert(iv.take(n + 1).last() == iv[n as int]);
                assert(iv[n as int] == items@[n as int]@);
            }
            let it: TodoItem = items[n].clone();
            match find_entry(&entries, items[n].file.as_str()) {
                Some(f) => {
                    let ghost old_entries = entries@;
                    proof {
                        assert(part[f as int].0 == items@[n as int].file@);
                        let w = choose|w: int|
                            0 <= w < part.len() && part[w].0 == iv[n as int].file;
                        assert(part[w].0 == part[f as int].0);
                        assert(w == f as int);
                    }
                    let entry = &mut entries[f];
                    entry.1.push(it);
                    proof {
                        assert(entries@[f as int].1@ == old_entries[f as int].1@.push(
                            items@[n as int],
                        ));
                        assert(entries@[f as int].1.deep_view() =~= old_entries[f as int].1.deep_view().push(
                            iv[n as int],
                        ));
                        assert(entries@.map_values(
                            |p: (String, Vec<TodoItem>)| (p.0@, p.1.deep_view()),
                        ) =~~= spec_add_to(part, iv[n as int]));
                    }
                },
                None => {
                    proof {
                        if exists|w: int| 0 <= w < part.len() && part[w].0 == iv[n as int].file {
                            let w = choose|w: int|
                                0 <= w < part.len() && part[w].0 == iv[n as int].file;
                            assert(entries@[w].0@ != items@[n as int].file@);
                        }
                    }
                    entries.push((it.file.clone(), vec![it]));
                    proof {
                        assert(entries@.map_values(
                            |p: (String, Vec<TodoItem>)| (p.0@, p.1.deep_view()),
                        ) =~~= spec_add_to(part, iv[n as int]));
                    }
                },
            }
            n = n + 1;
        }
        proof {
            assert(iv.take(items@.len() as int) =~= iv);
        }
        let ghost regs = exclude_regexes@;
        let idx = TodoIndex {
            entries,
            pattern,
            exclude_dirs: clone_strings(&config.exclude_dirs),
            exclude_regexes,
        };
        proof {
            assert(idx.regexes_view() == regs);
            assert forall|j: int|
                0 <= j < pats.len() && spec_compiles(#[trigger] pats[j]) implies exists|i2: int|
                0 <= i2 < idx.regexes_view().len() && regex_src(#[trigger] idx.regexes_view()[i2])
                    == pats[j] by {
                let k = choose|k: int| 0 <= k < regs.len() && regex_src(#[trigger] regs[k]) == pats[j];
                assert(regex_src(idx.regexes_view()[k]) == pats[j]);
            }
            let ev = idx.entries_view();
            assert forall|i: int| 0 <= i < ev.len() implies #[trigger] ev[i] == (
                idx.entries@[i].0@,
                idx.entries@[i].1.deep_view(),
            ) by {}
            assert(ev =~~= spec_partition(iv));
            assert forall|i: int, j: int| 0 <= i < j < ev.len() implies (#[trigger] ev[i]).0 != (
                #[trigger] ev[j]).0 by {
                assert(idx.entries@[i].0@ != idx.entries@[j].0@);
            }
            assert forall|i: int| 0 <= i < ev.len() implies (#[trigger] ev[i]).1.len() > 0 by {
                assert(idx.entries@[i].1@.len() > 0);
                assert(idx.entries@[i].1.deep_view().len() == idx.entries@[i].1@.len());
            }
            lemma_partition_total(items.deep_view());
            assert(items.deep_view().len() == items@.len());
        }
        Ok(idx)
    }
}

/// The annotations of `items` whose identity key does not occur in `other`:
/// the one-file reconciliation step, the same logic as the snapshot diff.
pub open spec fn spec_minus(items: Seq<ItemView>, other: Seq<ItemView>) -> Seq<ItemView>
    decreases items.len(),
{
    if items.len() == 0 {
        Seq::empty()
    } else {
        spec_minus(items.drop_last(), other) + (if !key_in(item_key(items.last()), other) {
            seq![items.last()]
        } else {
            Seq::empty()
        })
    }
}

/// The one-file reconciliation is the snapshot diff scoped to one file:
/// what `update_file` reports as added is exactly the items of the Added
/// partition of diffing the old list against the new one, and likewise for
/// removed.
pub proof fn lemma_minus_is_diff_partition(old_items: Seq<ItemView>, new_items: Seq<ItemView>)
    ensures
        spec_minus(new_items, old_items) == crate::diff::spec_added_entries(
            old_items,
            new_items,
        ).map_values(|e: crate::diff::EntryView| e.item),
        spec_minus(old_items, new_items) == crate::diff::spec_removed_entries(
            old_items,
            new_items,
        ).map_values(|e: crate::diff::EntryView| e.item),
{
    lemma_minus_matches_added(old_items, new_items);
    lemma_minus_matches_removed(old_items, new_items);
}

proof fn lemma_minus_matches_added(base: Seq<ItemView>, cur: Seq<ItemView>)
    ensures
        spec_minus(cur, base) == crate::diff::spec_added_entries(base, cur).map_values(
            |e: crate::diff::EntryView| e.item,
        ),
    decreases cur.len(),
{
    if cur.len() == 0 {
        assert(spec_minus(cur, base) =~= crate::diff::spec_added_entries(base, cur).map_values(
            |e: crate::diff::EntryView| e.item,
        ));
    } else {
        lemma_minus_matches_added(base, cur.drop_last());
        assert(spec_minus(cur, base) =~= crate::diff::spec_added_entries(base, cur).map_values(
            |e: crate::diff::EntryView| e.item,
        ));
    }
}

proof fn lemma_minus_matches_removed(base: Seq<ItemView>, cur: Seq<ItemView>)
    ensures
        spec_minus(base, cur) == crate::diff::spec_removed_entries(base, cur).map_values(
            |e: crate::diff::EntryView| e.item,
        ),
    decreases base.len(),
{
    if base.len() == 0 {
        assert(spec_minus(base, cur) =~= crate::diff::spec_removed_entries(base, cur).map_values(
            |e: crate::diff::EntryView| e.item,
        ));
    } else {
        lemma_minus_matches_removed(base.drop_last(), cur);
        assert(spec_minus(base, cur) =~= crate::diff::spec_removed_entries(base, cur).map_values(
            |e: crate::diff::EntryView| e.item,
        ));
    }
}

/// Removing annotations against an empty snapshot removes nothing.
pub proof fn lemma_minus_empty(items: Seq<ItemView>)
    ensures
        spec_minus(items, Seq::empty()) == items,
    decreases items.len(),
{
    if items.len() > 0 {
        lemma_minus_empty(items.drop_last());
        assert(spec_minus(items, Seq::empty()) =~= items);
    } else {
        assert(spec_minus(items, Seq::empty()) =~= items);
    }
}

/// Keeps the annotations whose identity key does not occur in `other`.
fn filter_missing(items: &Vec<TodoItem>, other: &Vec<TodoItem>) -> (r: Vec<TodoItem>)
    ensures
        r.deep_view() == spec_minus(items.deep_view(), other.deep_view()),
{
    let ghost iv = items.deep_view();
    let ghost ov = other.deep_view();
    let mut out: Vec<TodoItem> = Vec::new();
    let mut i: usize = 0;
    proof {
        assert(iv.take(0) =~= Seq::<ItemView>::empty());
        assert(out.deep_view() =~= spec_minus(iv.take(0), ov));
    }
    while i < items.len()
        invariant
            0 <= i <= items.len(),
            iv == items.deep_view(),
            ov == other.deep_view(),
            out.deep_view() == spec_minus(iv.take(i as int), ov),
        decreases items.len() - i,
    {
        proof {
            assert(iv.take(i + 1).drop_last() =~= iv.take(i as int));
            assert(iv.take(i + 1).last() == iv[i as int]);
            assert(iv[i as int] == items@[i as int]@);
        }
        if !key_in_vec(&items[i], other) {
            let ghost old_dv = out.deep_view();
            out.push(items[i].clone());
            proof {
                assert(out.deep_view() =~= old_dv.push(iv[i as int]));
                assert(old_dv.push(iv[i as int]) =~= old_dv + seq![iv[i as int]]);
                assert(out.deep_view() =~= spec_minus(iv.take(i + 1), ov));
            }
        } else {
            proof {
                assert(out.deep_view() + Seq::<ItemView>::empty() =~= out.deep_view());
                assert(out.deep_view() =~= spec_minus(iv.take(i + 1), ov));
            }
        }
        i = i + 1;
    }
    proof {
        assert(iv.take(items@.len() as int) =~= iv);
    }
    out
}

proof fn lemma_remove_key_absent(s: Seq<(Seq<char>, Seq<ItemView>)>, path: Seq<char>)
    requires
        forall|k: int| 0 <= k < s.len() ==> (#[trigger] s[k]).0 != path,
    ensures
        remove_key(s, path) == s,
    decreases s.len(),
{
    if s.len() > 0 {
        lemma_remove_key_absent(s.drop_last(), path);
        assert(remove_key(s, path) =~= s);
    } else {
        assert(remove_key(s, path) =~= s);
    }
}

proof fn lemma_remove_key_at(s: Seq<(Seq<char>, Seq<ItemView>)>, path: Seq<char>, i: int)
    requires
        forall|a: int, b: int| 0 <= a < b < s.len() ==> (#[trigger] s[a]).0 != (#[trigger] s[b]).0,
        0 <= i < s.len(),
        s[i].0 == path,
    ensures
        remove_key(s, path) == s.remove(i),
    decreases s.len(),
{
    if i == s.len() - 1 {
        assert(s.last().0 == path);
        assert forall|k: int| 0 <= k < s.drop_last().len() implies (#[trigger] s.drop_last()[k]).0
            != path by {
            assert(s[k].0 != s[i].0);
        }
        lemma_remove_key_absent(s.drop_last(), path);
        assert(remove_key(s, path) =~= s.remove(i));
    } else {
        assert(s.last().0 != path) by {
            assert(s[i].0 != s[s.len() - 1].0);
        }
        lemma_remove_key_at(s.drop_last(), path, i);
        assert(s.drop_last().remove(i) + seq![s.last()] =~= s.remove(i));
    }
}

proof fn lemma_remove_key_props(s: Seq<(Seq<char>, Seq<ItemView>)>, path: Seq<char>)
    ensures
        forall|k: int|
            0 <= k < remove_key(s, path).len() ==> (#[trigger] remove_key(s, path)[k]).0 != path,
        forall|k: int|
            0 <= k < remove_key(s, path).len() ==> s.contains(#[trigger] remove_key(s, path)[k]),
    decreases s.len(),
{
    if s.len() > 0 {
        lemma_remove_key_props(s.drop_last(), path);
        let r = remove_key(s, path);
        let rp = remove_key(s.drop_last(), path);
        assert forall|k: int| 0 <= k < r.len() implies s.contains(#[trigger] r[k]) by {
            if k < rp.len() {
                assert(s.drop_last().contains(rp[k]));
                let m = choose|m: int|
                    0 <= m < s.drop_last().len() && s.drop_last()[m] == rp[k];
                assert(s[m] == rp[k]);
            } else {
                assert(r[k] == s.last());
                assert(s[s.len() - 1] == s.last());
            }
        }
    }
}

impl TodoIndex {
    /// Re-scans one file from the content handed in and reconciles the new
    /// annotation list against the file's prior entry by identity key. An
    /// oversized file counts as having zero annotations without being read,
    /// so everything previously indexed for it is removed. A file whose new
    /// list is empty loses its index entry entirely.
    pub fn update_file(&mut self, relative_path: &str, content: &FileContent) -> (u: FileUpdate)
        requires
            old(self).wf(),
        ensures
            final(self).wf(),
            final(self).pattern_src() == old(self).pattern_src(),
            final(self).dirs_view() == old(self).dirs_view(),
            final(self).regexes_view() == old(self).regexes_view(),
            u.added.deep_view() == spec_minus(
                spec_new_items(old(self).pattern_src(), relative_path@, *content),
                old(self).items_at_or_empty(relative_path@),
            ),
            u.removed.deep_view() == spec_minus(
                old(self).items_at_or_empty(relative_path@),
                spec_new_items(old(self).pattern_src(), relative_path@, *content),
            ),
            spec_new_items(old(self).pattern_src(), relative_path@, *content).len() > 0 ==> final(self).entries_view() == remove_key(old(self).entries_view(), relative_path@).push(
                (relative_path@, spec_new_items(old(self).pattern_src(), relative_path@, *content)),
            ),
            spec_new_items(old(self).pattern_src(), relative_path@, *content).len() == 0 ==> final(self).entries_view() == remove_key(old(self).entries_view(), relative_path@) && !final(self).contains_file(relative_path@),
            content is Oversized ==> u.added@.len() == 0 && u.removed.deep_view() == old(self).items_at_or_empty(relative_path@),
    {
        let ghost old_view = self.entries_view();
        let ghost path_v = relative_path@;
        let new_items: Vec<TodoItem> = match content {
            FileContent::Oversized => Vec::new(),
            FileContent::Text(c) => {
                let scanned = scan_content(c.as_str(), relative_path, &self.pattern);
                scanned.items
            },
        };
        proof {
            assert(new_items.deep_view() == spec_new_items(
                self.pattern_src(),
                path_v,
                *content,
            ));
        }
        let old_items: Vec<TodoItem> = match find_entry(&self.entries, relative_path) {
            Some(f) => {
                proof {
                    assert(old_view[f as int] == (
                        self.entries@[f as int].0@,
                        self.entries@[f as int].1.deep_view(),
                    ));
                    assert(old_view[f as int].0 == path_v);
                    assert(self.contains_file(path_v));
                    let w = choose|w: int|
                        0 <= w < old_view.len() && old_view[w].0 == path_v;
                    assert(old_view[w].0 == old_view[f as int].0);
                    assert(w == f as int);
                    lemma_remove_key_at(old_view, path_v, f as int);
                }
                let ghost pre = self.entries@;
                let pair = self.entries.remove(f);
                proof {
                    assert(self.entries@ == pre.remove(f as int));
                    assert(self.entries_view() =~~= old_view.remove(f as int));
                    assert(pair.1.deep_view() == old_view[f as int].1);
                }
                pair.1
            },
            None => {
                proof {
                    if self.contains_file(path_v) {
                        let w = choose|w: int|
                            0 <= w < old_view.len() && old_view[w].0 == path_v;
                        assert(old_view[w] == (
                            self.entries@[w].0@,
                            self.entries@[w].1.deep_view(),
                        ));
                        assert(self.entries@[w].0@ != path_v);
                    }
                    lemma_remove_key_absent(old_view, path_v);
                }
                Vec::new()
            },
        };
        proof {
            assert(old_items.deep_view() == old(self).items_at_or_empty(path_v));
            assert(self.entries_view() == remove_key(old_view, path_v));
        }
        let added: Vec<TodoItem> = filter_missing(&new_items, &old_items);
        let removed: Vec<TodoItem> = filter_missing(&old_items, &new_items);
        let ghost mid_view = self.entries_view();
        proof {
            lemma_remove_key_props(old_view, path_v);
            assert forall|a: int, b: int|
                0 <= a < b < mid_view.len() implies (#[trigger] mid_view[a]).0 != (
                #[trigger] mid_view[b]).0 by {
                lemma_remove_key_order(old_view, path_v);
            }
            assert forall|a: int| 0 <= a < mid_view.len() implies (#[trigger] mid_view[a]).1.len()
                > 0 by {
                assert(old_view.contains(mid_view[a]));
                let m = choose|m: int| 0 <= m < old_view.len() && old_view[m] == mid_view[a];
            }
        }
        if new_items.len() > 0 {
            let ghost nv = new_items.deep_view();
            let ghost pre = self.entries@;
            self.entries.push((relative_path.to_owned(), new_items));
            proof {
                assert(self.entries_view() =~~= mid_view.push((path_v, nv)));
                assert forall|a: int, b: int|
                    0 <= a < b < self.entries_view().len() implies (
                #[trigger] self.entries_view()[a]).0 != (#[trigger] self.entries_view()[b]).0 by {
                    if b < mid_view.len() {
                    } else {
                        assert(self.entries_view()[a] == mid_view[a]);
                        assert(self.entries_view()[b].0 == path_v);
                        assert(mid_view[a].0 != path_v);
                    }
                }
            }
        } else {
            proof {
                if self.contains_file(path_v) {
                    let w = choose|w: int|
                        0 <= w < mid_view.len() && mid_view[w].0 == path_v;
                    assert(mid_view[w].0 != path_v);
                }
            }
        }
        proof {
            lemma_minus_empty(old_items.deep_view());
        }
        FileUpdate { added, removed }
    }

    /// Removes a file's entry, returning its former annotations, or an
    /// empty list when the file was absent. Never fails.
    pub fn remove_file(&mut self, relative_path: &str) -> (r: Vec<TodoItem>)
        requires
            old(self).wf(),
        ensures
            final(self).wf(),
            final(self).pattern_src() == old(self).pattern_src(),
            final(self).dirs_view() == old(self).dirs_view(),
            final(self).regexes_view() == old(self).regexes_view(),
            r.deep_view() == old(self).items_at_or_empty(relative_path@),
            final(self).entries_view() == remove_key(old(self).entries_view(), relative_path@),
            !final(self).contains_file(relative_path@),
    {
        let ghost old_view = self.entries_view();
        let ghost path_v = relative_path@;
        let r: Vec<TodoItem> = match find_entry(&self.entries, relative_path) {
            Some(f) => {
                proof {
                    assert(old_view[f as int] == (
                        self.entries@[f as int].0@,
                        self.entries@[f as int].1.deep_view(),
                    ));
                    assert(self.contains_file(path_v));
                    let w = choose|w: int|
                        0 <= w < old_view.len() && old_view[w].0 == path_v;
                    assert(old_view[w].0 == old_view[f as int].0);
                    assert(w == f as int);
                    lemma_remove_key_at(old_view, path_v, f as int);
                }
                let ghost pre = self.entries@;
                let pair = self.entries.remove(f);
                proof {
                    assert(self.entries@ == pre.remove(f as int));
                    assert(self.entries_view() =~~= old_view.remove(f as int));
                    assert(pair.1.deep_view() == old_view[f as int].1);
                }
                pair.1
            },
            None => {
                proof {
                    if self.contains_file(path_v) {
                        let w = choose|w: int|
                            0 <= w < old_view.len() && old_view[w].0 == path_v;
                        assert(old_view[w] == (
                            self.entries@[w].0@,
                            self.entries@[w].1.deep_view(),
                        ));
                        assert(self.entries@[w].0@ != path_v);
                    }
                    lemma_remove_key_absent(old_view, path_v);
                }
                Vec::new()
            },
        };
        proof {
            let mid_view = self.entries_view();
            lemma_remove_key_props(old_view, path_v);
            assert forall|a: int, b: int|
                0 <= a < b < mid_view.len() implies (#[trigger] mid_view[a]).0 != (
                #[trigger] mid_view[b]).0 by {
                lemma_remove_key_order(old_view, path_v);
            }
            assert forall|a: int| 0 <= a < mid_view.len() implies (#[trigger] mid_view[a]).1.len()
                > 0 by {
                assert(old_view.contains(mid_view[a]));
                let m = choose|m: int| 0 <= m < old_view.len() && old_view[m] == mid_view[a];
            }
            if self.contains_file(path_v) {
                let w = choose|w: int| 0 <= w < mid_view.len() && mid_view[w].0 == path_v;
                assert(mid_view[w].0 != path_v);
            }
        }
        r
    }

    /// The total annotation count across all files: the sum of every
    /// entry's list length, recomputed on demand. Exact whenever the total
    /// fits a `usize`; saturates otherwise.
    pub fn total_count(&self) -> (r: usize)
        ensures
            self.total_view() <= usize::MAX ==> r as int == self.total_view(),
            r as int <= self.total_view(),
    {
        let ghost ev = self.entries_view();
        let mut count: usize = 0;
        let mut i: usize = 0;
        proof {
            assert(ev.take(0) =~= Seq::<(Seq<char>, Seq<ItemView>)>::empty());
        }
        while i < self.entries.len()
            invariant
                0 <= i <= self.entries@.len(),
                ev == self.entries_view(),
                ev.len() == self.entries@.len(),
                count as int <= sum_entry_lens(ev.take(i as int)),
                sum_entry_lens(ev.take(i as int)) <= usize::MAX ==> count as int == sum_entry_lens(
                    ev.take(i as int),
                ),
            decreases self.entries@.len() - i,
        {
            let l: usize = self.entries[i].1.len();
            proof {
                assert(ev[i as int] == (
                    self.entries@[i as int].0@,
                    self.entries@[i as int].1.deep_view(),
                ));
                assert(ev[i as int].1.len() == self.entries@[i as int].1@.len());
                assert(ev.take(i + 1).drop_last() =~= ev.take(i as int));
                assert(ev.take(i + 1).last() == ev[i as int]);
                lemma_sum_nonneg(ev.take(i as int));
            }
            count = sat_add(count, l);
            i = i + 1;
        }
        proof {
            assert(ev.take(self.entries@.len() as int) =~= ev);
        }
        count
    }
}

/// How many annotations of `items` carry the tag `t`.
pub open spec fn count_tag_items(items: Seq<ItemView>, t: Tag) -> int
    decreases items.len(),
{
    if items.len() == 0 {
        0
    } else {
        count_tag_items(items.drop_last(), t) + (if items.last().tag == t {
            1int
        } else {
            0int
        })
    }
}

/// How many annotations across all entries carry the tag `t`.
pub open spec fn count_tag_entries(s: Seq<(Seq<char>, Seq<ItemView>)>, t: Tag) -> int
    decreases s.len(),
{
    if s.len() == 0 {
        0
    } else {
        count_tag_entries(s.drop_last(), t) + count_tag_items(s.last().1, t)
    }
}

proof fn lemma_count_tag_items_nonneg(items: Seq<ItemView>, t: Tag)
    ensures
        0 <= count_tag_items(items, t) <= items.len(),
    decreases items.len(),
{
    if items.len() > 0 {
        lemma_count_tag_items_nonneg(items.drop_last(), t);
    }
}

proof fn lemma_count_tag_entries_nonneg(s: Seq<(Seq<char>, Seq<ItemView>)>, t: Tag)
    ensures
        count_tag_entries(s, t) >= 0,
    decreases s.len(),
{
    if s.len() > 0 {
        lemma_count_tag_entries_nonneg(s.drop_last(), t);
        lemma_count_tag_items_nonneg(s.last().1, t);
    }
}

impl TodoIndex {
    /// Counts the annotations carrying tag `t` across all files. Exact
    /// whenever the count fits a `usize`; saturates otherwise.
    fn count_tag(&self, t: Tag) -> (r: usize)
        ensures
            r as int == count_tag_entries(self.entries_view(), t) || (r == usize::MAX
                && count_tag_entries(self.entries_view(), t) > usize::MAX),
    {
        let ghost ev = self.entries_view();
        let mut count: usize = 0;
        let mut i: usize = 0;
        proof {
            assert(ev.take(0) =~= Seq::<(Seq<char>, Seq<ItemView>)>::empty());
        }
        while i < self.entries.len()
            invariant
                0 <= i <= self.entries@.len(),
                ev == self.entries_view(),
                ev.len() == self.entries@.len(),
                count as int == count_tag_entries(ev.take(i as int), t) || (count == usize::MAX
                    && count_tag_entries(ev.take(i as int), t) > usize::MAX),
            decreases self.entries@.len() - i,
        {
            let ghost items_v = ev[i as int].1;
            proof {
                assert(ev[i as int] == (
                    self.entries@[i as int].0@,
                    self.entries@[i as int].1.deep_view(),
                ));
            }
            let mut c: usize = 0;
            let mut j: usize = 0;
            proof {
                assert(items_v.take(0) =~= Seq::<ItemView>::empty());
            }
            let entry_len: usize = self.entries[i].1.len();
            while j < entry_len
                invariant
                    0 <= j <= entry_len,
                    i < self.entries@.len(),
                    entry_len == self.entries@[i as int].1@.len(),
                    items_v == self.entries@[i as int].1.deep_view(),
                    c as int == count_tag_items(items_v.take(j as int), t),
                    c <= j,
                decreases entry_len - j,
            {
                proof {
                    assert(items_v.take(j + 1).drop_last() =~= items_v.take(j as int));
                    assert(items_v.take(j + 1).last() == items_v[j as int]);
                    assert(items_v[j as int] == self.entries@[i as int].1@[j as int]@);
                }
                if self.entries[i].1[j].tag == t {
                    c = c + 1;
                }
                j = j + 1;
            }
            proof {
                assert(items_v.take(entry_len as int) =~= items_v);
                assert(ev.take(i + 1).drop_last() =~= ev.take(i as int));
                assert(ev.take(i + 1).last() == ev[i as int]);
                lemma_count_tag_entries_nonneg(ev.take(i as int), t);
                lemma_count_tag_items_nonneg(items_v, t);
            }
            count = sat_add(count, c);
            i = i + 1;
        }
        proof {
            assert(ev.take(self.entries@.len() as int) =~= ev);
        }
        count
    }

    /// Per-tag totals, sorted descending by count; ties in unspecified
    /// order; tags with no annotations are left out. Counts are exact
    /// whenever they fit a `usize`.
    pub fn tag_counts(&self) -> (r: Vec<(Tag, usize)>)
        ensures
            forall|k: int|
                0 <= k < r@.len() ==> count_tag_entries(
                    self.entries_view(),
                    (#[trigger] r@[k]).0,
                ) > 0,
            forall|k: int|
                0 <= k < r@.len() ==> (count_tag_entries(self.entries_view(), (#[trigger] r@[k]).0)
                    <= usize::MAX ==> r@[k].1 as int == count_tag_entries(
                    self.entries_view(),
                    r@[k].0,
                )),
            forall|t: Tag|
                count_tag_entries(self.entries_view(), t) > 0 ==> exists|k: int|
                    0 <= k < r@.len() && (#[trigger] r@[k]).0 == t,
            forall|a: int, b: int| 0 <= a < b < r@.len() ==> (#[trigger] r@[a]).1 >= (
            #[trigger] r@[b]).1,
            forall|a: int, b: int| 0 <= a < b < r@.len() ==> (#[trigger] r@[a]).0 != (
            #[trigger] r@[b]).0,
    {
        let ghost ev = self.entries_view();
        let tag_list: Vec<Tag> = vec![
            Tag::Todo,
            Tag::Fixme,
            Tag::Hack,
            Tag::Xxx,
            Tag::Bug,
            Tag::Note,
        ];
        proof {
            assert forall|t: Tag| tag_list@.contains(t) by {
                match t {
                    Tag::Todo => assert(tag_list@[0] == t),
                    Tag::Fixme => assert(tag_list@[1] == t),
                    Tag::Hack => assert(tag_list@[2] == t),
                    Tag::Xxx => assert(tag_list@[3] == t),
                    Tag::Bug => assert(tag_list@[4] == t),
                    Tag::Note => assert(tag_list@[5] == t),
                }
            }
        }
        let mut out: Vec<(Tag, usize)> = Vec::new();
        let mut i: usize = 0;
        while i < tag_list.len()
            invariant
                0 <= i <= tag_list@.len(),
                ev == self.entries_view(),
                forall|k: int|
                    0 <= k < out@.len() ==> count_tag_entries(ev, (#[trigger] out@[k]).0) > 0,
                forall|k: int|
                    0 <= k < out@.len() ==> (count_tag_entries(ev, (#[trigger] out@[k]).0)
                        <= usize::MAX ==> out@[k].1 as int == count_tag_entries(ev, out@[k].0)),
                forall|t: Tag|
                    tag_list@.take(i as int).contains(t) && count_tag_entries(ev, t) > 0
                        ==> exists|k: int| 0 <= k < out@.len() && (#[trigger] out@[k]).0 == t,
                forall|a: int, b: int| 0 <= a < b < out@.len() ==> (#[trigger] out@[a]).1 >= (
                #[trigger] out@[b]).1,
                forall|a: int, b: int| 0 <= a < b < out@.len() ==> (#[trigger] out@[a]).0 != (
                #[trigger] out@[b]).0,
            decreases tag_list@.len() - i,
        {
            let t: Tag = tag_list[i];
            let c: usize = self.count_tag(t);
            let ghost old_out = out@;
            let ghost mut inserted_at: int = 0;
            let did_insert: bool = c > 0 && !tag_present(&out, t);
            if did_insert {
                let mut pos: usize = 0;
                while pos < out.len() && out[pos].1 > c
                    invariant
                        0 <= pos <= out@.len(),
                        out@ == old_out,
                        forall|k: int| 0 <= k < pos ==> (#[trigger] out@[k]).1 > c,
                    decreases out@.len() - pos,
                {
                    pos = pos + 1;
                }
                proof {
                    old_out.insert_ensures(pos as int, (t, c));
                }
                out.insert(pos, (t, c));
                proof {
                    inserted_at = pos as int;
                }
            }
            proof {
                let pos = inserted_at;
                if did_insert {
                    old_out.insert_ensures(pos, (t, c));
                    assert(out@ == old_out.insert(pos, (t, c)));
                    assert forall|k: int| 0 <= k < out@.len() implies #[trigger] out@[k]
                        == (if k < pos {
                        old_out[k]
                    } else if k == pos {
                        (t, c)
                    } else {
                        old_out[k - 1]
                    }) by {}
                }
                // Each pair still records a positive, correct count.
                assert forall|k: int| 0 <= k < out@.len() implies count_tag_entries(
                    ev,
                    (#[trigger] out@[k]).0,
                ) > 0 && (count_tag_entries(ev, out@[k].0) <= usize::MAX ==> out@[k].1 as int
                    == count_tag_entries(ev, out@[k].0)) by {
                    if did_insert && k == pos {
                        lemma_count_tag_entries_nonneg(ev, t);
                    }
                }
                // Sortedness.
                assert forall|a: int, b: int| 0 <= a < b < out@.len() implies (
                #[trigger] out@[a]).1 >= (#[trigger] out@[b]).1 by {
                    if did_insert {
                        if a == pos && b > pos {
                            if pos < old_out.len() {
                                assert(old_out[pos].1 <= c);
                                assert(out@[b] == old_out[b - 1]);
                                if b - 1 > pos {
                                    assert(old_out[pos].1 >= old_out[b - 1].1);
                                }
                            }
                        } else if b == pos {
                            assert(out@[a] == old_out[a]);
                            assert(old_out[a].1 > c);
                        }
                    }
                }
                // Distinct tags: t was checked absent before insertion.
                assert forall|a: int, b: int| 0 <= a < b < out@.len() implies (
                #[trigger] out@[a]).0 != (#[trigger] out@[b]).0 by {
                    if did_insert && (a == pos || b == pos) {
                        let other: (Tag, usize) = if a == pos {
                            out@[b]
                        } else {
                            out@[a]
                        };
                        if other.0 == t {
                            if a == pos {
                                assert(old_out[b - 1] == other);
                            } else {
                                assert(old_out[a] == other);
                            }
                            assert(false);
                        }
                    }
                }
                // Completeness over the processed tags.
                assert forall|t2: Tag|
                    tag_list@.take(i + 1).contains(t2) && count_tag_entries(ev, t2) > 0 implies
                    exists|k: int| 0 <= k < out@.len() && (#[trigger] out@[k]).0 == t2 by {
                    let m = choose|m: int|
                        0 <= m < i + 1 && #[trigger] tag_list@.take(i + 1)[m] == t2;
                    if m < i {
                        assert(tag_list@.take(i as int)[m] == t2);
                        assert(tag_list@.take(i as int).contains(t2));
                        let k = choose|k: int|
                            0 <= k < old_out.len() && (#[trigger] old_out[k]).0 == t2;
                        if did_insert {
                            if k < pos {
                                assert(out@[k].0 == t2);
                            } else {
                                assert(out@[k + 1] == old_out[k]);
                            }
                        } else {
                            assert(out@[k].0 == t2);
                        }
                    } else {
                        assert(t2 == tag_list@[i as int]);
                        if !did_insert {
                            lemma_count_tag_entries_nonneg(ev, t2);
                            if c == 0 {
                                assert(c as int == count_tag_entries(ev, t2)
                                    || count_tag_entries(ev, t2) > usize::MAX);
                                assert(false);
                            }
                        } else {
                            assert(out@[pos].0 == t2);
                        }
                    }
                }
            }
            i = i + 1;
        }
        proof {
            assert(tag_list@.take(tag_list@.len() as int) =~= tag_list@);
            assert forall|t: Tag| count_tag_entries(ev, t) > 0 implies exists|k: int|
                0 <= k < out@.len() && (#[trigger] out@[k]).0 == t by {
                assert(tag_list@.contains(t));
                assert(tag_list@.take(tag_list@.len() as int).contains(t));
            }
        }
        out
    }
}

impl TodoIndex {
    /// Decides whether a path is excluded: an excluded directory name among
    /// its `'/'`-separated components, or an exclusion pattern that matches
    /// the whole relative path.
    pub fn should_exclude(&self, relative_path: &str) -> (r: bool)
        ensures
            r == self.excluded(relative_path@),
    {
        let components: Vec<String> = split_char(relative_path, '/');
        let mut i: usize = 0;
        while i < self.exclude_dirs.len()
            invariant
                0 <= i <= self.exclude_dirs@.len(),
                components.deep_view() == spec_split(relative_path@, '/'),
                forall|k: int|
                    0 <= k < i ==> !spec_split(relative_path@, '/').contains(
                        #[trigger] self.dirs_view()[k],
                    ),
            decreases self.exclude_dirs@.len() - i,
        {
            proof {
                assert(self.dirs_view()[i as int] == self.exclude_dirs@[i as int]@);
            }
            if crate::strings::contains_string(&components, self.exclude_dirs[i].as_str()) {
                proof {
                    assert(spec_split(relative_path@, '/').contains(self.dirs_view()[i as int]));
                    assert(self.excluded(relative_path@));
                }
                return true;
            }
            i = i + 1;
        }
        let mut j: usize = 0;
        while j < self.exclude_regexes.len()
            invariant
                0 <= j <= self.exclude_regexes@.len(),
                forall|k: int|
                    0 <= k < self.dirs_view().len() ==> !spec_split(relative_path@, '/').contains(
                        #[trigger] self.dirs_view()[k],
                    ),
                forall|k: int|
                    0 <= k < j ==> !spec_is_match(
                        regex_src(#[trigger] self.regexes_view()[k]),
                        relative_path@,
                    ),
            decreases self.exclude_regexes@.len() - j,
        {
            if pattern_matches(&self.exclude_regexes[j], relative_path) {
                proof {
                    assert(spec_is_match(
                        regex_src(self.regexes_view()[j as int]),
                        relative_path@,
                    ));
                    assert(self.excluded(relative_path@));
                }
                return true;
            }
            j = j + 1;
        }
        proof {
            if self.excluded(relative_path@) {
                if exists|k: int|
                    0 <= k < self.dirs_view().len() && spec_split(relative_path@, '/').contains(
                        #[trigger] self.dirs_view()[k],
                    ) {
                    let k = choose|k: int|
                        0 <= k < self.dirs_view().len() && spec_split(
                            relative_path@,
                            '/',
                        ).contains(#[trigger] self.dirs_view()[k]);
                } else {
                    let k = choose|k: int|
                        0 <= k < self.regexes_view().len() && spec_is_match(
                            regex_src(#[trigger] self.regexes_view()[k]),
                            relative_path@,
                        );
                }
            }
        }
        false
    }
}

/// One debounced file-system notification, reduced to plain values: the
/// path relative to the watched root (absent when the reported path lies
/// outside the root), and whether the change has settled (only the final,
/// coalesced kind per debounce window is actionable).
#[derive(Debug)]
pub struct PathEvent {
    pub rel_path: Option<String>,
    pub settled: bool,
}

/// The view of a debounced notification.
pub struct PathEventView {
    pub rel_path: Option<Seq<char>>,
    pub settled: bool,
}

impl View for PathEvent {
    type V = PathEventView;

    open spec fn view(&self) -> PathEventView {
        PathEventView { rel_path: self.rel_path.deep_view(), settled: self.settled }
    }
}

impl DeepView for PathEvent {
    type V = PathEventView;

    open spec fn deep_view(&self) -> PathEventView {
        self.view()
    }
}

/// The distinct relative paths of the settled events, in first-occurrence
/// order; events without a relative path and unsettled events are dropped.
pub open spec fn spec_collect(events: Seq<PathEventView>) -> Seq<Seq<char>>
    decreases events.len(),
{
    if events.len() == 0 {
        Seq::empty()
    } else {
        let pre = spec_collect(events.drop_last());
        pre + (match events.last().rel_path {
            Some(p) => if events.last().settled && !pre.contains(p) {
                seq![p]
            } else {
                Seq::empty()
            },
            None => Seq::empty(),
        })
    }
}

/// Collects the changed relative paths out of one debounced batch,
/// deduplicated, in first-occurrence order.
pub fn collect_changed_files(events: &Vec<PathEvent>) -> (r: Vec<String>)
    ensures
        r.deep_view() == spec_collect(events.deep_view()),
{
    let ghost evs = events.deep_view();
    let mut out: Vec<String> = Vec::new();
    let mut i: usize = 0;
    proof {
        assert(evs.take(0) =~= Seq::<PathEventView>::empty());
        assert(out.deep_view() =~= spec_collect(evs.take(0)));
    }
    while i < events.len()
        invariant
            0 <= i <= events@.len(),
            evs == events.deep_view(),
            out.deep_view() == spec_collect(evs.take(i as int)),
        decreases events@.len() - i,
    {
        proof {
            assert(evs.take(i + 1).drop_last() =~= evs.take(i as int));
            assert(evs.take(i + 1).last() == evs[i as int]);
            assert(evs[i as int] == events@[i as int]@);
        }
        if events[i].settled {
            match &events[i].rel_path {
                Some(p) => {
                    if !crate::strings::contains_string(&out, p.as_str()) {
                        let ghost old_dv = out.deep_view();
                        out.push(p.clone());
                        proof {
                            assert(out.deep_view() =~= old_dv.push(p@));
                            assert(old_dv.push(p@) =~= old_dv + seq![p@]);
                            assert(out.deep_view() =~= spec_collect(evs.take(i + 1)));
                        }
                    } else {
                        proof {
                            assert(out.deep_view() + Seq::<Seq<char>>::empty()
                                =~= out.deep_view());
                            assert(out.deep_view() =~= spec_collect(evs.take(i + 1)));
                        }
                    }
                },
                None => {
                    proof {
                        assert(out.deep_view() + Seq::<Seq<char>>::empty() =~= out.deep_view());
                        assert(out.deep_view() =~= spec_collect(evs.take(i + 1)));
                    }
                },
            }
        } else {
            proof {
                assert(out.deep_view() + Seq::<Seq<char>>::empty() =~= out.deep_view());
                assert(out.deep_view() =~= spec_collect(evs.take(i + 1)));
            }
        }
        i = i + 1;
    }
    proof {
        assert(evs.take(events@.len() as int) =~= evs);
    }
    out
}

/// Clones a list of annotations, value for value.
pub fn clone_items(items: &Vec<TodoItem>) -> (r: Vec<TodoItem>)
    ensures
        r.deep_view() == items.deep_view(),
        r@.len() == items@.len(),
{
    let mut out: Vec<TodoItem> = Vec::new();
    let mut i: usize = 0;
    while i < items.len()
        invariant
            0 <= i <= items@.len(),
            out.deep_view() == items.deep_view().take(i as int),
            out@.len() == i,
        decreases items@.len() - i,
    {
        let ghost old_dv = out.deep_view();
        out.push(items[i].clone());
        proof {
            assert(out.deep_view() =~= old_dv.push(items@[i as int]@));
            assert(items.deep_view()[i as int] == items@[i as int]@);
            assert(out.deep_view() =~= items.deep_view().take(i + 1));
        }
        i = i + 1;
    }
    proof {
        assert(items.deep_view().take(items@.len() as int) =~= items.deep_view());
    }
    out
}

/// The signed difference `total - previous`, exact whenever it fits `i64`,
/// clamped otherwise.
fn delta_i64(total: usize, previous: usize) -> (r: i64)
    ensures
        total - previous <= i64::MAX && previous - total <= i64::MAX ==> r as int == total
            - previous,
{
    if total >= previous {
        let d: usize = total - previous;
        if (d as u64) <= (i64::MAX as u64) {
            d as i64
        } else {
            i64::MAX
        }
    } else {
        let d: usize = previous - total;
        if (d as u64) <= (i64::MAX as u64) {
            let neg: i64 = d as i64;
            0i64 - neg
        } else {
            0i64 - i64::MAX
        }
    }
}

/// One summary pair names a tag and carries its (positive) count.
pub open spec fn summary_entry_ok(
    pair: (String, usize),
    ev: Seq<(Seq<char>, Seq<ItemView>)>,
) -> bool {
    exists|t: Tag|
        #![trigger spec_tag_str(t)]
        pair.0@ == spec_tag_str(t) && count_tag_entries(ev, t) > 0 && (count_tag_entries(ev, t)
            <= usize::MAX ==> pair.1 as int == count_tag_entries(ev, t))
}

/// Assembles a `WatchEvent` from one file's delta and the index state
/// immediately after that file's update.
#[verifier::rlimit(30)]
pub fn build_watch_event(
    file: &str,
    update: &FileUpdate,
    index: &TodoIndex,
    previous_total: usize,
    timestamp: String,
) -> (e: WatchEvent)
    ensures
        e.file@ == file@,
        e.timestamp == timestamp,
        e.added.deep_view() == update.added.deep_view(),
        e.removed.deep_view() == update.removed.deep_view(),
        index.total_view() <= usize::MAX ==> e.total as int == index.total_view(),
        index.total_view() <= usize::MAX && index.total_view() - previous_total <= i64::MAX
            && previous_total - index.total_view() <= i64::MAX ==> e.total_delta as int
            == index.total_view() - previous_total,
        forall|k: int|
            0 <= k < e.tag_summary@.len() ==> summary_entry_ok(
                #[trigger] e.tag_summary@[k],
                index.entries_view(),
            ),
        forall|t: Tag|
            count_tag_entries(index.entries_view(), t) > 0 ==> exists|k: int|
                0 <= k < e.tag_summary@.len() && (#[trigger] e.tag_summary@[k]).0@ == spec_tag_str(
                    t,
                ),
        forall|a: int, b: int|
            0 <= a < b < e.tag_summary@.len() ==> (#[trigger] e.tag_summary@[a]).1 >= (
            #[trigger] e.tag_summary@[b]).1,
{
    let total: usize = index.total_count();
    let counts: Vec<(Tag, usize)> = index.tag_counts();
    let mut tag_summary: Vec<(String, usize)> = Vec::new();
    let mut i: usize = 0;
    while i < counts.len()
        invariant
            0 <= i <= counts@.len(),
            tag_summary@.len() == i,
            forall|k: int|
                0 <= k < i ==> (#[trigger] tag_summary@[k]).0@ == spec_tag_str(counts@[k].0)
                    && tag_summary@[k].1 == counts@[k].1,
        decreases counts@.len() - i,
    {
        let name: String = counts[i].0.as_str().to_owned();
        tag_summary.push((name, counts[i].1));
        i = i + 1;
    }
    let total_delta: i64 = delta_i64(total, previous_total);
    let e = WatchEvent {
        timestamp,
        file: file.to_owned(),
        added: clone_items(&update.added),
        removed: clone_items(&update.removed),
        tag_summary,
        total,
        total_delta,
    };
    proof {
        assert forall|k: int| 0 <= k < e.tag_summary@.len() implies summary_entry_ok(
            #[trigger] e.tag_summary@[k],
            index.entries_view(),
        ) by {
            let t = counts@[k].0;
            assert(e.tag_summary@[k].0@ == spec_tag_str(t));
            assert(count_tag_entries(index.entries_view(), t) > 0);
            assert(count_tag_entries(index.entries_view(), t) <= usize::MAX
                ==> e.tag_summary@[k].1 as int == count_tag_entries(index.entries_view(), t));
        }
        assert forall|t: Tag|
            count_tag_entries(index.entries_view(), t) > 0 implies exists|k: int|
            0 <= k < e.tag_summary@.len() && (#[trigger] e.tag_summary@[k]).0@ == spec_tag_str(
            t,
        ) by {
            let k = choose|k: int| 0 <= k < counts@.len() && (#[trigger] counts@[k]).0 == t;
            assert(e.tag_summary@[k].0@ == spec_tag_str(t));
        }
    }
    e
}

/// The annotations whose tag is in `filter`.
pub open spec fn spec_keep_tags(items: Seq<ItemView>, filter: Seq<Tag>) -> Seq<ItemView>
    decreases items.len(),
{
    if items.len() == 0 {
        Seq::empty()
    } else {
        spec_keep_tags(items.drop_last(), filter) + (if filter.contains(items.last().tag) {
            seq![items.last()]
        } else {
            Seq::empty()
        })
    }
}

/// The annotations the watch output shows: all of them when no tag filter
/// is configured, else only those carrying a filtered tag.
pub open spec fn spec_filtered(items: Seq<ItemView>, filter: Seq<Tag>) -> Seq<ItemView> {
    if filter.len() == 0 {
        items
    } else {
        spec_keep_tags(items, filter)
    }
}

/// Keeps the annotations whose tag is in `filter`.
fn keep_tags(items: &Vec<TodoItem>, filter: &Vec<Tag>) -> (r: Vec<TodoItem>)
    ensures
        r.deep_view() == spec_keep_tags(items.deep_view(), filter@),
{
    let ghost iv = items.deep_view();
    let mut out: Vec<TodoItem> = Vec::new();
    let mut i: usize = 0;
    proof {
        assert(iv.take(0) =~= Seq::<ItemView>::empty());
        assert(out.deep_view() =~= spec_keep_tags(iv.take(0), filter@));
    }
    while i < items.len()
        invariant
            0 <= i <= items@.len(),
            iv == items.deep_view(),
            out.deep_view() == spec_keep_tags(iv.take(i as int), filter@),
        decreases items@.len() - i,
    {
        proof {
            assert(iv.take(i + 1).drop_last() =~= iv.take(i as int));
            assert(iv.take(i + 1).last() == iv[i as int]);
            assert(iv[i as int] == items@[i as int]@);
        }
        let mut in_filter: bool = false;
        let mut j: usize = 0;
        while j < filter.len()
            invariant
                0 <= j <= filter@.len(),
                i < items@.len(),
                in_filter ==> filter@.contains(items@[i as int].tag),
                !in_filter ==> forall|k: int| 0 <= k < j ==> filter@[k] != items@[i as int].tag,
            decreases filter@.len() - j,
        {
            if filter[j] == items[i].tag {
                in_filter = true;
            }
            j = j + 1;
        }
        proof {
            if !in_filter && filter@.contains(items@[i as int].tag) {
                let k = choose|k: int|
                    0 <= k < filter@.len() && filter@[k] == items@[i as int].tag;
            }
        }
        if in_filter {
            let ghost old_dv = out.deep_view();
            out.push(items[i].clone());
            proof {
                assert(out.deep_view() =~= old_dv.push(iv[i as int]));
                assert(old_dv.push(iv[i as int]) =~= old_dv + seq![iv[i as int]]);
                assert(out.deep_view() =~= spec_keep_tags(iv.take(i + 1), filter@));
            }
        } else {
            proof {
                assert(out.deep_view() + Seq::<ItemView>::empty() =~= out.deep_view());
                assert(out.deep_view() =~= spec_keep_tags(iv.take(i + 1), filter@));
            }
        }
        i = i + 1;
    }
    proof {
        assert(iv.take(items@.len() as int) =~= iv);
    }
    out
}

/// What one loop step hands to the index: the file's content when the path
/// still is a regular file, or nothing when it is gone.
pub open spec fn spec_state_items(
    pat: Seq<char>,
    path: Seq<char>,
    state: Option<&FileContent>,
) -> Seq<ItemView> {
    match state {
        Some(c) => spec_new_items(pat, path, *c),
        None => Seq::empty(),
    }
}

/// Processes one settled change notification for one path: excluded paths
/// are ignored; an existing file is re-scanned through `update_file`; a
/// vanished file is evicted; a no-op delta, or one that the tag filter
/// empties, produces no event.
pub fn process_event(
    index: &mut TodoIndex,
    relative_path: &str,
    file_state: Option<&FileContent>,
    timestamp: String,
    filter_tags: &Vec<Tag>,
) -> (r: Option<WatchEvent>)
    requires
        old(index).wf(),
    ensures
        final(index).wf(),
        final(index).pattern_src() == old(index).pattern_src(),
        final(index).dirs_view() == old(index).dirs_view(),
        final(index).regexes_view() == old(index).regexes_view(),
        old(index).excluded(relative_path@) ==> r is None && final(index).entries_view() == old(index).entries_view(),
        !old(index).excluded(relative_path@) ==> {
            let new_items = spec_state_items(
                old(index).pattern_src(),
                relative_path@,
                file_state,
            );
            let old_items = old(index).items_at_or_empty(relative_path@);
            let added = spec_minus(new_items, old_items);
            let removed = spec_minus(old_items, new_items);
            let added_f = spec_filtered(added, filter_tags@);
            let removed_f = spec_filtered(removed, filter_tags@);
            (new_items.len() > 0 ==> final(index).entries_view() == remove_key(
                old(index).entries_view(),
                relative_path@,
            ).push((relative_path@, new_items))) && (new_items.len() == 0 ==> final(index).entries_view() == remove_key(old(index).entries_view(), relative_path@)) && (
            r is Some <==> added_f.len() + removed_f.len() > 0) && (r matches Some(e) ==> e.file@
                == relative_path@ && e.timestamp == timestamp && e.added.deep_view() == added_f
                && e.removed.deep_view() == removed_f && (final(index).total_view() <= usize::MAX
                ==> e.total as int == final(index).total_view()) && (forall|k: int|
                0 <= k < e.tag_summary@.len() ==> summary_entry_ok(
                    #[trigger] e.tag_summary@[k],
                    final(index).entries_view(),
                )))
        },
{
    if index.should_exclude(relative_path) {
        return None;
    }
    let previous_total: usize = index.total_count();
    let update: FileUpdate = match file_state {
        Some(content) => index.update_file(relative_path, content),
        None => {
            let removed = index.remove_file(relative_path);
            proof {
                lemma_minus_empty(old(index).items_at_or_empty(relative_path@));
            }
            FileUpdate { added: Vec::new(), removed }
        },
    };
    proof {
        if file_state is None {
            assert(spec_minus(
                Seq::<ItemView>::empty(),
                old(index).items_at_or_empty(relative_path@),
            ) =~= Seq::<ItemView>::empty());
            assert(update.added.deep_view() =~= Seq::<ItemView>::empty());
        }
    }
    // A no-op change produces no output.
    if update.added.len() == 0 && update.removed.len() == 0 {
        proof {
            assert(update.added.deep_view().len() == 0);
            assert(update.removed.deep_view().len() == 0);
            lemma_keep_tags_len(update.added.deep_view(), filter_tags@);
            lemma_keep_tags_len(update.removed.deep_view(), filter_tags@);
        }
        return None;
    }
    // Restrict the reported delta to the configured tags, suppressing the
    // event if the filter empties both lists.
    let shown: FileUpdate = if filter_tags.len() > 0 {
        FileUpdate {
            added: keep_tags(&update.added, filter_tags),
            removed: keep_tags(&update.removed, filter_tags),
        }
    } else {
        update
    };
    if shown.added.len() == 0 && shown.removed.len() == 0 {
        return None;
    }
    Some(build_watch_event(relative_path, &shown, &*index, previous_total, timestamp))
}

/// A filter never keeps more than it was given.
proof fn lemma_keep_tags_len(items: Seq<ItemView>, filter: Seq<Tag>)
    ensures
        spec_keep_tags(items, filter).len() <= items.len(),
    decreases items.len(),
{
    if items.len() > 0 {
        lemma_keep_tags_len(items.drop_last(), filter);
    }
}

/// Every entry contributes a non-negative count.
proof fn lemma_sum_nonneg(s: Seq<(Seq<char>, Seq<ItemView>)>)
    ensures
        sum_entry_lens(s) >= 0,
    decreases s.len(),
{
    if s.len() > 0 {
        lemma_sum_nonneg(s.drop_last());
    }
}

/// Entries that survive a key removal keep their relative order, so their
/// keys stay pairwise distinct.
proof fn lemma_remove_key_order(s: Seq<(Seq<char>, Seq<ItemView>)>, path: Seq<char>)
    requires
        forall|a: int, b: int| 0 <= a < b < s.len() ==> (#[trigger] s[a]).0 != (#[trigger] s[b]).0,
    ensures
        forall|a: int, b: int|
            0 <= a < b < remove_key(s, path).len() ==> (#[trigger] remove_key(s, path)[a]).0 != (
            #[trigger] remove_key(s, path)[b]).0,
    decreases s.len(),
{
    if s.len() > 0 {
        lemma_remove_key_order(s.drop_last(), path);
        let r = remove_key(s, path);
        let rp = remove_key(s.drop_last(), path);
        lemma_remove_key_props(s.drop_last(), path);
        assert forall|a: int, b: int| 0 <= a < b < r.len() implies (#[trigger] r[a]).0 != (
        #[trigger] r[b]).0 by {
            if b < rp.len() {
            } else if s.last().0 != path && b == rp.len() {
                assert(r[b] == s.last());
                assert(s.drop_last().contains(rp[a]));
                let m = choose|m: int|
                    0 <= m < s.drop_last().len() && s.drop_last()[m] == rp[a];
                assert(s[m].0 != s[s.len() - 1].0);
            }
        }
    }
}

/// Saturating addition: exact whenever the sum fits.
fn sat_add(a: usize, b: usize) -> (r: usize)
    ensures
        a + b <= usize::MAX ==> r == a + b,
        a + b > usize::MAX ==> r == usize::MAX,
        r as int <= a + b,
        r >= a,
{
    if a <= usize::MAX - b {
        a + b
    } else {
        usize::MAX
    }
}

/// What one file's content yields under a pattern: its scan when text was
/// read, nothing when the file was oversized.
pub open spec fn spec_new_items(pat: Seq<char>, path: Seq<char>, c: FileContent) -> Seq<ItemView> {
    match c {
        FileContent::Text(s) => spec_scan(pat, path, s@),
        FileContent::Oversized => Seq::empty(),
    }
}

/// Decides whether a tag already occurs in a count list.
fn tag_present(out: &Vec<(Tag, usize)>, t: Tag) -> (r: bool)
    ensures
        r == exists|k: int| 0 <= k < out@.len() && (#[trigger] out@[k]).0 == t,
{
    let mut i: usize = 0;
    while i < out.len()
        invariant
            0 <= i <= out@.len(),
            forall|k: int| 0 <= k < i ==> (#[trigger] out@[k]).0 != t,
        decreases out@.len() - i,
    {
        if out[i].0 == t {
            return true;
        }
        i = i + 1;
    }
    proof {
        if exists|k: int| 0 <= k < out@.len() && (#[trigger] out@[k]).0 == t {
            let k = choose|k: int| 0 <= k < out@.len() && (#[trigger] out@[k]).0 == t;
        }
    }
    false
}

/// Finds the entry keyed by `file`, if any.
fn find_entry(entries: &Vec<(String, Vec<TodoItem>)>, file: &str) -> (r: Option<usize>)
    ensures
        r matches Some(f) ==> 0 <= f < entries@.len() && entries@[f as int].0@ == file@,
        r is None ==> forall|k: int| 0 <= k < entries@.len() ==> (#[trigger] entries@[k]).0@ != file@,
{
    let mut f: usize = 0;
    while f < entries.len()
        invariant
            0 <= f <= entries@.len(),
            forall|k: int| 0 <= k < f ==> (#[trigger] entries@[k]).0@ != file@,
        decreases entries@.len() - f,
    {
        if str_eq(entries[f].0.as_str(), file) {
            return Some(f);
        }
        f = f + 1;
    }
    None
}

} // verus!
