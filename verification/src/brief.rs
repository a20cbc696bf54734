//! A condensed summary of one snapshot: totals, priority counts, the most
//! pressing annotation, and the trend against a base reference.

use vstd::prelude::*;

use crate::model::{
    spec_priority_rank, spec_severity, BriefResult, DiffResult, ItemView, Priority,
    PriorityCounts, ScanResult, TodoItem, TrendInfo,
};
use crate::strings::contains_string;

verus! {

/// The distinct file paths of a snapshot, in first-occurrence order.
pub open spec fn spec_file_list(items: Seq<ItemView>) -> Seq<Seq<char>>
    decreases items.len(),
{
    if items.len() == 0 {
        Seq::empty()
    } else {
        let pre = spec_file_list(items.drop_last());
        pre + (if pre.contains(items.last().file) {
            Seq::empty()
        } else {
            seq![items.last().file]
        })
    }
}

/// How many annotations carry the given priority.
pub open spec fn spec_count_priority(items: Seq<ItemView>, p: Priority) -> int
    decreases items.len(),
{
    if items.len() == 0 {
        0
    } else {
        spec_count_priority(items.drop_last(), p) + (if items.last().priority == p {
            1int
        } else {
            0int
        })
    }
}

/// Whether `x` ranks at least as pressing as `b`: higher priority first,
/// then higher tag severity.
pub open spec fn spec_at_least_as_urgent(x: ItemView, b: ItemView) -> bool {
    spec_priority_rank(x.priority) > spec_priority_rank(b.priority) || (spec_priority_rank(
        x.priority,
    ) == spec_priority_rank(b.priority) && spec_severity(x.tag) >= spec_severity(b.tag))
}

/// The most pressing non-Normal annotation; among equals, the last one.
pub open spec fn spec_top_urgent(items: Seq<ItemView>) -> Option<ItemView>
    decreases items.len(),
{
    if items.len() == 0 {
        None
    } else {
        let pre = spec_top_urgent(items.drop_last());
        let x = items.last();
        if x.priority == Priority::Normal {
            pre
        } else {
            match pre {
                None => Some(x),
                Some(b) => if spec_at_least_as_urgent(x, b) {
                    Some(x)
                } else {
                    Some(b)
                },
            }
        }
    }
}

/// Collects the distinct file paths of a snapshot, in first-occurrence
/// order.
pub fn distinct_files(items: &Vec<TodoItem>) -> (r: Vec<String>)
    ensures
        r.deep_view() == spec_file_list(items.deep_view()),
{
    let ghost iv = items.deep_view();
    let mut out: Vec<String> = Vec::new();
    let mut i: usize = 0;
    proof {
        assert(iv.take(0) =~= Seq::<ItemView>::empty());
        assert(out.deep_view() =~= spec_file_list(iv.take(0)));
    }
    while i < items.len()
        invariant
            0 <= i <= items@.len(),
            iv == items.deep_view(),
            out.deep_view() == spec_file_list(iv.take(i as int)),
        decreases items@.len() - i,
    {
        proof {
            assert(iv.take(i + 1).drop_last() =~= iv.take(i as int));
            assert(iv.take(i + 1).last() == iv[i as int]);
            assert(iv[i as int] == items@[i as int]@);
        }
        if !contains_string(&out, items[i].file.as_str()) {
            let ghost old_dv = out.deep_view();
            out.push(items[i].file.clone());
            proof {
                assert(out.deep_view() =~= old_dv.push(iv[i as int].file));
                assert(old_dv.push(iv[i as int].file) =~= old_dv + seq![iv[i as int].file]);
                assert(out.deep_view() =~= spec_file_list(iv.take(i + 1)));
            }
        } else {
            proof {
                assert(out.deep_view() + Seq::<Seq<char>>::empty() =~= out.deep_view());
                assert(out.deep_view() =~= spec_file_list(iv.take(i + 1)));
            }
        }
        i = i + 1;
    }
    proof {
        assert(iv.take(items@.len() as int) =~= iv);
    }
    out
}

/// Counts the annotations with the given priority.
pub fn count_priority(items: &Vec<TodoItem>, p: Priority) -> (r: usize)
    ensures
        r as int == spec_count_priority(items.deep_view(), p),
{
    let ghost iv = items.deep_view();
    let mut count: usize = 0;
    let mut i: usize = 0;
    proof {
        assert(iv.take(0) =~= Seq::<ItemView>::empty());
    }
    while i < items.len()
        invariant
            0 <= i <= items@.len(),
            iv == items.deep_view(),
            count as int == spec_count_priority(iv.take(i as int), p),
            count <= i,
        decreases items@.len() - i,
    {
        proof {
            assert(iv.take(i + 1).drop_last() =~= iv.take(i as int));
            assert(iv.take(i + 1).last() == iv[i as int]);
            assert(iv[i as int] == items@[i as int]@);
        }
        if items[i].priority == p {
            count = count + 1;
        }
        i = i + 1;
    }
    proof {
        assert(iv.take(items@.len() as int) =~= iv);
    }
    count
}

/// Computes the brief: total counts, priority breakdown, the most pressing
/// non-Normal annotation (priority first, tag severity as tie-break, the
/// later one among equals), and the trend carried over from a diff.
pub fn compute_brief(scan: &ScanResult, diff: Option<&DiffResult>) -> (r: BriefResult)
    ensures
        r.total_items == scan.items@.len(),
        r.total_files == spec_file_list(scan.items.deep_view()).len(),
        r.priority_counts.normal as int == spec_count_priority(
            scan.items.deep_view(),
            Priority::Normal,
        ),
        r.priority_counts.high as int == spec_count_priority(
            scan.items.deep_view(),
            Priority::High,
        ),
        r.priority_counts.urgent as int == spec_count_priority(
            scan.items.deep_view(),
            Priority::Urgent,
        ),
        r.top_urgent.deep_view() == spec_top_urgent(scan.items.deep_view()),
        diff is Some ==> (r.trend matches Some(t) && t.added == diff->0.added_count && t.removed
            == diff->0.removed_count && t.base_ref@ == diff->0.base_ref@),
        diff is None ==> r.trend is None,
{
    let ghost iv = scan.items.deep_view();
    let total_items: usize = scan.items.len();
    let files: Vec<String> = distinct_files(&scan.items);
    let total_files: usize = files.len();
    let normal: usize = count_priority(&scan.items, Priority::Normal);
    let high: usize = count_priority(&scan.items, Priority::High);
    let urgent: usize = count_priority(&scan.items, Priority::Urgent);
    let mut top_urgent: Option<TodoItem> = None;
    let mut i: usize = 0;
    proof {
        assert(iv.take(0) =~= Seq::<ItemView>::empty());
    }
    while i < scan.items.len()
        invariant
            0 <= i <= scan.items@.len(),
            iv == scan.items.deep_view(),
            top_urgent.deep_view() == spec_top_urgent(iv.take(i as int)),
        decreases scan.items@.len() - i,
    {
        proof {
            assert(iv.take(i + 1).drop_last() =~= iv.take(i as int));
            assert(iv.take(i + 1).last() == iv[i as int]);
            assert(iv[i as int] == scan.items@[i as int]@);
        }
        let x = &scan.items[i];
        if !(matches!(x.priority, Priority::Normal)) {
            let replace: bool = match &top_urgent {
                None => true,
                Some(b) => {
                    let xr = crate::model::priority_rank(&x.priority);
                    let br = crate::model::priority_rank(&b.priority);
                    xr > br || (xr == br && x.tag.severity() >= b.tag.severity())
                },
            };
            if replace {
                top_urgent = Some(x.clone());
            }
        }
        i = i + 1;
    }
    proof {
        assert(iv.take(scan.items@.len() as int) =~= iv);
    }
    let trend: Option<TrendInfo> = match diff {
        Some(d) => Some(
            TrendInfo {
                added: d.added_count,
                removed: d.removed_count,
                base_ref: d.base_ref.clone(),
            },
        ),
        None => None,
    };
    BriefResult {
        total_items,
        total_files,
        priority_counts: PriorityCounts { normal, high, urgent },
        top_urgent,
        trend,
    }
}

} // verus!
