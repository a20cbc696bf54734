//! Report aggregation: an age histogram over blame data, evenly-spaced
//! commit sampling, a history trend over sampled commits, and the full
//! report record.

use vstd::prelude::*;
use vstd::string::*;

use vstd::arithmetic::div_mod::{
    lemma_div_is_ordered, lemma_fundamental_div_mod_converse,
};

use crate::brief::{count_priority, distinct_files, spec_count_priority, spec_file_list};
use crate::config::Config;
use crate::diff::GitOps;
use crate::model::{
    AgeBucket, BlameEntry, BlameResult, HistoryPoint, ItemView, Priority, PriorityCounts,
    ReportResult, ReportSummary, ScanResult, Tag, TodoItem,
};
use crate::pattern::compile_pattern;
use crate::scanner::scan_content;
use crate::strings::split_lines;
use crate::watch::count_tag_items;

verus! {

/// Which histogram bucket an age in days falls into: under one week, one to
/// four weeks, one to three months, three to six months, six to twelve
/// months, or over a year.
pub open spec fn spec_age_bucket(days: int) -> int {
    if days < 7 {
        0
    } else if days < 28 {
        1
    } else if days < 90 {
        2
    } else if days < 180 {
        3
    } else if days < 365 {
        4
    } else {
        5
    }
}

/// How many blame entries fall into bucket `b`.
pub open spec fn spec_bucket_count(entries: Seq<BlameEntry>, b: int) -> int
    decreases entries.len(),
{
    if entries.len() == 0 {
        0
    } else {
        spec_bucket_count(entries.drop_last(), b) + (if spec_age_bucket(
            entries.last().blame.age_days as int,
        ) == b {
            1int
        } else {
            0int
        })
    }
}

/// The label of each histogram bucket.
pub open spec fn spec_bucket_label(b: int) -> Seq<char> {
    if b == 0 {
        "<1 week"@
    } else if b == 1 {
        "1-4 weeks"@
    } else if b == 2 {
        "1-3 months"@
    } else if b == 3 {
        "3-6 months"@
    } else if b == 4 {
        "6-12 months"@
    } else {
        ">1 year"@
    }
}

/// Builds the age histogram over a blame result: six buckets, each counting
/// the annotations whose age falls inside it.
pub fn build_age_histogram(blame_result: &BlameResult) -> (r: Vec<AgeBucket>)
    ensures
        r@.len() == 6,
        forall|b: int| 0 <= b < 6 ==> (#[trigger] r@[b]).label@ == spec_bucket_label(b),
        forall|b: int|
            0 <= b < 6 ==> (#[trigger] r@[b]).count as int == spec_bucket_count(
                blame_result.entries@,
                b,
            ),
{
    let ghost ev = blame_result.entries@;
    let mut b0: usize = 0;
    let mut b1: usize = 0;
    let mut b2: usize = 0;
    let mut b3: usize = 0;
    let mut b4: usize = 0;
    let mut b5: usize = 0;
    let mut i: usize = 0;
    proof {
        assert(ev.take(0) =~= Seq::<BlameEntry>::empty());
    }
    while i < blame_result.entries.len()
        invariant
            0 <= i <= ev.len(),
            ev == blame_result.entries@,
            b0 as int == spec_bucket_count(ev.take(i as int), 0),
            b1 as int == spec_bucket_count(ev.take(i as int), 1),
            b2 as int == spec_bucket_count(ev.take(i as int), 2),
            b3 as int == spec_bucket_count(ev.take(i as int), 3),
            b4 as int == spec_bucket_count(ev.take(i as int), 4),
            b5 as int == spec_bucket_count(ev.take(i as int), 5),
            b0 <= i && b1 <= i && b2 <= i && b3 <= i && b4 <= i && b5 <= i,
        decreases ev.len() - i,
    {
        proof {
            assert(ev.take(i + 1).drop_last() =~= ev.take(i as int));
            assert(ev.take(i + 1).last() == ev[i as int]);
        }
        let days: u64 = blame_result.entries[i].blame.age_days;
        if days < 7 {
            b0 = b0 + 1;
        } else if days < 28 {
            b1 = b1 + 1;
        } else if days < 90 {
            b2 = b2 + 1;
        } else if days < 180 {
            b3 = b3 + 1;
        } else if days < 365 {
            b4 = b4 + 1;
        } else {
            b5 = b5 + 1;
        }
        i = i + 1;
    }
    proof {
        assert(ev.take(ev.len() as int) =~= ev);
    }
    let mut r: Vec<AgeBucket> = Vec::new();
    r.push(AgeBucket { label: String::from_str("<1 week"), count: b0 });
    r.push(AgeBucket { label: String::from_str("1-4 weeks"), count: b1 });
    r.push(AgeBucket { label: String::from_str("1-3 months"), count: b2 });
    r.push(AgeBucket { label: String::from_str("3-6 months"), count: b3 });
    r.push(AgeBucket { label: String::from_str("6-12 months"), count: b4 });
    r.push(AgeBucket { label: String::from_str(">1 year"), count: b5 });
    r
}

/// The default (empty) age histogram, for when blame data is unavailable.
pub fn default_age_histogram() -> (r: Vec<AgeBucket>)
    ensures
        r@.len() == 6,
        forall|b: int| 0 <= b < 6 ==> (#[trigger] r@[b]).label@ == spec_bucket_label(b),
        forall|b: int| 0 <= b < 6 ==> (#[trigger] r@[b]).count == 0,
{
    let mut r: Vec<AgeBucket> = Vec::new();
    r.push(AgeBucket { label: String::from_str("<1 week"), count: 0 });
    r.push(AgeBucket { label: String::from_str("1-4 weeks"), count: 0 });
    r.push(AgeBucket { label: String::from_str("1-3 months"), count: 0 });
    r.push(AgeBucket { label: String::from_str("3-6 months"), count: 0 });
    r.push(AgeBucket { label: String::from_str("6-12 months"), count: 0 });
    r.push(AgeBucket { label: String::from_str(">1 year"), count: 0 });
    r
}

/// Sample index `i` of `count` over `0..total`: `i * (total-1) / (count-1)`
/// rounded half up, so the samples are evenly spaced with the first at `0`
/// and the last at `total - 1`.
pub open spec fn spec_sample_index(total: int, count: int, i: int) -> int {
    let a = i * (total - 1);
    let b = count - 1;
    if b == 0 {
        0
    } else {
        a / b + if 2 * (a % b) >= b {
            1int
        } else {
            0int
        }
    }
}

/// Selects evenly-spaced sample indices from `0..total`: all of them when
/// `sample_count` covers the range, none when either argument is zero.
pub fn select_sample_indices(total: usize, sample_count: usize) -> (r: Vec<usize>)
    ensures
        total == 0 || sample_count == 0 ==> r@.len() == 0,
        total > 0 && sample_count >= total ==> r@.len() == total && (forall|k: int|
            0 <= k < r@.len() ==> r@[k] == k),
        0 < sample_count < total ==> r@.len() == sample_count && (forall|k: int|
            0 <= k < r@.len() ==> (#[trigger] r@[k]) as int == spec_sample_index(
                total as int,
                sample_count as int,
                k,
            )),
{
    let mut out: Vec<usize> = Vec::new();
    if total == 0 || sample_count == 0 {
        return out;
    }
    if sample_count >= total {
        let mut k: usize = 0;
        while k < total
            invariant
                0 <= k <= total,
                out@.len() == k,
                forall|m: int| 0 <= m < k ==> out@[m] == m,
            decreases total - k,
        {
            out.push(k);
            k = k + 1;
        }
        return out;
    }
    let mut i: usize = 0;
    while i < sample_count
        invariant
            0 < sample_count < total,
            0 <= i <= sample_count,
            out@.len() == i,
            forall|m: int|
                0 <= m < i ==> (#[trigger] out@[m]) as int == spec_sample_index(
                    total as int,
                    sample_count as int,
                    m,
                ),
        decreases sample_count - i,
    {
        proof {
            assert((i as int) * ((total - 1) as int) <= u128::MAX) by (nonlinear_arith)
                requires
                    0 <= i,
                    0 <= total - 1,
                    i <= 0xFFFF_FFFF_FFFF_FFFFu64,
                    total - 1 <= 0xFFFF_FFFF_FFFF_FFFFu64;
        }
        let a: u128 = (i as u128) * ((total - 1) as u128);
        let b: u128 = (sample_count - 1) as u128;
        if b == 0 {
            out.push(0);
            i = i + 1;
            continue;
        }
        let q: u128 = a / b;
        let rem: u128 = a % b;
        proof {
            let ai = i as int * (total - 1);
            let bi = sample_count - 1 as int;
            assert(a as int == ai) by (nonlinear_arith)
                requires
                    a == (i as u128) * ((total - 1) as u128),
                    ai == i as int * (total - 1),
                    i < total,
                    total <= usize::MAX;
            if i as int == bi {
                assert(ai == (total - 1) * bi + 0) by (nonlinear_arith)
                    requires
                        ai == i as int * (total - 1),
                        i as int == bi;
                lemma_fundamental_div_mod_converse(ai, bi, total - 1, 0);
                assert(ai / bi == total - 1 && ai % bi == 0);
            } else {
                assert(ai <= bi * (total - 1) - 1) by (nonlinear_arith)
                    requires
                        ai == i as int * (total - 1),
                        (i as int) < bi,
                        total >= 2,
                        i >= 0;
                lemma_div_is_ordered(ai, bi * (total - 1) - 1, bi);
                assert(bi * (total - 1) - 1 == (total - 2) * bi + (bi - 1)) by (nonlinear_arith);
                lemma_fundamental_div_mod_converse(
                    bi * (total - 1) - 1,
                    bi,
                    total - 2,
                    bi - 1,
                );
                assert(ai / bi <= total - 2);
            }
            assert(q as int == ai / bi);
            assert(rem as int == ai % bi);
        }
        let idx128: u128 = if 2 * rem >= b {
            q + 1
        } else {
            q
        };
        proof {
            assert(idx128 as int == spec_sample_index(
                total as int,
                sample_count as int,
                i as int,
            ));
            assert(idx128 <= (total - 1) as u128);
        }
        let idx: usize = idx128 as usize;
        out.push(idx);
        i = i + 1;
    }
    out
}

/// Per-tag totals over a snapshot, in tag order; tags with no annotations
/// are left out.
pub fn tag_totals(items: &Vec<TodoItem>) -> (r: Vec<(Tag, usize)>)
    ensures
        forall|k: int|
            0 <= k < r@.len() ==> (#[trigger] r@[k]).1 as int == count_tag_items(
                items.deep_view(),
                r@[k].0,
            ) && r@[k].1 > 0,
        forall|t: Tag|
            count_tag_items(items.deep_view(), t) > 0 ==> exists|k: int|
                0 <= k < r@.len() && (#[trigger] r@[k]).0 == t,
        forall|a: int, b: int| 0 <= a < b < r@.len() ==> (#[trigger] r@[a]).0 != (
        #[trigger] r@[b]).0,
{
    let tag_list: Vec<Tag> = vec![
        Tag::Todo,
        Tag::Fixme,
        Tag::Hack,
        Tag::Xxx,
        Tag::Bug,
        Tag::Note,
    ];
    proof {
        assert forall|t: Tag| tag_list@.contains(t) by {
            match t {
                Tag::Todo => assert(tag_list@[0] == t),
                Tag::Fixme => assert(tag_list@[1] == t),
                Tag::Hack => assert(tag_list@[2] == t),
                Tag::Xxx => assert(tag_list@[3] == t),
                Tag::Bug => assert(tag_list@[4] == t),
                Tag::Note => assert(tag_list@[5] == t),
            }
        }
    }
    proof {
        assert(tag_list@ =~= seq![
            Tag::Todo,
            Tag::Fixme,
            Tag::Hack,
            Tag::Xxx,
            Tag::Bug,
            Tag::Note,
        ]);
    }
    let mut out: Vec<(Tag, usize)> = Vec::new();
    let mut i: usize = 0;
    while i < tag_list.len()
        invariant
            0 <= i <= tag_list@.len(),
            tag_list@ == seq![Tag::Todo, Tag::Fixme, Tag::Hack, Tag::Xxx, Tag::Bug, Tag::Note],
            forall|k: int|
                0 <= k < out@.len() ==> (#[trigger] out@[k]).1 as int == count_tag_items(
                    items.deep_view(),
                    out@[k].0,
                ) && out@[k].1 > 0,
            forall|t: Tag|
                tag_list@.take(i as int).contains(t) && count_tag_items(items.deep_view(), t) > 0
                    ==> exists|k: int| 0 <= k < out@.len() && (#[trigger] out@[k]).0 == t,
            forall|k: int|
                0 <= k < out@.len() ==> tag_list@.take(i as int).contains((#[trigger] out@[k]).0),
            forall|a: int, b: int| 0 <= a < b < out@.len() ==> (#[trigger] out@[a]).0 != (
            #[trigger] out@[b]).0,
        decreases tag_list@.len() - i,
    {
        let t: Tag = tag_list[i];
        let c: usize = count_items_with_tag(items, t);
        let ghost old_out = out@;
        if c > 0 {
            out.push((t, c));
        }
        proof {
            assert(tag_list@.take(i + 1).drop_last() =~= tag_list@.take(i as int));
            assert(tag_list@.take(i + 1)[i as int] == tag_list@[i as int]);
            assert forall|t2: Tag|
                tag_list@.take(i + 1).contains(t2) && count_tag_items(items.deep_view(), t2)
                    > 0 implies exists|k: int|
                0 <= k < out@.len() && (#[trigger] out@[k]).0 == t2 by {
                let m = choose|m: int| 0 <= m < i + 1 && #[trigger] tag_list@.take(i + 1)[m] == t2;
                if m < i {
                    assert(tag_list@.take(i as int)[m] == t2);
                    assert(tag_list@.take(i as int).contains(t2));
                    let k = choose|k: int|
                        0 <= k < old_out.len() && (#[trigger] old_out[k]).0 == t2;
                    assert(out@[k].0 == t2);
                } else {
                    assert(t2 == tag_list@[i as int]);
                    assert(out@[out@.len() - 1].0 == t2);
                }
            }
            assert forall|k: int| 0 <= k < out@.len() implies tag_list@.take(i + 1).contains(
                (#[trigger] out@[k]).0,
            ) by {
                if k < old_out.len() {
                    assert(tag_list@.take(i as int).contains(old_out[k].0));
                    let m = choose|m: int|
                        0 <= m < i && #[trigger] tag_list@.take(i as int)[m] == old_out[k].0;
                    assert(tag_list@.take(i + 1)[m] == old_out[k].0);
                } else {
                    assert(out@[k].0 == tag_list@[i as int]);
                    assert(tag_list@.take(i + 1)[i as int] == out@[k].0);
                }
            }
            assert forall|a: int, b: int| 0 <= a < b < out@.len() implies (
            #[trigger] out@[a]).0 != (#[trigger] out@[b]).0 by {
                if b == old_out.len() {
                    assert(tag_list@.take(i as int).contains(out@[a].0));
                    if out@[a].0 == t {
                        let m = choose|m: int|
                            0 <= m < i && #[trigger] tag_list@.take(i as int)[m] == t;
                        assert(tag_list@[m] == t && tag_list@[i as int] == t && m < i);
                        assert(tag_list@[0] == Tag::Todo);
                        assert(tag_list@[1] == Tag::Fixme);
                        assert(tag_list@[2] == Tag::Hack);
                        assert(tag_list@[3] == Tag::Xxx);
                        assert(tag_list@[4] == Tag::Bug);
                        assert(tag_list@[5] == Tag::Note);
                        assert(false);
                    }
                }
            }
        }
        i = i + 1;
    }
    proof {
        assert(tag_list@.take(tag_list@.len() as int) =~= tag_list@);
        assert forall|t: Tag|
            count_tag_items(items.deep_view(), t) > 0 implies exists|k: int|
            0 <= k < out@.len() && (#[trigger] out@[k]).0 == t by {
            assert(tag_list@.contains(t));
            assert(tag_list@.take(tag_list@.len() as int).contains(t));
        }
    }
    out
}

/// Counts the annotations of a snapshot carrying tag `t`.
fn count_items_with_tag(items: &Vec<TodoItem>, t: Tag) -> (r: usize)
    ensures
        r as int == count_tag_items(items.deep_view(), t),
{
    let ghost iv = items.deep_view();
    let mut count: usize = 0;
    let mut i: usize = 0;
    proof {
        assert(iv.take(0) =~= Seq::<ItemView>::empty());
    }
    while i < items.len()
        invariant
            0 <= i <= items@.len(),
            iv == items.deep_view(),
            count as int == count_tag_items(iv.take(i as int), t),
            count <= i,
        decreases items@.len() - i,
    {
        proof {
            assert(iv.take(i + 1).drop_last() =~= iv.take(i as int));
            assert(iv.take(i + 1).last() == iv[i as int]);
            assert(iv[i as int] == items@[i as int]@);
        }
        if items[i].tag == t {
            count = count + 1;
        }
        i = i + 1;
    }
    proof {
        assert(iv.take(items@.len() as int) =~= iv);
    }
    count
}

/// How often `key` occurs in `keys`.
pub open spec fn spec_count_key(keys: Seq<Seq<char>>, key: Seq<char>) -> int
    decreases keys.len(),
{
    if keys.len() == 0 {
        0
    } else {
        spec_count_key(keys.drop_last(), key) + (if keys.last() == key {
            1int
        } else {
            0int
        })
    }
}

/// Per-key totals over a key list, in first-occurrence order: each distinct
/// key appears once, with how often it occurs.
pub fn key_totals(keys: &Vec<String>) -> (r: Vec<(String, usize)>)
    ensures
        forall|k: int|
            0 <= k < r@.len() ==> (#[trigger] r@[k]).1 as int == spec_count_key(
                keys.deep_view(),
                r@[k].0@,
            ) && r@[k].1 > 0,
        forall|q: Seq<char>|
            #[trigger] keys.deep_view().contains(q) ==> exists|k: int|
                0 <= k < r@.len() && (#[trigger] r@[k]).0@ == q,
        forall|a: int, b: int| 0 <= a < b < r@.len() ==> (#[trigger] r@[a]).0@ != (
        #[trigger] r@[b]).0@,
{
    let ghost kv = keys.deep_view();
    let mut out: Vec<(String, usize)> = Vec::new();
    let mut i: usize = 0;
    while i < keys.len()
        invariant
            0 <= i <= keys@.len(),
            kv == keys.deep_view(),
            forall|k: int|
                0 <= k < out@.len() ==> (#[trigger] out@[k]).1 as int == spec_count_key(
                    kv,
                    out@[k].0@,
                ) && out@[k].1 > 0,
            forall|q: Seq<char>|
                #[trigger] kv.take(i as int).contains(q) ==> exists|k: int|
                    0 <= k < out@.len() && (#[trigger] out@[k]).0@ == q,
            forall|a: int, b: int| 0 <= a < b < out@.len() ==> (#[trigger] out@[a]).0@ != (
            #[trigger] out@[b]).0@,
        decreases keys@.len() - i,
    {
        proof {
            assert(kv[i as int] == keys@[i as int]@);
        }
        let mut seen: bool = false;
        let mut k: usize = 0;
        while k < out.len()
            invariant
                0 <= k <= out@.len(),
                i < keys@.len(),
                kv == keys.deep_view(),
                seen ==> exists|m: int| 0 <= m < out@.len() && (#[trigger] out@[m]).0@
                    == kv[i as int],
                !seen ==> forall|m: int| 0 <= m < k ==> (#[trigger] out@[m]).0@ != kv[i as int],
            decreases out@.len() - k,
        {
            if crate::strings::str_eq(out[k].0.as_str(), keys[i].as_str()) {
                seen = true;
            }
            k = k + 1;
        }
        if !seen {
            // First occurrence: count this key across the whole list.
            let mut c: usize = 0;
            let mut j: usize = 0;
            proof {
                assert(kv.take(0) =~= Seq::<Seq<char>>::empty());
            }
            while j < keys.len()
                invariant
                    0 <= j <= keys@.len(),
                    i < keys@.len(),
                    kv == keys.deep_view(),
                    c as int == spec_count_key(kv.take(j as int), kv[i as int]),
                    c <= j,
                decreases keys@.len() - j,
            {
                proof {
                    assert(kv.take(j + 1).drop_last() =~= kv.take(j as int));
                    assert(kv.take(j + 1).last() == kv[j as int]);
                    assert(kv[j as int] == keys@[j as int]@);
                }
                if crate::strings::str_eq(keys[j].as_str(), keys[i].as_str()) {
                    c = c + 1;
                }
                j = j + 1;
            }
            proof {
                assert(kv.take(keys@.len() as int) =~= kv);
                assert(kv.take(i + 1)[i as int] == kv[i as int]);
                assert(kv.take(i + 1).contains(kv[i as int]));
                assert(c > 0) by {
                    lemma_count_key_contains(kv, kv[i as int]);
                }
            }
            let ghost old_out = out@;
            proof {
                assert(forall|m: int|
                    0 <= m < old_out.len() ==> (#[trigger] old_out[m]).0@ != kv[i as int]);
            }
            out.push((keys[i].clone(), c));
            proof {
                assert(out@[old_out.len() as int].0@ == kv[i as int]);
                assert forall|q: Seq<char>|
                    #[trigger] kv.take(i + 1).contains(q) implies exists|m: int|
                    0 <= m < out@.len() && (#[trigger] out@[m]).0@ == q by {
                    let w = choose|w: int| 0 <= w < i + 1 && #[trigger] kv.take(i + 1)[w] == q;
                    if w < i {
                        assert(kv.take(i as int)[w] == q);
                        assert(kv.take(i as int).contains(q));
                        let m = choose|m: int|
                            0 <= m < old_out.len() && (#[trigger] old_out[m]).0@ == q;
                        assert(out@[m].0@ == q);
                    } else {
                        assert(out@[old_out.len() as int].0@ == q);
                    }
                }
                assert forall|a: int, b: int| 0 <= a < b < out@.len() implies (
                #[trigger] out@[a]).0@ != (#[trigger] out@[b]).0@ by {
                    if b == old_out.len() {
                        assert(out@[b].0@ == kv[i as int]);
                        assert(out@[a] == old_out[a]);
                        assert(old_out[a].0@ != kv[i as int]);
                    }
                }
            }
        } else {
            proof {
                assert forall|q: Seq<char>|
                    #[trigger] kv.take(i + 1).contains(q) implies exists|m: int|
                    0 <= m < out@.len() && (#[trigger] out@[m]).0@ == q by {
                    let w = choose|w: int| 0 <= w < i + 1 && #[trigger] kv.take(i + 1)[w] == q;
                    if w < i {
                        assert(kv.take(i as int)[w] == q);
                        assert(kv.take(i as int).contains(q));
                    }
                }
            }
        }
        i = i + 1;
    }
    proof {
        assert(kv.take(keys@.len() as int) =~= kv);
    }
    out
}

/// A key that occurs in the list has a positive count.
proof fn lemma_count_key_contains(keys: Seq<Seq<char>>, key: Seq<char>)
    requires
        keys.contains(key),
    ensures
        spec_count_key(keys, key) > 0,
    decreases keys.len(),
{
    lemma_count_key_nonneg(keys, key);
    if keys.len() > 0 {
        if keys.last() == key {
            lemma_count_key_nonneg(keys.drop_last(), key);
        } else {
            let w = choose|w: int| 0 <= w < keys.len() && keys[w] == key;
            assert(keys.drop_last()[w] == key);
            assert(keys.drop_last().contains(key));
            lemma_count_key_contains(keys.drop_last(), key);
        }
    }
}

proof fn lemma_count_key_nonneg(keys: Seq<Seq<char>>, key: Seq<char>)
    ensures
        spec_count_key(keys, key) >= 0,
    decreases keys.len(),
{
    if keys.len() > 0 {
        lemma_count_key_nonneg(keys.drop_last(), key);
    }
}

/// The author names of the annotations that carry one.
fn author_list(items: &Vec<TodoItem>) -> (r: Vec<String>)
{
    let mut out: Vec<String> = Vec::new();
    let mut i: usize = 0;
    while i < items.len()
        decreases items@.len() - i,
    {
        match &items[i].author {
            Some(a) => {
                out.push(a.clone());
            },
            None => {},
        }
        i = i + 1;
    }
    out
}

/// The file paths of all annotations, one per annotation.
fn file_list(items: &Vec<TodoItem>) -> (r: Vec<String>)
{
    let mut out: Vec<String> = Vec::new();
    let mut i: usize = 0;
    while i < items.len()
        decreases items@.len() - i,
    {
        out.push(items[i].file.clone());
        i = i + 1;
    }
    out
}

/// Samples commits from history and counts tagged annotations at each,
/// oldest sampled commit first. A commit whose file listing cannot be read
/// is skipped; so is any file whose content cannot be fetched. Fails when
/// the commit log itself cannot be read or the tag pattern does not
/// compile.
pub fn compute_history<G: GitOps>(git: &G, config: &Config, sample_count: usize) -> (r: Result<
    Vec<HistoryPoint>,
    String,
>)
    ensures
        r matches Ok(h) ==> h@.len() <= sample_count && (forall|k: int|
            0 <= k < h@.len() ==> (#[trigger] h@[k]).commit@.len() <= 8),
{
    let log_output: String = match git.log_commits() {
        Ok(s) => s,
        Err(e) => {
            return Err(e);
        },
    };
    // One commit per line: `<hash> <ISO date>`; lines without a space are
    // skipped.
    let lines: Vec<String> = split_lines(log_output.as_str());
    let mut hashes: Vec<String> = Vec::new();
    let mut dates: Vec<String> = Vec::new();
    let mut i: usize = 0;
    while i < lines.len()
        invariant
            hashes@.len() == dates@.len(),
        decreases lines@.len() - i,
    {
        let line: &str = lines[i].as_str();
        let n: usize = line.unicode_len();
        let mut sp: usize = 0;
        while sp < n && line.get_char(sp) != ' '
            invariant
                0 <= sp <= n,
                n == line@.len(),
            decreases n - sp,
        {
            sp = sp + 1;
        }
        if sp > 0 && sp < n {
            hashes.push(line.substring_char(0, sp).to_owned());
            dates.push(line.substring_char(sp + 1, n).to_owned());
        }
        i = i + 1;
    }
    if hashes.len() == 0 {
        return Ok(Vec::new());
    }
    let pattern_src: String = config.tags_pattern();
    let re: regex::Regex = match compile_pattern(pattern_src.as_str()) {
        Some(re) => re,
        None => {
            return Err(pattern_src);
        },
    };
    let indices: Vec<usize> = select_sample_indices(hashes.len(), sample_count);
    proof {
        assert(indices@.len() <= sample_count);
    }
    // Walk the sampled commits newest-last so the result is chronological.
    let mut history: Vec<HistoryPoint> = Vec::new();
    let mut s: usize = indices.len();
    while s > 0
        invariant
            0 <= s <= indices@.len(),
            hashes@.len() == dates@.len(),
            indices@.len() <= sample_count,
            history@.len() <= indices@.len() - s,
            forall|k: int| 0 <= k < history@.len() ==> (#[trigger] history@[k]).commit@.len() <= 8,
        decreases s,
    {
        s = s - 1;
        let idx: usize = indices[s];
        if idx < hashes.len() {
            let hash: &str = hashes[idx].as_str();
            let hash_len: usize = hash.unicode_len();
            let short_len: usize = if hash_len < 8 {
                hash_len
            } else {
                8
            };
            let short_hash: String = hash.substring_char(0, short_len).to_owned();
            let date: &str = dates[idx].as_str();
            let dn: usize = date.unicode_len();
            let mut tp: usize = 0;
            while tp < dn && date.get_char(tp) != 'T'
                invariant
                    0 <= tp <= dn,
                    dn == date@.len(),
                decreases dn - tp,
            {
                tp = tp + 1;
            }
            let date_str: String = date.substring_char(0, tp).to_owned();
            match git.ls_tree(hash) {
                Ok(listing) => {
                    let files: Vec<String> = crate::diff::parse_listing(listing.as_str());
                    let mut count: usize = 0;
                    let mut f: usize = 0;
                    while f < files.len()
                        decreases files@.len() - f,
                    {
                        match git.show_file(hash, files[f].as_str()) {
                            Ok(content) => {
                                let scanned = scan_content(
                                    content.as_str(),
                                    files[f].as_str(),
                                    &re,
                                );
                                count = add_sat(count, scanned.items.len());
                            },
                            Err(_) => {},
                        }
                        f = f + 1;
                    }
                    history.push(HistoryPoint { commit: short_hash, date: date_str, count });
                },
                Err(_) => {},
            }
        }
    }
    Ok(history)
}

/// Saturating addition.
fn add_sat(a: usize, b: usize) -> (r: usize)
    ensures
        a + b <= usize::MAX ==> r == a + b,
{
    if a <= usize::MAX - b {
        a + b
    } else {
        usize::MAX
    }
}

/// Computes the full report over one snapshot. Blame-derived figures come
/// from the blame result when one is at hand and fall back to zero (with an
/// all-zero histogram) when blame was unavailable; the history trend is
/// sampled from version control only when `history_count` is positive, and
/// degrades to an empty trend when history cannot be read.
pub fn compute_report<G: GitOps>(
    scan: &ScanResult,
    blame: Option<&BlameResult>,
    git: &G,
    config: &Config,
    history_count: usize,
    generated_at: String,
) -> (r: ReportResult)
    ensures
        r.generated_at == generated_at,
        r.summary.total_items == scan.items@.len(),
        r.summary.total_files == spec_file_list(scan.items.deep_view()).len(),
        r.summary.files_scanned == scan.files_scanned,
        r.summary.urgent_count as int == spec_count_priority(
            scan.items.deep_view(),
            Priority::Urgent,
        ),
        r.summary.high_count as int == spec_count_priority(scan.items.deep_view(), Priority::High),
        blame matches Some(b) ==> r.summary.stale_count == b.stale_count
            && r.summary.avg_age_days == b.avg_age_days && r.age_histogram@.len() == 6 && (forall|
            bi: int,
        |
            0 <= bi < 6 ==> (#[trigger] r.age_histogram@[bi]).count as int == spec_bucket_count(
                b.entries@,
                bi,
            )),
        blame is None ==> r.summary.stale_count == 0 && r.summary.avg_age_days == 0
            && r.age_histogram@.len() == 6 && (forall|bi: int|
            0 <= bi < 6 ==> (#[trigger] r.age_histogram@[bi]).count == 0),
        history_count == 0 ==> r.history@.len() == 0,
        r.items.deep_view() == scan.items.deep_view(),
        r.priority_counts.normal as int == spec_count_priority(
            scan.items.deep_view(),
            Priority::Normal,
        ),
        r.priority_counts.high as int == spec_count_priority(
            scan.items.deep_view(),
            Priority::High,
        ),
        r.priority_counts.urgent as int == spec_count_priority(
            scan.items.deep_view(),
            Priority::Urgent,
        ),
        forall|t: Tag|
            count_tag_items(scan.items.deep_view(), t) > 0 ==> exists|k: int|
                0 <= k < r.tag_counts@.len() && (#[trigger] r.tag_counts@[k]).0 == t,
{
    let total_items: usize = scan.items.len();
    let files: Vec<String> = distinct_files(&scan.items);
    let total_files: usize = files.len();
    let normal: usize = count_priority(&scan.items, Priority::Normal);
    let high: usize = count_priority(&scan.items, Priority::High);
    let urgent: usize = count_priority(&scan.items, Priority::Urgent);
    let (age_histogram, stale_count, avg_age_days): (Vec<AgeBucket>, usize, u64) = match blame {
        Some(b) => (build_age_histogram(b), b.stale_count, b.avg_age_days),
        None => (default_age_histogram(), 0, 0),
    };
    let history: Vec<HistoryPoint> = if history_count > 0 {
        match compute_history(git, config, history_count) {
            Ok(h) => h,
            Err(_) => Vec::new(),
        }
    } else {
        Vec::new()
    };
    let tag_counts: Vec<(Tag, usize)> = tag_totals(&scan.items);
    let author_counts: Vec<(String, usize)> = key_totals(&author_list(&scan.items));
    let hotspot_files: Vec<(String, usize)> = key_totals(&file_list(&scan.items));
    let items: Vec<TodoItem> = crate::watch::clone_items(&scan.items);
    let rr = ReportResult {
        generated_at,
        summary: ReportSummary {
            total_items,
            total_files,
            files_scanned: scan.files_scanned,
            urgent_count: urgent,
            high_count: high,
            stale_count,
            avg_age_days,
        },
        tag_counts,
        priority_counts: PriorityCounts { normal, high, urgent },
        author_counts,
        hotspot_files,
        history,
        age_histogram,
        items,
    };
    proof {
        assert forall|t: Tag|
            count_tag_items(scan.items.deep_view(), t) > 0 implies exists|k: int|
            0 <= k < rr.tag_counts@.len() && (#[trigger] rr.tag_counts@[k]).0 == t by {
            let k = choose|k: int|
                0 <= k < tag_counts@.len() && (#[trigger] tag_counts@[k]).0 == t;
            assert(rr.tag_counts@[k].0 == t);
        }
    }
    rr
}

} // verus!
