//! The policy check: blocked tags, a ceiling on the total count, and a
//! ceiling on newly added annotations.

use vstd::prelude::*;
use vstd::string::*;

use crate::config::Config;
use crate::model::{
    ascii_upper_seq, eq_ignore_case, spec_tag_str, CheckResult, CheckViolation, DiffResult,
    ItemView, ScanResult, Tag,
};
use crate::strings::{clone_strings, push_char, spec_digits, usize_to_string};

verus! {

/// The options a caller may use to override the configured thresholds.
#[derive(Debug)]
pub struct CheckOverrides {
    pub max: Option<usize>,
    pub block_tags: Vec<String>,
    pub max_new: Option<usize>,
}

/// The view of a check violation.
pub struct ViolationView {
    pub rule: Seq<char>,
    pub message: Seq<char>,
}

impl View for CheckViolation {
    type V = ViolationView;

    open spec fn view(&self) -> ViolationView {
        ViolationView { rule: self.rule@, message: self.message@ }
    }
}

impl DeepView for CheckViolation {
    type V = ViolationView;

    open spec fn deep_view(&self) -> ViolationView {
        self.view()
    }
}

/// The effective blocked-tag list: the caller's overrides, then each
/// configured tag that none of the earlier entries already names, ignoring
/// ASCII case.
pub open spec fn spec_blocked_list(over: Seq<Seq<char>>, conf: Seq<Seq<char>>) -> Seq<Seq<char>>
    decreases conf.len(),
{
    if conf.len() == 0 {
        over
    } else {
        let pre = spec_blocked_list(over, conf.drop_last());
        if exists|k: int|
            0 <= k < pre.len() && ascii_upper_seq(#[trigger] pre[k]) == ascii_upper_seq(
                conf.last(),
            ) {
            pre
        } else {
            pre.push(conf.last())
        }
    }
}

/// Whether a tag is blocked: some blocked name equals its name, ignoring
/// ASCII case.
pub open spec fn spec_is_blocked(blocked: Seq<Seq<char>>, t: Tag) -> bool {
    exists|k: int|
        0 <= k < blocked.len() && ascii_upper_seq(#[trigger] blocked[k]) == ascii_upper_seq(
            spec_tag_str(t),
        )
}

/// The message of a blocked-tag violation.
pub open spec fn spec_block_message(it: ItemView) -> Seq<char> {
    "Blocked tag "@ + spec_tag_str(it.tag) + " found in "@ + it.file + seq![':'] + spec_digits(
        it.line as nat,
    )
}

/// The blocked-tag violations, one per offending annotation, in order.
pub open spec fn spec_block_violations(items: Seq<ItemView>, blocked: Seq<Seq<char>>) -> Seq<
    ViolationView,
>
    decreases items.len(),
{
    if items.len() == 0 {
        Seq::empty()
    } else {
        spec_block_violations(items.drop_last(), blocked) + (if spec_is_blocked(
            blocked,
            items.last().tag,
        ) {
            seq![
                ViolationView {
                    rule: "block_tags"@,
                    message: spec_block_message(items.last()),
                },
            ]
        } else {
            Seq::empty()
        })
    }
}

/// The message of a total-ceiling violation.
pub open spec fn spec_max_message(total: nat, max: nat) -> Seq<char> {
    "Total TODOs ("@ + spec_digits(total) + ") exceeds max ("@ + spec_digits(max) + ")"@
}

/// The message of a new-annotation-ceiling violation.
pub open spec fn spec_max_new_message(added: nat, max_new: nat) -> Seq<char> {
    "New TODOs ("@ + spec_digits(added) + ") exceeds max_new ("@ + spec_digits(max_new) + ")"@
}

/// Every violation of a check run, in order: blocked tags, then the total
/// ceiling, then the new-annotation ceiling.
pub open spec fn spec_check_violations(
    items: Seq<ItemView>,
    blocked: Seq<Seq<char>>,
    max: Option<usize>,
    max_new: Option<usize>,
    added: Option<usize>,
) -> Seq<ViolationView> {
    spec_block_violations(items, blocked) + (match max {
        Some(m) => if items.len() > m {
            seq![
                ViolationView {
                    rule: "max"@,
                    message: spec_max_message(items.len(), m as nat),
                },
            ]
        } else {
            Seq::empty()
        },
        None => Seq::empty(),
    }) + (match (max_new, added) {
        (Some(mn), Some(a)) => if a > mn {
            seq![
                ViolationView {
                    rule: "max_new"@,
                    message: spec_max_new_message(a as nat, mn as nat),
                },
            ]
        } else {
            Seq::empty()
        },
        _ => Seq::empty(),
    })
}

/// An override takes precedence over the configured value.
pub open spec fn spec_or_opt(over: Option<usize>, conf: Option<usize>) -> Option<usize> {
    match over {
        Some(m) => Some(m),
        None => conf,
    }
}

/// Decides whether some entry of `blocked` names the same tag as `name`,
/// ignoring ASCII case.
fn any_matches_ci(blocked: &Vec<String>, name: &str) -> (r: bool)
    ensures
        r == exists|k: int|
            0 <= k < blocked.deep_view().len() && ascii_upper_seq(
                #[trigger] blocked.deep_view()[k],
            ) == ascii_upper_seq(name@),
{
    let mut i: usize = 0;
    while i < blocked.len()
        invariant
            0 <= i <= blocked@.len(),
            forall|k: int|
                0 <= k < i ==> ascii_upper_seq(#[trigger] blocked.deep_view()[k])
                    != ascii_upper_seq(name@),
        decreases blocked@.len() - i,
    {
        proof {
            assert(blocked.deep_view()[i as int] == blocked@[i as int]@);
        }
        if eq_ignore_case(blocked[i].as_str(), name) {
            return true;
        }
        i = i + 1;
    }
    proof {
        if exists|k: int|
            0 <= k < blocked.deep_view().len() && ascii_upper_seq(
                #[trigger] blocked.deep_view()[k],
            ) == ascii_upper_seq(name@) {
            let k = choose|k: int|
                0 <= k < blocked.deep_view().len() && ascii_upper_seq(
                    #[trigger] blocked.deep_view()[k],
                ) == ascii_upper_seq(name@);
        }
    }
    false
}

/// Runs the policy check over a snapshot: blocked tags (overrides first,
/// then the configured ones), a ceiling on the total count, and — when a
/// diff is at hand — a ceiling on newly added annotations. The result
/// passes exactly when no rule is violated.
pub fn run_check(
    scan: &ScanResult,
    diff: Option<&DiffResult>,
    config: &Config,
    overrides: &CheckOverrides,
) -> (r: CheckResult)
    ensures
        r.total == scan.items@.len(),
        r.violations.deep_view() == spec_check_violations(
            scan.items.deep_view(),
            spec_blocked_list(
                overrides.block_tags.deep_view(),
                config.check.block_tags.deep_view(),
            ),
            spec_or_opt(overrides.max, config.check.max),
            spec_or_opt(overrides.max_new, config.check.max_new),
            if diff is Some {
                Some(diff->0.added_count)
            } else {
                None
            },
        ),
        r.passed == (r.violations@.len() == 0),
{
    let ghost iv = scan.items.deep_view();
    // Merge the blocked-tag lists, overrides first, skipping configured
    // names already present ignoring ASCII case.
    let mut blocked: Vec<String> = clone_strings(&overrides.block_tags);
    let ghost conf = config.check.block_tags.deep_view();
    let mut i: usize = 0;
    proof {
        assert(conf.take(0) =~= Seq::<Seq<char>>::empty());
        assert(blocked.deep_view() =~= spec_blocked_list(
            overrides.block_tags.deep_view(),
            conf.take(0),
        ));
    }
    while i < config.check.block_tags.len()
        invariant
            0 <= i <= config.check.block_tags@.len(),
            conf == config.check.block_tags.deep_view(),
            blocked.deep_view() == spec_blocked_list(
                overrides.block_tags.deep_view(),
                conf.take(i as int),
            ),
        decreases config.check.block_tags@.len() - i,
    {
        proof {
            assert(conf.take(i + 1).drop_last() =~= conf.take(i as int));
            assert(conf.take(i + 1).last() == conf[i as int]);
            assert(conf[i as int] == config.check.block_tags@[i as int]@);
        }
        if !any_matches_ci(&blocked, config.check.block_tags[i].as_str()) {
            let ghost old_dv = blocked.deep_view();
            blocked.push(config.check.block_tags[i].clone());
            proof {
                assert(blocked.deep_view() =~= old_dv.push(conf[i as int]));
            }
        }
        i = i + 1;
    }
    proof {
        assert(conf.take(config.check.block_tags@.len() as int) =~= conf);
    }
    let ghost blocked_v = blocked.deep_view();
    // Blocked-tag violations, one per offending annotation.
    let mut violations: Vec<CheckViolation> = Vec::new();
    let mut j: usize = 0;
    proof {
        assert(iv.take(0) =~= Seq::<ItemView>::empty());
        assert(violations.deep_view() =~= spec_block_violations(iv.take(0), blocked_v));
    }
    while j < scan.items.len()
        invariant
            0 <= j <= scan.items@.len(),
            iv == scan.items.deep_view(),
            blocked_v == blocked.deep_view(),
            violations.deep_view() == spec_block_violations(iv.take(j as int), blocked_v),
        decreases scan.items@.len() - j,
    {
        proof {
            assert(iv.take(j + 1).drop_last() =~= iv.take(j as int));
            assert(iv.take(j + 1).last() == iv[j as int]);
            assert(iv[j as int] == scan.items@[j as int]@);
        }
        if any_matches_ci(&blocked, scan.items[j].tag.as_str()) {
            let mut message: String = String::from_str("Blocked tag ");
            message.append(scan.items[j].tag.as_str());
            message.append(" found in ");
            message.append(scan.items[j].file.as_str());
            push_char(&mut message, ':');
            let line_s: String = usize_to_string(scan.items[j].line);
            message.append(line_s.as_str());
            let v = CheckViolation { rule: String::from_str("block_tags"), message };
            let ghost old_dv = violations.deep_view();
            proof {
                assert(v@.message =~= spec_block_message(iv[j as int]));
            }
            violations.push(v);
            proof {
                assert(violations.deep_view() =~= old_dv.push(v@));
                assert(old_dv.push(v@) =~= old_dv + seq![v@]);
                assert(violations.deep_view() =~= spec_block_violations(
                    iv.take(j + 1),
                    blocked_v,
                ));
            }
        } else {
            proof {
                assert(violations.deep_view() + Seq::<ViolationView>::empty()
                    =~= violations.deep_view());
                assert(violations.deep_view() =~= spec_block_violations(
                    iv.take(j + 1),
                    blocked_v,
                ));
            }
        }
        j = j + 1;
    }
    proof {
        assert(iv.take(scan.items@.len() as int) =~= iv);
    }
    let ghost block_part = violations.deep_view();
    // Total ceiling.
    let max: Option<usize> = match overrides.max {
        Some(m) => Some(m),
        None => config.check.max,
    };
    let total: usize = scan.items.len();
    match max {
        Some(m) => {
            if total > m {
                let mut message: String = String::from_str("Total TODOs (");
                let t_s: String = usize_to_string(total);
                message.append(t_s.as_str());
                message.append(") exceeds max (");
                let m_s: String = usize_to_string(m);
                message.append(m_s.as_str());
                message.append(")");
                let v = CheckViolation { rule: String::from_str("max"), message };
                let ghost old_dv = violations.deep_view();
                proof {
                    assert(v@.message =~= spec_max_message(iv.len(), m as nat));
                }
                violations.push(v);
                proof {
                    assert(violations.deep_view() =~= old_dv.push(v@));
                }
            }
        },
        None => {},
    }
    let ghost max_part = violations.deep_view();
    // Ceiling on newly added annotations, when a diff is at hand.
    let max_new: Option<usize> = match overrides.max_new {
        Some(m) => Some(m),
        None => config.check.max_new,
    };
    match (max_new, diff) {
        (Some(mn), Some(d)) => {
            if d.added_count > mn {
                let mut message: String = String::from_str("New TODOs (");
                let a_s: String = usize_to_string(d.added_count);
                message.append(a_s.as_str());
                message.append(") exceeds max_new (");
                let m_s: String = usize_to_string(mn);
                message.append(m_s.as_str());
                message.append(")");
                let v = CheckViolation { rule: String::from_str("max_new"), message };
                let ghost old_dv = violations.deep_view();
                proof {
                    assert(v@.message =~= spec_max_new_message(
                        d.added_count as nat,
                        mn as nat,
                    ));
                }
                violations.push(v);
                proof {
                    assert(violations.deep_view() =~= old_dv.push(v@));
                }
            }
        },
        _ => {},
    }
    let passed: bool = violations.len() == 0;
    proof {
        let expected = spec_check_violations(
            iv,
            blocked_v,
            spec_or_opt(overrides.max, config.check.max),
            spec_or_opt(overrides.max_new, config.check.max_new),
            if diff is Some {
                Some(diff->0.added_count)
            } else {
                None
            },
        );
        assert(violations.deep_view() =~= expected);
    }
    CheckResult { passed, total, violations }
}

} // verus!
