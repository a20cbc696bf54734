//! Configuration consumed by the scanner, the diff driver and the index:
//! the tag vocabulary, exclusion rules and check thresholds.

use vstd::prelude::*;
use vstd::string::*;

use crate::strings::push_char;

verus! {

/// Thresholds for the policy check.
#[derive(Debug)]
pub struct CheckConfig {
    pub max: Option<usize>,
    pub max_new: Option<usize>,
    pub block_tags: Vec<String>,
}

/// The configuration surface this crate consumes.
#[derive(Debug)]
pub struct Config {
    pub tags: Vec<String>,
    pub exclude_dirs: Vec<String>,
    pub exclude_patterns: Vec<String>,
    pub check: CheckConfig,
}

/// The tag names joined with `'|'`.
pub open spec fn spec_join_bar(ts: Seq<Seq<char>>) -> Seq<char>
    decreases ts.len(),
{
    if ts.len() == 0 {
        Seq::empty()
    } else if ts.len() == 1 {
        ts[0]
    } else {
        spec_join_bar(ts.drop_last()) + seq!['|'] + ts.last()
    }
}

/// The pattern built over a tag vocabulary: the tag word (group 1), an
/// optional parenthesised author (group 2), an optional colon, an optional
/// priority marker (group 3) and the message (group 4).
pub open spec fn spec_tags_pattern(ts: Seq<Seq<char>>) -> Seq<char> {
    "(?i)\\b("@ + spec_join_bar(ts) + ")\\b(?:\\(([^)]+)\\))?\\s*:?\\s*(!!|!)?\\s*(.*)"@
}

/// The default tag vocabulary.
pub open spec fn spec_default_tags() -> Seq<Seq<char>> {
    seq!["TODO"@, "FIXME"@, "HACK"@, "XXX"@, "BUG"@, "NOTE"@]
}

impl Config {
    /// The pattern source used to recognise annotations, built from the
    /// configured tag vocabulary.
    pub fn tags_pattern(&self) -> (r: String)
        ensures
            r@ == spec_tags_pattern(self.tags.deep_view()),
    {
        let ghost ts = self.tags.deep_view();
        let mut joined: String = String::new();
        let mut i: usize = 0;
        proof {
            assert(spec_join_bar(ts.take(0)) =~= Seq::<char>::empty());
            assert(joined@ =~= spec_join_bar(ts.take(0)));
        }
        while i < self.tags.len()
            invariant
                0 <= i <= self.tags.len(),
                ts == self.tags.deep_view(),
                joined@ == spec_join_bar(ts.take(i as int)),
            decreases self.tags.len() - i,
        {
            if i > 0 {
                push_char(&mut joined, '|');
            }
            joined.append(self.tags[i].as_str());
            proof {
                assert(ts.take(i + 1).drop_last() =~= ts.take(i as int));
                assert(ts.take(i + 1).last() == ts[i as int]);
                assert(ts[i as int] == self.tags@[i as int]@);
                if i == 0 {
                    assert(joined@ =~= spec_join_bar(ts.take(1)));
                } else {
                    assert(joined@ =~= spec_join_bar(ts.take(i as int)) + seq!['|'] + ts[i as int]);
                    assert(joined@ =~= spec_join_bar(ts.take(i + 1)));
                }
            }
            i = i + 1;
        }
        proof {
            assert(ts.take(self.tags@.len() as int) =~= ts);
        }
        let mut r: String = String::from_str("(?i)\\b(");
        r.append(joined.as_str());
        r.append(")\\b(?:\\(([^)]+)\\))?\\s*:?\\s*(!!|!)?\\s*(.*)");
        proof {
            assert(r@ =~= spec_tags_pattern(ts));
        }
        r
    }
}

impl Default for Config {
    /// The default configuration: the six standard tags, no exclusions and
    /// no thresholds.
    fn default() -> (c: Config)
        ensures
            c.tags.deep_view() == spec_default_tags(),
            c.exclude_dirs@.len() == 0,
            c.exclude_patterns@.len() == 0,
            c.check.max is None,
            c.check.max_new is None,
            c.check.block_tags@.len() == 0,
    {
        let mut tags: Vec<String> = Vec::new();
        tags.push(String::from_str("TODO"));
        tags.push(String::from_str("FIXME"));
        tags.push(String::from_str("HACK"));
        tags.push(String::from_str("XXX"));
        tags.push(String::from_str("BUG"));
        tags.push(String::from_str("NOTE"));
        proof {
            assert(tags.deep_view() =~= spec_default_tags());
        }
        Config {
            tags,
            exclude_dirs: Vec::new(),
            exclude_patterns: Vec::new(),
            check: CheckConfig { max: None, max_new: None, block_tags: Vec::new() },
        }
    }
}

} // verus!
