//! The SARIF-facing identifiers: the stable rule id each tag reports under.
//! Assembling the SARIF envelope itself is left to the callers that own the
//! JSON machinery.

use vstd::prelude::*;
use vstd::string::*;

use crate::model::{spec_tag_str, Tag};

verus! {

/// The SARIF rule id of a tag: `todo-scan/<TAG>`.
pub fn rule_id(tag: &Tag) -> (r: String)
    ensures
        r@ == "todo-scan/"@ + spec_tag_str(*tag),
{
    let mut s: String = String::from_str("todo-scan/");
    s.append(tag.as_str());
    s
}

} // verus!
