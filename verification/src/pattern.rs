//! Trusted surface over the `regex` crate: the compiled-pattern type, and the
//! three calls the scanner and the index make. Every other use of patterns in
//! this crate is verified against the names declared here.

use vstd::prelude::*;

verus! {

#[verifier::external_type_specification]
#[verifier::external_body]
pub struct ExRegex(regex::Regex);

/// The pattern source a compiled regular expression was built from.
pub uninterp spec fn regex_src(re: regex::Regex) -> Seq<char>;

/// Whether a pattern source is a valid regular expression.
pub uninterp spec fn spec_compiles(pattern: Seq<char>) -> bool;

/// The first four capture groups of the leftmost match of a pattern in a
/// text, if the pattern matches at all.
pub uninterp spec fn spec_captures(pattern: Seq<char>, text: Seq<char>) -> Option<CapturedView>;

/// Whether a pattern matches anywhere in a text.
pub uninterp spec fn spec_is_match(pattern: Seq<char>, text: Seq<char>) -> bool;

/// The first four capture groups of one match.
pub struct Captured {
    pub tag: Option<String>,
    pub author: Option<String>,
    pub bang: Option<String>,
    pub rest: Option<String>,
}

/// The view of `Captured`: each group as a character sequence.
pub struct CapturedView {
    pub tag: Option<Seq<char>>,
    pub author: Option<Seq<char>>,
    pub bang: Option<Seq<char>>,
    pub rest: Option<Seq<char>>,
}

impl View for Captured {
    type V = CapturedView;

    open spec fn view(&self) -> CapturedView {
        CapturedView {
            tag: self.tag.deep_view(),
            author: self.author.deep_view(),
            bang: self.bang.deep_view(),
            rest: self.rest.deep_view(),
        }
    }
}

/// The view of what a captures call returned.
pub open spec fn captures_view(r: Option<Captured>) -> Option<CapturedView> {
    match r {
        Some(c) => Some(c.view()),
        None => None,
    }
}

/// Relies on `regex::Regex::new`: compilation succeeds exactly when the
/// pattern source is a valid regular expression, and the compiled value
/// carries that source.
#[verifier::external_body]
pub fn compile_pattern(pattern: &str) -> (r: Option<regex::Regex>)
    ensures
        r is Some == spec_compiles(pattern@),
        r matches Some(re) ==> regex_src(re) == pattern@,
{
    regex::Regex::new(pattern).ok()
}

/// Relies on `regex::Regex::captures`: for one pattern, the groups of the
/// leftmost match depend on the text alone.
#[verifier::external_body]
pub fn pattern_captures(re: &regex::Regex, text: &str) -> (r: Option<Captured>)
    ensures
        captures_view(r) == spec_captures(regex_src(*re), text@),
{
    re.captures(text).map(|c| Captured {
        tag: c.get(1).map(|m| m.as_str().to_string()),
        author: c.get(2).map(|m| m.as_str().to_string()),
        bang: c.get(3).map(|m| m.as_str().to_string()),
        rest: c.get(4).map(|m| m.as_str().to_string()),
    })
}

/// Relies on `regex::Regex::is_match`: for one pattern, whether it matches
/// depends on the text alone.
#[verifier::external_body]
pub fn pattern_matches(re: &regex::Regex, text: &str) -> (r: bool)
    ensures
        r == spec_is_match(regex_src(*re), text@),
{
    re.is_match(text)
}

} // verus!
