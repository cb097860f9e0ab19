//! Boundary to the `regex` crate. A `LineMatcher` is a compiled, fully
//! anchored line-matching pattern from which the `Content` capture group is
//! extracted; a `CensorPattern` is a compiled censoring pattern whose matches
//! are replaced by the `<*>` placeholder. Both results are named by
//! uninterpreted functions of the pattern text and the input text alone,
//! which is sound because the `regex` crate's matching is a pure function of
//! pattern and haystack.

use vstd::prelude::*;

verus! {

#[verifier::external_type_specification]
#[verifier::external_body]
pub struct ExRegex(regex::Regex);

/// The `Content` capture group produced by matching `line` against the
/// pattern `^` + `pattern` + `$` with `regex::Regex::captures`: `None` when
/// the line does not match (or the pattern has no `Content` group), otherwise
/// the text that the group captured.
pub uninterp spec fn content_capture(pattern: Seq<char>, line: Seq<char>) -> Option<Seq<char>>;

/// The text produced by replacing every non-overlapping match of `pattern` in
/// `s` with the literal placeholder `<*>`, via `regex::Regex::replace_all`.
pub uninterp spec fn censored_of(pattern: Seq<char>, s: Seq<char>) -> Seq<char>;

/// Whether `regex::Regex::new` accepts the pattern text `pattern`: a
/// function of the text alone, since parsing is deterministic and the
/// compile-time limits are fixed defaults.
pub uninterp spec fn pattern_accepted(pattern: Seq<char>) -> bool;

/// `pat` anchored at both ends.
pub open spec fn anchored(pat: Seq<char>) -> Seq<char> {
    seq!['^'] + pat + seq!['$']
}

/// A line-matching pattern, compiled anchored at both ends.
pub struct LineMatcher {
    re: regex::Regex,
    pat: String,
}

impl LineMatcher {
    /// The pattern body this matcher was compiled from (without the anchors).
    pub closed spec fn pattern(&self) -> Seq<char> {
        self.pat@
    }

    /// Relies on `regex::Regex::new`: compiles `^` + `pat` + `$`; returns
    /// `None` exactly when `regex` rejects that pattern text.
    #[verifier::external_body]
    pub fn compile(pat: String) -> (r: Option<LineMatcher>)
        ensures
            r is Some <==> pattern_accepted(anchored(pat@)),
            r matches Some(m) ==> m.pattern() == pat@,
    {
        match regex::Regex::new(format!("^{}$", pat).as_str()) {
            Ok(re) => Some(LineMatcher { re, pat }),
            Err(_) => None,
        }
    }

    /// Relies on `regex::Regex::captures` and `regex::Captures::name` (with
    /// `regex::Match::as_str`): returns the text captured by the `Content`
    /// group, a function of the pattern and the line alone, here named
    /// `content_capture`.
    #[verifier::external_body]
    pub fn capture_content(&self, line: &str) -> (r: Option<String>)
        ensures
            match r {
                Some(s) => content_capture(self.pattern(), line@) == Some(s@),
                None => content_capture(self.pattern(), line@) is None,
            },
    {
        match self.re.captures(line) {
            Some(c) => match c.name("Content") {
                Some(m) => Some(m.as_str().to_string()),
                None => None,
            },
            None => None,
        }
    }
}

/// A compiled censoring pattern.
pub struct CensorPattern {
    re: regex::Regex,
    pat: String,
}

impl CensorPattern {
    /// The pattern text this censoring pattern was compiled from.
    pub closed spec fn pattern(&self) -> Seq<char> {
        self.pat@
    }

    /// Relies on `regex::Regex::new`: returns `None` exactly when `regex`
    /// rejects the pattern text.
    #[verifier::external_body]
    pub fn compile(pat: String) -> (r: Option<CensorPattern>)
        ensures
            r is Some <==> pattern_accepted(pat@),
            r matches Some(c) ==> c.pattern() == pat@,
    {
        match regex::Regex::new(pat.as_str()) {
            Ok(re) => Some(CensorPattern { re, pat }),
            Err(_) => None,
        }
    }

    /// Relies on `regex::Regex::replace_all` with the literal replacement
    /// `<*>` (no capture references): a function of the pattern and the
    /// haystack alone, here named `censored_of`.
    #[verifier::external_body]
    pub fn censor(&self, s: &str) -> (r: String)
        ensures
            r@ == censored_of(self.pattern(), s@),
    {
        self.re.replace_all(s, "<*>").to_string()
    }
}

} // verus!
