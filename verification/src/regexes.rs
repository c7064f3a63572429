//! The compiled matcher, backed by the `regex` crate.
//!
//! A `Matcher` pairs a compiled `regex::Regex` with the source text it was
//! compiled from. The fields are private; every `Matcher` comes from
//! `Matcher::compile`, or from `clone`, whose regex clone is a compilation
//! of the same pattern. So every `Matcher` holds a regex compiled from its
//! own source text; the contracts of the query methods below rest on that.
//!
//! What the regex engine decides is a pure function of the expression text
//! and the haystack; the three uninterpreted functions below name those
//! results, and every contract of this module speaks through them.

use vstd::prelude::*;

verus! {

#[verifier::external_type_specification]
#[verifier::external_body]
pub struct ExRegex(regex::Regex);

/// Whether `regex::Regex::new` accepts the expression `src`: a function of
/// the expression text alone (the default size limit applies).
pub uninterp spec fn regex_compiles(src: Seq<char>) -> bool;

/// What `regex::Regex::is_match` returns for a compilation of `src` run on
/// `hay`: a function of the two texts alone.
pub uninterp spec fn regex_is_match(src: Seq<char>, hay: Seq<char>) -> bool;

/// What `regex::Regex::captures` captures for a compilation of `src` run on
/// `hay`, when it matches: the capture groups from group 1 on, in order; a
/// group that did not participate in the match is `None`.
pub uninterp spec fn regex_captures(src: Seq<char>, hay: Seq<char>) -> Seq<Option<Seq<char>>>;

/// Relies on `regex::Regex`'s derived `Clone`: the clone is a compilation
/// of the same pattern, so a cloned `Matcher` still pairs its regex with
/// the source text the regex was compiled from.
pub assume_specification[ <regex::Regex as Clone>::clone ](re: &regex::Regex) -> regex::Regex;

/// A compiled matcher: a regular expression together with its source text.
pub struct Matcher {
    source: String,
    regex: regex::Regex,
}

impl Matcher {
    /// The source text the regex was compiled from.
    pub closed spec fn src(&self) -> Seq<char> {
        self.source@
    }

    /// Relies on `regex::Regex::new`: it compiles the expression or reports
    /// an error, deciding by the expression text alone.
    #[verifier::external_body]
    fn build(src: &str) -> (r: Option<Matcher>)
        ensures
            r is Some <==> regex_compiles(src@),
            r matches Some(m) ==> m.src() == src@,
    {
        match regex::Regex::new(src) {
            Ok(re) => Some(Matcher { source: src.to_string(), regex: re }),
            Err(_) => None,
        }
    }

    /// Relies on `regex::Regex::is_match`: true if and only if the regex
    /// matches somewhere in `hay`.
    #[verifier::external_body]
    fn run_is_match(&self, hay: &str) -> (r: bool)
        ensures
            r == regex_is_match(self.src(), hay@),
    {
        self.regex.is_match(hay)
    }

    /// Relies on `regex::Regex::captures` and `regex::Captures::get`: a
    /// capture set comes back exactly when the regex matches, and holds one
    /// entry per capture group after the whole-match group 0.
    #[verifier::external_body]
    fn run_captures(&self, hay: &str) -> (r: Option<Vec<Option<String>>>)
        ensures
            r is Some <==> regex_is_match(self.src(), hay@),
            r matches Some(v) ==> v.deep_view() == regex_captures(self.src(), hay@),
    {
        match self.regex.captures(hay) {
            Some(caps) => {
                let mut groups: Vec<Option<String>> = Vec::new();
                for i in 1..caps.len() {
                    groups.push(caps.get(i).map(|m| m.as_str().to_string()));
                }
                Some(groups)
            },
            None => None,
        }
    }

    /// Compile `src`, or nothing if the regex engine rejects it.
    pub fn compile(src: &str) -> (r: Option<Matcher>)
        ensures
            r is Some <==> regex_compiles(src@),
            r matches Some(m) ==> m.src() == src@,
    {
        Matcher::build(src)
    }

    /// Test whether the expression matches somewhere in `hay`.
    pub fn is_match(&self, hay: &str) -> (r: bool)
        ensures
            r == regex_is_match(self.src(), hay@),
    {
        self.run_is_match(hay)
    }

    /// The capture groups of a match on `hay`: one entry per group after
    /// the whole-match group, or nothing when the expression does not match.
    pub fn captures(&self, hay: &str) -> (r: Option<Vec<Option<String>>>)
        ensures
            r is Some <==> regex_is_match(self.src(), hay@),
            r matches Some(v) ==> v.deep_view() == regex_captures(self.src(), hay@),
    {
        self.run_captures(hay)
    }
}

impl Clone for Matcher {
    /// The clone pairs a clone of the regex — a compilation of the same
    /// pattern — with the same source text.
    fn clone(&self) -> (res: Self)
        ensures
            res.src() == self.src(),
    {
        Matcher { source: self.source.clone(), regex: self.regex.clone() }
    }
}

} // verus!
