use vstd::prelude::*;

use aho_corasick::{AhoCorasick, AhoCorasickBuilder};

verus! {

#[verifier::external_type_specification]
#[verifier::external_body]
pub struct ExAhoCorasick(aho_corasick::AhoCorasick);

/// The number of non-overlapping matches (standard semantics, earliest
/// match first) that an unanchored, ASCII case-insensitive automaton built
/// from `patterns` reports in `haystack`.
pub uninterp spec fn ci_match_count(patterns: Seq<Seq<char>>, haystack: Seq<char>) -> nat;

/// Relies on `AhoCorasickBuilder::build` with ASCII case-insensitivity and
/// the builder's defaults otherwise (unanchored, standard semantics); a
/// build error becomes `None`.
#[verifier::external_body]
fn build_case_insensitive(patterns: &Vec<Vec<char>>) -> (r: Option<AhoCorasick>) {
    let texts: Vec<String> = patterns.iter().map(|p| p.iter().collect::<String>()).collect();
    AhoCorasickBuilder::new().ascii_case_insensitive(true).build(texts).ok()
}

/// A search automaton together with the patterns it was built from.
///
/// Its fields are private to this module, and `build` is the only way to
/// make one, so every value holds an unanchored, ASCII case-insensitive
/// automaton for exactly its patterns.
#[derive(Debug)]
pub struct SearchAutomaton {
    ac: AhoCorasick,
    patterns: Vec<Vec<char>>,
}

impl SearchAutomaton {
    /// The patterns searched for.
    pub closed spec fn patterns(&self) -> Seq<Seq<char>> {
        self.patterns@.map_values(|p: Vec<char>| p@)
    }

    /// Builds the automaton for `patterns`; `None` when the build fails.
    pub fn build(patterns: Vec<Vec<char>>) -> (r: Option<SearchAutomaton>)
        ensures
            r matches Some(a) ==> a.patterns() == patterns@.map_values(|p: Vec<char>| p@),
    {
        match build_case_insensitive(&patterns) {
            Some(ac) => Some(SearchAutomaton { ac, patterns }),
            None => None,
        }
    }

    /// The number of patterns searched for.
    pub fn pattern_count(&self) -> (r: usize)
        ensures
            r == self.patterns().len(),
    {
        self.patterns.len()
    }

    /// Relies on `AhoCorasick::find_iter` (which does not panic on an
    /// unanchored automaton): counts the matches it reports.
    #[verifier::external_body]
    pub fn count_matches(&self, haystack: &str) -> (r: usize)
        ensures
            r as nat == ci_match_count(self.patterns(), haystack@),
    {
        self.ac.find_iter(haystack).count()
    }
}

} // verus!
