//! The any-of combinator: the best-matching child wins.

use vstd::prelude::*;

use crate::detected::{item_keys_ok, DetectedItem};
use crate::matchers::kind::{any_matches, spec_any_matches, MatcherKind};
use crate::similarity::SCALE;

verus! {

/// Matches when at least one child matches, reporting the single
/// highest-scoring child's result unmodified.
#[derive(Debug, PartialEq)]
pub struct AnyMatcher(pub Vec<MatcherKind>);

impl AnyMatcher {
    /// Matches every child against the whole observed sequence and keeps
    /// the first strictly best result.
    pub fn matches(&self, words: &[&str], debug: bool) -> (r: Option<DetectedItem>)
        ensures
            ({
                let sp = spec_any_matches(self.0@, words.deep_view());
                match r {
                    Some(item) => sp is Some && item.score as int == (sp->0).0 && item.words@ == (
                    sp->0).1 && item.score <= SCALE && item_keys_ok(
                        item.words@,
                        words@.len() as int,
                    ),
                    None => sp is None,
                }
            }),
    {
        any_matches(&self.0, words, debug)
    }
}

} // verus!
