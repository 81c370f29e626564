//! The ordered combinator: each child must match strictly after the
//! furthest observed token its predecessor matched.

use vstd::prelude::*;

use crate::detected::{item_keys_ok, DetectedItem};
use crate::matchers::kind::{ordered_matches, spec_ordered_matches, MatcherKind};
use crate::similarity::SCALE;

verus! {

/// Matches its children left to right, each against the remaining suffix of
/// the observed tokens.
#[derive(Debug, PartialEq)]
pub struct OrderedMatcher(pub Vec<MatcherKind>);

impl OrderedMatcher {
    /// Matches every child in order; the score is the mean of the child
    /// scores and the flagged words are the union of the children's flags,
    /// re-based into the full observed index space.
    pub fn matches(&self, words: &[&str], debug: bool) -> (r: Option<DetectedItem>)
        ensures
            ({
                let sp = spec_ordered_matches(self.0@, words.deep_view());
                match r {
                    Some(item) => sp is Some && item.score as int == (sp->0).0 && item.words@ == (
                    sp->0).1 && item.score <= SCALE && item_keys_ok(
                        item.words@,
                        words@.len() as int,
                    ),
                    None => sp is None,
                }
            }),
    {
        ordered_matches(&self.0, words, debug)
    }
}

} // verus!
