//! The all-of combinator: every child must match the observed tokens.

use vstd::prelude::*;

use crate::detected::{item_keys_ok, DetectedItem};
use crate::matchers::kind::{all_matches, spec_all_matches, MatcherKind};
use crate::similarity::SCALE;

verus! {

/// Matches only when every child matches the whole observed sequence.
#[derive(Debug, PartialEq)]
pub struct AllMatcher(pub Vec<MatcherKind>);

impl AllMatcher {
    /// Matches every child independently against the whole observed
    /// sequence; the score is the mean of the child scores and the flagged
    /// words are the union of the children's flags.
    pub fn matches(&self, words: &[&str], debug: bool) -> (r: Option<DetectedItem>)
        ensures
            ({
                let sp = spec_all_matches(self.0@, words.deep_view());
                match r {
                    Some(item) => sp is Some && item.score as int == (sp->0).0 && item.words@ == (
                    sp->0).1 && item.score <= SCALE && item_keys_ok(
                        item.words@,
                        words@.len() as int,
                    ),
                    None => sp is None,
                }
            }),
    {
        all_matches(&self.0, words, debug)
    }
}

} // verus!
