//! Per-community configuration records, as plain data.

use vstd::prelude::*;

use crate::utils::LowercaseString;

verus! {

/// What moderation does when a rule fires.
#[derive(Debug, PartialEq)]
pub struct SubredditModerateConfig {
    pub removal_reason: String,
}

/// A flair rewrite rule: posts whose title holds the given text and whose
/// author wears one of the permitted flairs are moved to another flair.
#[derive(Debug)]
pub struct FlairChangeConfig {
    pub flair_id: String,
    pub title_must_include: LowercaseString,
    pub permitted_user_flairs: Vec<String>,
    pub change_to: String,
}

impl FlairChangeConfig {
    /// Whether a post title triggers this rule: the configured text must
    /// occur in it, compared on the lowercase folding.
    pub fn title_triggers(&self, title: &LowercaseString) -> (r: bool)
        ensures
            r == crate::strutil::contains_seq(title@, self.title_must_include@),
    {
        crate::strutil::str_contains(title.as_str(), self.title_must_include.as_str())
    }
}

} // verus!
