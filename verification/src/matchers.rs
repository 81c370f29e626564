//! The matcher combinators: a phrase matched by fuzzy alignment, an exact
//! token-window match, and the ordered, all-of and any-of composites.

pub mod all;
pub mod any;
pub mod exact;
pub mod kind;
pub mod ordered;
pub mod phrase;
