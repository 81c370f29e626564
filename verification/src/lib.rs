//! A fuzzy phrase-matching and alignment engine.
//!
//! The library detects whether a noisy stream of word tokens (for example the
//! output of optical character recognition, or a post title or body) contains
//! a known phrase.  It normalizes text into lowercase alphanumeric tokens,
//! measures token similarity with a character-level edit distance, aligns a
//! reference phrase against an observed token stream with a global alignment,
//! isolates the best-matching region, and composes these primitives through a
//! small grammar of matcher combinators.
//!
//! Scores are exact fixed-point fractions of [`similarity::SCALE`]: a score of
//! `SCALE` stands for the real value 1.0.  No floating point is used anywhere.

pub mod alignment;
pub mod analysis;
pub mod config;
pub mod detected;
pub mod error;
pub mod grammar;
pub mod imgur;
pub mod laws;
pub mod links;
pub mod matchers;
pub mod ratelimiter;
pub mod region;
pub mod similarity;
pub mod strutil;
pub mod url;
pub mod utils;
pub mod webhook;
pub mod words;
