//! The exact matcher: the reference tokens must appear as a contiguous,
//! exactly equal window of the observed tokens.

use vstd::prelude::*;

use crate::detected::{item_keys_ok, marks_of, DetectedItem, DetectedWord};
use crate::similarity::SCALE;
use crate::strutil::str_eq;
use crate::words::{clean_seq, tokenize, Words};

verus! {

/// Whether the window of observed tokens starting at `t` equals the
/// reference tokens.
pub open spec fn window_eq(toks: Seq<Seq<char>>, ws: Seq<Seq<char>>, t: int) -> bool {
    forall|u: int| 0 <= u < toks.len() ==> ws[t + u] == toks[u]
}

/// The first window start at or after `t` where the tokens match exactly,
/// or -1 when none does.
pub open spec fn first_window_from(toks: Seq<Seq<char>>, ws: Seq<Seq<char>>, t: int) -> int
    decreases ws.len() - t,
    when 0 <= t && 1 <= toks.len() <= ws.len()
{
    if t > ws.len() - toks.len() {
        -1
    } else if window_eq(toks, ws, t) {
        t
    } else {
        first_window_from(toks, ws, t + 1)
    }
}

/// What matching an exact phrase returns: the start of the first equal
/// window, or nothing.
pub open spec fn spec_exact_matches(toks: Seq<Seq<char>>, ws: Seq<Seq<char>>) -> Option<int> {
    if toks.len() == 0 || toks.len() > ws.len() {
        None
    } else {
        let t = first_window_from(toks, ws, 0);
        if t >= 0 {
            Some(t)
        } else {
            None
        }
    }
}

/// The flags an exact match raises: every index of the matched window.
pub open spec fn exact_flags(m: int, t: int) -> Seq<usize> {
    Seq::new(m as nat, |u: int| (t + u) as usize)
}

/// A matcher that requires the phrase verbatim (after normalization).
#[derive(Debug, PartialEq)]
pub struct ExactMatcher(pub Words);

impl View for ExactMatcher {
    type V = Seq<Seq<char>>;

    open spec fn view(&self) -> Seq<Seq<char>> {
        self.0@
    }
}

fn window_equal(toks: &Vec<&str>, words: &[&str], t: usize) -> (r: bool)
    requires
        1 <= toks@.len() <= words@.len(),
        t <= words@.len() - toks@.len(),
    ensures
        r == window_eq(toks.deep_view(), words.deep_view(), t as int),
{
    let m = toks.len();
    let nw = words.len();
    proof {
        assert(nw == words@.len());
    }
    let mut u: usize = 0;
    while u < m
        invariant
            u <= m,
            m == toks@.len(),
            nw == words@.len(),
            toks@.len() <= words@.len(),
            t <= words@.len() - toks@.len(),
            forall|x: int| 0 <= x < u ==> words.deep_view()[t + x] == toks.deep_view()[x],
        decreases m - u,
    {
        let a: &str = toks[u];
        let b: &str = words[t + u];
        proof {
            assert(a@ == toks.deep_view()[u as int]);
            assert(b@ == words.deep_view()[t + u]);
        }
        if !str_eq(a, b) {
            proof {
                assert(words.deep_view()[t + u] != toks.deep_view()[u as int]);
            }
            return false;
        }
        u += 1;
    }
    true
}

impl ExactMatcher {
    /// Builds the matcher from a literal phrase, normalizing it to tokens.
    pub fn new(words: &str) -> (r: ExactMatcher)
        ensures
            r@ == tokenize(clean_seq(words@)),
    {
        ExactMatcher(Words::new(words))
    }

    /// Matches the phrase against the observed tokens: the first exactly
    /// equal window wins with a full score and all its indices flagged.
    pub fn matches(&self, words: &[&str], debug: bool) -> (r: Option<DetectedItem>)
        ensures
            ({
                let sp = spec_exact_matches(self@, words.deep_view());
                match r {
                    Some(item) => sp is Some && item.score == SCALE && item.words@ == marks_of(
                        exact_flags(self@.len() as int, sp->0),
                    ) && item_keys_ok(item.words@, words@.len() as int),
                    None => sp is None,
                }
            }),
    {
        let _unused = debug;
        let ghost wv = words.deep_view();
        let toks = self.0.as_words();
        proof {
            assert(toks.deep_view() == self@);
            assert(wv.len() == words@.len());
        }
        let m = toks.len();
        let n = words.len();
        if m == 0 || m > n {
            return None;
        }
        let mut t: usize = 0;
        while t <= n - m
            invariant
                1 <= m <= n,
                t <= n - m + 1,
                m == self@.len(),
                n == wv.len(),
                n == words@.len(),
                wv == words.deep_view(),
                toks.deep_view() == self@,
                toks@.len() == m,
                first_window_from(self@, wv, 0) == first_window_from(self@, wv, t as int),
            decreases n - m - t + 1,
        {
            let all_eq = window_equal(&toks, words, t);
            if all_eq {
                proof {
                    assert(window_eq(self@, wv, t as int));
                    assert(first_window_from(self@, wv, t as int) == t);
                }
                let mut item = DetectedItem::new(SCALE);
                let ghost flags = exact_flags(m as int, t as int);
                let mut k: usize = 0;
                proof {
                    assert(item.words@ =~= marks_of(flags.subrange(0, 0)));
                }
                while k < m
                    invariant
                        k <= m,
                        t <= n - m,
                        m == self@.len(),
                        n == words@.len(),
                        item.score == SCALE,
                        flags == exact_flags(m as int, t as int),
                        item.words@ == marks_of(flags.subrange(0, k as int)),
                    decreases m - k,
                {
                    let ghost pre = item.words@;
                    item.mark_match(t + k);
                    proof {
                        if k > 0 {
                            assert(pre.last() == (flags[k - 1], DetectedWord { matched: true }));
                        }
                        assert(item.words@ =~= marks_of(flags.subrange(0, k + 1)));
                    }
                    k += 1;
                }
                proof {
                    assert(flags.subrange(0, m as int) =~= flags);
                }
                return Some(item);
            }
            proof {
                assert(!window_eq(self@, wv, t as int));
            }
            t += 1;
        }
        proof {
            assert(first_window_from(self@, wv, t as int) == -1);
        }
        None
    }
}

} // verus!
