//! The phrase matcher: finds one reference phrase inside an observed token
//! stream, tolerating character-level noise and unrelated surrounding words.

use vstd::prelude::*;

use crate::alignment::{lemma_nw_trace_valid, needleman_wunsch, nw_trace};
use crate::detected::{marks_of, item_keys_ok, DetectedItem, DetectedWord};
use crate::region::{alignment_wf, lemma_region_flags_sorted, region_flags, region_score, score};
use crate::similarity::{sim_scaled, string_similarity, SCALE, THRESHOLD};
use crate::strutil::str_eq;
use crate::words::{clean_seq, tokenize, Words};

verus! {

/// The scan a single-token phrase performs over the observed tokens: an
/// exact equality wins immediately with a full score; otherwise the first
/// index with the best similarity is kept, and accepted only if its
/// similarity strictly exceeds the threshold.
pub open spec fn single_result(
    tok: Seq<char>,
    ws: Seq<Seq<char>>,
    k: int,
    best: int,
    best_idx: int,
) -> Option<(int, int)>
    decreases ws.len() - k,
    when 0 <= k <= ws.len()
{
    if k >= ws.len() {
        if best > THRESHOLD {
            Some((best, best_idx))
        } else {
            None
        }
    } else if tok == ws[k] {
        Some((SCALE as int, k))
    } else {
        let s = sim_scaled(tok, ws[k]);
        if s > best {
            single_result(tok, ws, k + 1, s, k)
        } else {
            single_result(tok, ws, k + 1, best, best_idx)
        }
    }
}

/// What matching a phrase returns: the fixed-point score and the flagged
/// observed indices, or nothing when the score does not reach the
/// threshold.
pub open spec fn spec_phrase_matches(toks: Seq<Seq<char>>, ws: Seq<Seq<char>>) -> Option<
    (int, Seq<usize>),
> {
    if toks.len() == 1 {
        match single_result(toks[0], ws, 0, 0, 0) {
            Some(p) => Some((p.0, seq![p.1 as usize])),
            None => None,
        }
    } else {
        let al = nw_trace(toks, ws, toks.len() as int, ws.len() as int);
        let sc = region_score(toks, ws, al);
        if sc >= THRESHOLD {
            Some((sc, region_flags(al)))
        } else {
            None
        }
    }
}

/// A matcher that looks for one reference phrase by fuzzy alignment.
#[derive(Debug, PartialEq)]
pub struct PhraseMatcher(pub Words);

impl View for PhraseMatcher {
    type V = Seq<Seq<char>>;

    open spec fn view(&self) -> Seq<Seq<char>> {
        self.0@
    }
}

impl PhraseMatcher {
    /// Builds the matcher from a literal phrase, normalizing it to tokens.
    pub fn new(text: &str) -> (r: PhraseMatcher)
        ensures
            r@ == tokenize(clean_seq(text@)),
    {
        PhraseMatcher(Words::new(text))
    }

    /// Matches the phrase against the observed tokens.
    pub fn matches(&self, words: &[&str], debug: bool) -> (r: Option<DetectedItem>)
        ensures
            ({
                let sp = spec_phrase_matches(self@, words.deep_view());
                match r {
                    Some(item) => sp is Some && item.score as int == (sp->0).0 && item.words@
                        == marks_of((sp->0).1) && item.score <= SCALE && item_keys_ok(
                        item.words@,
                        words@.len() as int,
                    ),
                    None => sp is None,
                }
            }),
    {
        let ghost wv = words.deep_view();
        let toks = self.0.as_words();
        proof {
            assert(toks.deep_view() == self@);
            assert(wv.len() == words@.len());
        }
        if toks.len() == 1 {
            let tok: &str = toks[0];
            proof {
                assert(tok@ == self@[0]);
            }
            let n = words.len();
            let mut best: u64 = 0;
            let mut best_idx: usize = 0;
            let mut k: usize = 0;
            while k < n
                invariant
                    k <= n,
                    n == wv.len(),
                    wv == words.deep_view(),
                    n == words@.len(),
                    self@.len() == 1,
                    tok@ == self@[0],
                    best <= SCALE,
                    best > 0 ==> best_idx < n,
                    best == 0 ==> best_idx == 0,
                    single_result(tok@, wv, 0, 0, 0) == single_result(
                        tok@,
                        wv,
                        k as int,
                        best as int,
                        best_idx as int,
                    ),
                decreases n - k,
            {
                let w: &str = words[k];
                proof {
                    assert(w@ == wv[k as int]);
                }
                if str_eq(tok, w) {
                    let mut item = DetectedItem::new(SCALE);
                    item.mark_match(k);
                    proof {
                        assert(item.words@ =~= marks_of(seq![k]));
                    }
                    return Some(item);
                }
                let s = string_similarity(tok, w);
                if s > best {
                    best = s;
                    best_idx = k;
                }
                k += 1;
            }
            if best > THRESHOLD {
                let mut item = DetectedItem::new(best);
                item.mark_match(best_idx);
                proof {
                    assert(item.words@ =~= marks_of(seq![best_idx]));
                }
                Some(item)
            } else {
                None
            }
        } else {
            let m = toks.len();
            let n = words.len();
            let toks_slice: &[&str] = toks.as_slice();
            proof {
                assert(toks_slice.deep_view() =~= self@);
            }
            let al = needleman_wunsch(toks_slice, words);
            proof {
                lemma_nw_trace_valid(self@, wv, m as int, n as int);
                assert(alignment_wf(al@, m as int, n as int));
                lemma_region_flags_sorted(al@, m as int, n as int);
            }
            let (sc, flags) = score(&al, toks_slice, words, debug);
            proof {
                assert(sc as int == region_score(self@, wv, al@));
                assert(flags@ == region_flags(al@));
            }
            if sc < THRESHOLD {
                return None;
            }
            let mut item = DetectedItem::new(sc);
            let nf = flags.len();
            let mut k: usize = 0;
            proof {
                assert(item.words@ =~= marks_of(flags@.subrange(0, 0)));
            }
            while k < nf
                invariant
                    k <= nf,
                    nf == flags@.len(),
                    item.score == sc,
                    flags@ == region_flags(al@),
                    forall|p: int, q: int| 0 <= p < q < nf ==> flags@[p] < flags@[q],
                    forall|p: int| 0 <= p < nf ==> (#[trigger] flags@[p]) < wv.len(),
                    wv.len() == words@.len(),
                    item.words@ == marks_of(flags@.subrange(0, k as int)),
                decreases nf - k,
            {
                let ghost pre = item.words@;
                let f = flags[k];
                item.mark_match(f);
                proof {
                    if k > 0 {
                        assert(pre.last() == (flags@[k - 1], DetectedWord { matched: true }));
                        assert(pre.last().0 < f);
                    }
                    assert(item.words@ =~= marks_of(flags@.subrange(0, k + 1)));
                }
                k += 1;
            }
            proof {
                assert(flags@.subrange(0, nf as int) =~= flags@);
            }
            Some(item)
        }
    }
}

} // verus!
