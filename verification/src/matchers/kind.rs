//! The closed set of matcher variants and the recursive dispatch through a
//! matcher tree.

use vstd::prelude::*;

use crate::detected::{
    item_keys_ok, lemma_insert_all_keys, marks_of, spec_insert_all, DetectedItem, DetectedWord,
    IndexMap,
};
use crate::matchers::all::AllMatcher;
use crate::matchers::any::AnyMatcher;
use crate::matchers::exact::{exact_flags, spec_exact_matches, ExactMatcher};
use crate::matchers::ordered::OrderedMatcher;
use crate::matchers::phrase::{spec_phrase_matches, PhraseMatcher};
use crate::similarity::SCALE;

verus! {

/// A matcher: a leaf looking for a reference phrase, or a composite over
/// child matchers.  Built once from configuration; never mutated afterward.
#[derive(Debug, PartialEq)]
pub enum MatcherKind {
    Phrase(PhraseMatcher),
    Ordered(OrderedMatcher),
    All(AllMatcher),
    Any(AnyMatcher),
    Exact(ExactMatcher),
}

/// What any matcher invocation returns, as contracts speak of it: the
/// fixed-point score together with the flagged-word entries.
pub open spec fn spec_matches(m: MatcherKind, ws: Seq<Seq<char>>) -> Option<
    (int, Seq<(usize, DetectedWord)>),
>
    decreases m, 0int,
{
    match m {
        MatcherKind::Phrase(pm) => match spec_phrase_matches(pm@, ws) {
            Some(p) => Some((p.0, marks_of(p.1))),
            None => None,
        },
        MatcherKind::Exact(em) => match spec_exact_matches(em@, ws) {
            Some(t) => Some((SCALE as int, marks_of(exact_flags(em@.len() as int, t)))),
            None => None,
        },
        MatcherKind::Ordered(om) => spec_ordered_matches(om.0@, ws),
        MatcherKind::All(am) => spec_all_matches(am.0@, ws),
        MatcherKind::Any(ym) => spec_any_matches(ym.0@, ws),
    }
}

/// The ordered fold: child `k` is matched against the observed tokens from
/// `base` on; its flags are re-based by `base` and merged, and the next
/// child starts strictly after the furthest flagged token.
pub open spec fn spec_ordered_from(
    children: Seq<MatcherKind>,
    ws: Seq<Seq<char>>,
    k: int,
    base: int,
    ssum: int,
    marks: Seq<(usize, DetectedWord)>,
) -> Option<(int, Seq<(usize, DetectedWord)>)>
    decreases children, children.len() - k,
    when 0 <= k <= children.len() && 1 <= children.len() && 0 <= base
{
    if k >= children.len() {
        Some((ssum / children.len() as int, marks))
    } else {
        match spec_matches(children[k], ws.skip(base)) {
            None => None,
            Some(r) => {
                let newmarks = spec_insert_all(marks, r.1, base as usize);
                let newbase = if r.1.len() > 0 {
                    base + r.1.last().0 + 1
                } else {
                    base
                };
                spec_ordered_from(children, ws, k + 1, newbase, ssum + r.0, newmarks)
            },
        }
    }
}

/// What an ordered matcher returns; with no children it reports an empty
/// match with a zero score.
pub open spec fn spec_ordered_matches(children: Seq<MatcherKind>, ws: Seq<Seq<char>>) -> Option<
    (int, Seq<(usize, DetectedWord)>),
>
    decreases children, children.len() + 1,
{
    if children.len() == 0 {
        Some((0, Seq::empty()))
    } else {
        spec_ordered_from(children, ws, 0, 0, 0, Seq::empty())
    }
}

/// The all-of fold: every child is matched against the whole observed
/// sequence; scores accumulate and flags merge unshifted.
pub open spec fn spec_all_from(
    children: Seq<MatcherKind>,
    ws: Seq<Seq<char>>,
    k: int,
    ssum: int,
    marks: Seq<(usize, DetectedWord)>,
) -> Option<(int, Seq<(usize, DetectedWord)>)>
    decreases children, children.len() - k,
    when 0 <= k <= children.len() && 1 <= children.len()
{
    if k >= children.len() {
        Some((ssum / children.len() as int, marks))
    } else {
        match spec_matches(children[k], ws) {
            None => None,
            Some(r) => spec_all_from(children, ws, k + 1, ssum + r.0, spec_insert_all(marks, r.1, 0)),
        }
    }
}

/// What an all-of matcher returns; with no children it reports an empty
/// match with a zero score.
pub open spec fn spec_all_matches(children: Seq<MatcherKind>, ws: Seq<Seq<char>>) -> Option<
    (int, Seq<(usize, DetectedWord)>),
>
    decreases children, children.len() + 1,
{
    if children.len() == 0 {
        Some((0, Seq::empty()))
    } else {
        spec_all_from(children, ws, 0, 0, Seq::empty())
    }
}

/// The any-of fold: the first strictly best child result is kept.
pub open spec fn spec_any_from(
    children: Seq<MatcherKind>,
    ws: Seq<Seq<char>>,
    k: int,
    best: Option<(int, Seq<(usize, DetectedWord)>)>,
) -> Option<(int, Seq<(usize, DetectedWord)>)>
    decreases children, children.len() - k,
    when 0 <= k <= children.len()
{
    if k >= children.len() {
        best
    } else {
        match spec_matches(children[k], ws) {
            Some(r) => if best is None || (best->0).0 < r.0 {
                spec_any_from(children, ws, k + 1, Some(r))
            } else {
                spec_any_from(children, ws, k + 1, best)
            },
            None => spec_any_from(children, ws, k + 1, best),
        }
    }
}

/// What an any-of matcher returns.
pub open spec fn spec_any_matches(children: Seq<MatcherKind>, ws: Seq<Seq<char>>) -> Option<
    (int, Seq<(usize, DetectedWord)>),
>
    decreases children, children.len() + 1,
{
    spec_any_from(children, ws, 0, None)
}

/// A held result read as its model.
pub open spec fn opt_item_model(r: Option<DetectedItem>) -> Option<
    (int, Seq<(usize, DetectedWord)>),
> {
    match r {
        Some(item) => Some((item.score as int, item.words@)),
        None => None,
    }
}

/// Matches an ordered list of children; see `OrderedMatcher`.
#[verifier::rlimit(60)]
pub fn ordered_matches(children: &Vec<MatcherKind>, words: &[&str], debug: bool) -> (r: Option<
    DetectedItem,
>)
    ensures
        ({
            let sp = spec_ordered_matches(children@, words.deep_view());
            match r {
                Some(item) => sp is Some && item.score as int == (sp->0).0 && item.words@ == (
                sp->0).1 && item.score <= SCALE && item_keys_ok(item.words@, words@.len() as int),
                None => sp is None,
            }
        }),
    decreases *children, 0int,
{
    let ghost wv = words.deep_view();
    let n = words.len();
    let nc = children.len();
    if nc == 0 {
        let item = DetectedItem::new(0);
        return Some(item);
    }
    let mut acc: IndexMap<DetectedWord> = IndexMap::new();
    let mut ssum: u128 = 0;
    let mut base: usize = 0;
    let mut k: usize = 0;
    while k < nc
        invariant
            k <= nc,
            1 <= nc,
            nc == children@.len(),
            n == words@.len(),
            wv == words.deep_view(),
            wv.len() == n,
            base <= n,
            ssum as int <= k * (SCALE as int),
            item_keys_ok(acc@, base as int),
            spec_ordered_from(children@, wv, 0, 0, 0, Seq::empty()) == spec_ordered_from(
                children@,
                wv,
                k as int,
                base as int,
                ssum as int,
                acc@,
            ),
        decreases nc - k,
    {
        let child = &children[k];
        let suffix: &[&str] = &words[base..n];
        proof {
            assert(suffix.deep_view() =~= wv.skip(base as int));
            assert(decreases_to!(*children => children@[k as int]));
        }
        match child.matches(suffix, debug) {
            None => {
                return None;
            },
            Some(item) => {
                let ghost pre_acc = acc@;
                let ghost r1 = item.words@;
                proof {
                    assert(item_keys_ok(r1, (n - base) as int));
                }
                ssum = ssum + (item.score as u128);
                acc.insert_all_shifted(&item.words, base);
                let ghost newbase_spec: int = if r1.len() > 0 {
                    base + r1.last().0 + 1
                } else {
                    base as int
                };
                proof {
                    if r1.len() > 0 {
                        assert(r1.last().0 < n - base);
                    }
                    lemma_insert_all_keys(pre_acc, r1, base, newbase_spec);
                }
                match item.min_max_word_indexes() {
                    Some(p) => {
                        let mx = p.1;
                        proof {
                            assert(mx == r1.last().0);
                            assert(base + mx + 1 <= n);
                        }
                        base = base + mx + 1;
                    },
                    None => {
                        proof {
                            assert(r1.len() == 0);
                        }
                    },
                }
                proof {
                    assert(base as int == newbase_spec);
                    assert(ssum as int <= (k + 1) * (SCALE as int)) by (nonlinear_arith)
                        requires
                            ssum as int <= k * (SCALE as int) + SCALE,
                            0 <= k,
                    ;
                }
                k += 1;
            },
        }
    }
    let q: u128 = ssum / (nc as u128);
    proof {
        assert(q <= SCALE) by (nonlinear_arith)
            requires
                ssum as int <= (nc as int) * (SCALE as int),
                1 <= nc as int,
                q == ssum as int / nc as int,
        ;
        assert(item_keys_ok(acc@, n as int));
    }
    Some(DetectedItem { words: acc, score: q as u64 })
}

/// Matches all children against the whole observed sequence; see
/// `AllMatcher`.
#[verifier::rlimit(60)]
pub fn all_matches(children: &Vec<MatcherKind>, words: &[&str], debug: bool) -> (r: Option<
    DetectedItem,
>)
    ensures
        ({
            let sp = spec_all_matches(children@, words.deep_view());
            match r {
                Some(item) => sp is Some && item.score as int == (sp->0).0 && item.words@ == (
                sp->0).1 && item.score <= SCALE && item_keys_ok(item.words@, words@.len() as int),
                None => sp is None,
            }
        }),
    decreases *children, 0int,
{
    let ghost wv = words.deep_view();
    let n = words.len();
    let nc = children.len();
    if nc == 0 {
        let item = DetectedItem::new(0);
        return Some(item);
    }
    let mut acc: IndexMap<DetectedWord> = IndexMap::new();
    let mut ssum: u128 = 0;
    let mut k: usize = 0;
    while k < nc
        invariant
            k <= nc,
            1 <= nc,
            nc == children@.len(),
            n == words@.len(),
            wv == words.deep_view(),
            wv.len() == n,
            ssum as int <= k * (SCALE as int),
            item_keys_ok(acc@, n as int),
            spec_all_from(children@, wv, 0, 0, Seq::empty()) == spec_all_from(
                children@,
                wv,
                k as int,
                ssum as int,
                acc@,
            ),
        decreases nc - k,
    {
        let child = &children[k];
        proof {
            assert(decreases_to!(*children => children@[k as int]));
        }
        match child.matches(words, debug) {
            None => {
                return None;
            },
            Some(item) => {
                let ghost pre_acc = acc@;
                let ghost r1 = item.words@;
                ssum = ssum + (item.score as u128);
                acc.insert_all_shifted(&item.words, 0);
                proof {
                    assert(spec_insert_all(pre_acc, r1, 0) == acc@);
                    lemma_insert_all_keys(pre_acc, r1, 0, n as int);
                    assert(ssum as int <= (k + 1) * (SCALE as int)) by (nonlinear_arith)
                        requires
                            ssum as int <= k * (SCALE as int) + SCALE,
                            0 <= k,
                    ;
                }
                k += 1;
            },
        }
    }
    let q: u128 = ssum / (nc as u128);
    proof {
        assert(q <= SCALE) by (nonlinear_arith)
            requires
                ssum as int <= (nc as int) * (SCALE as int),
                1 <= nc as int,
                q == ssum as int / nc as int,
        ;
    }
    Some(DetectedItem { words: acc, score: q as u64 })
}

/// Matches the children and keeps the first strictly best result; see
/// `AnyMatcher`.
#[verifier::rlimit(60)]
pub fn any_matches(children: &Vec<MatcherKind>, words: &[&str], debug: bool) -> (r: Option<
    DetectedItem,
>)
    ensures
        ({
            let sp = spec_any_matches(children@, words.deep_view());
            match r {
                Some(item) => sp is Some && item.score as int == (sp->0).0 && item.words@ == (
                sp->0).1 && item.score <= SCALE && item_keys_ok(item.words@, words@.len() as int),
                None => sp is None,
            }
        }),
    decreases *children, 0int,
{
    let ghost wv = words.deep_view();
    let n = words.len();
    let nc = children.len();
    let mut best: Option<DetectedItem> = None;
    let mut k: usize = 0;
    while k < nc
        invariant
            k <= nc,
            nc == children@.len(),
            n == words@.len(),
            wv == words.deep_view(),
            spec_any_from(children@, wv, 0, None) == spec_any_from(
                children@,
                wv,
                k as int,
                opt_item_model(best),
            ),
            match best {
                Some(b) => b.score <= SCALE && item_keys_ok(b.words@, n as int),
                None => true,
            },
        decreases nc - k,
    {
        let child = &children[k];
        proof {
            assert(decreases_to!(*children => children@[k as int]));
        }
        match child.matches(words, debug) {
            Some(next) => {
                let replace = match &best {
                    None => true,
                    Some(b) => b.score < next.score,
                };
                if replace {
                    best = Some(next);
                }
            },
            None => {},
        }
        k += 1;
    }
    best
}

impl MatcherKind {
    /// Matches this matcher against the observed tokens.
    pub fn matches(&self, words: &[&str], debug: bool) -> (r: Option<DetectedItem>)
        ensures
            ({
                let sp = spec_matches(*self, words.deep_view());
                match r {
                    Some(item) => sp is Some && item.score as int == (sp->0).0 && item.words@ == (
                    sp->0).1 && item.score <= SCALE && item_keys_ok(
                        item.words@,
                        words@.len() as int,
                    ),
                    None => sp is None,
                }
            }),
        decreases *self, 1int,
    {
        match self {
            MatcherKind::Phrase(v) => v.matches(words, debug),
            MatcherKind::Exact(v) => v.matches(words, debug),
            MatcherKind::Ordered(v) => {
                proof {
                    assert(decreases_to!(*self => self->Ordered_0));
                    assert(decreases_to!(self->Ordered_0 => self->Ordered_0.0));
                }
                ordered_matches(&v.0, words, debug)
            },
            MatcherKind::All(v) => {
                proof {
                    assert(decreases_to!(*self => self->All_0));
                    assert(decreases_to!(self->All_0 => self->All_0.0));
                }
                all_matches(&v.0, words, debug)
            },
            MatcherKind::Any(v) => {
                proof {
                    assert(decreases_to!(*self => self->Any_0));
                    assert(decreases_to!(self->Any_0 => self->Any_0.0));
                }
                any_matches(&v.0, words, debug)
            },
        }
    }
}

} // verus!
