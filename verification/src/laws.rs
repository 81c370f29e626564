//! The library's stated laws, proved once and for all inputs.

use vstd::prelude::*;

use crate::analysis::Detection;
use crate::detected::DetectedWord;
use crate::matchers::kind::{
    spec_all_from, spec_all_matches, spec_any_from, spec_any_matches, spec_matches, MatcherKind,
};
use crate::similarity::{
    lemma_edit_dist_refl, lemma_edit_dist_sym, lemma_sim_frac_bounds, sim_den, sim_scaled, SCALE,
};

verus! {

/// Similarity is reflexive: every token compared with itself scores exactly
/// one (the full fixed-point scale).
pub proof fn lemma_similarity_reflexive(a: Seq<char>)
    ensures
        sim_scaled(a, a) == SCALE,
{
    lemma_edit_dist_refl(a);
    lemma_sim_frac_bounds(a, a);
    let den = sim_den(a, a);
    assert((SCALE as int) * den / den == SCALE) by (nonlinear_arith)
        requires
            1 <= den,
    ;
}

/// Similarity is symmetric: the order of the two tokens never matters.
pub proof fn lemma_similarity_symmetric(a: Seq<char>, b: Seq<char>)
    ensures
        sim_scaled(a, b) == sim_scaled(b, a),
{
    lemma_edit_dist_sym(a, b);
}

proof fn lemma_all_from_none(
    children: Seq<MatcherKind>,
    ws: Seq<Seq<char>>,
    j: int,
    k: int,
    ssum: int,
    marks: Seq<(usize, DetectedWord)>,
)
    requires
        0 <= j <= k < children.len(),
        spec_matches(children[k], ws) is None,
    ensures
        spec_all_from(children, ws, j, ssum, marks) is None,
    decreases k - j,
{
    if j < k {
        match spec_matches(children[j], ws) {
            Some(r) => {
                lemma_all_from_none(
                    children,
                    ws,
                    j + 1,
                    k,
                    ssum + r.0,
                    crate::detected::spec_insert_all(marks, r.1, 0),
                );
            },
            None => {},
        }
    }
}

/// An all-of matcher requires every child to match: if any one child fails
/// on the observed tokens, the whole matcher reports no match, regardless
/// of the other children's scores.
pub proof fn lemma_all_requires_every_child(
    children: Seq<MatcherKind>,
    ws: Seq<Seq<char>>,
    k: int,
)
    requires
        0 <= k < children.len(),
        spec_matches(children[k], ws) is None,
    ensures
        spec_all_matches(children, ws) is None,
{
    lemma_all_from_none(children, ws, 0, k, 0, Seq::empty());
}

proof fn lemma_any_from_facts(
    children: Seq<MatcherKind>,
    ws: Seq<Seq<char>>,
    k: int,
    best: Option<(int, Seq<(usize, DetectedWord)>)>,
)
    requires
        0 <= k <= children.len(),
    ensures
        ({
            let r = spec_any_from(children, ws, k, best);
            &&& (r is None ==> best is None && forall|t: int|
                k <= t < children.len() ==> spec_matches(#[trigger] children[t], ws) is None)
            &&& (r is Some ==> (best is Some && r == best) || exists|t: int|
                k <= t < children.len() && spec_matches(#[trigger] children[t], ws) == Some(r->0))
            &&& (best is Some ==> r is Some && (r->0).0 >= (best->0).0)
            &&& forall|t: int|
                k <= t < children.len() && spec_matches(#[trigger] children[t], ws) is Some ==> (
                r is Some && (r->0).0 >= (spec_matches(children[t], ws)->0).0)
        }),
    decreases children.len() - k,
{
    if k < children.len() {
        match spec_matches(children[k], ws) {
            Some(r) => {
                if best is None || (best->0).0 < r.0 {
                    lemma_any_from_facts(children, ws, k + 1, Some(r));
                } else {
                    lemma_any_from_facts(children, ws, k + 1, best);
                }
            },
            None => {
                lemma_any_from_facts(children, ws, k + 1, best);
            },
        }
    }
}

/// An any-of matcher selects the maximum: when it matches, its result is
/// one of the children's results, it scores at least as high as every
/// matching child, and it fails only when every child fails.
pub proof fn lemma_any_selects_maximum(children: Seq<MatcherKind>, ws: Seq<Seq<char>>)
    ensures
        ({
            let r = spec_any_matches(children, ws);
            &&& (r is None <==> forall|t: int|
                0 <= t < children.len() ==> spec_matches(#[trigger] children[t], ws) is None)
            &&& (r is Some ==> exists|t: int|
                0 <= t < children.len() && spec_matches(#[trigger] children[t], ws) == Some(r->0))
            &&& forall|t: int|
                0 <= t < children.len() && spec_matches(#[trigger] children[t], ws) is Some ==> (
                r is Some && (r->0).0 >= (spec_matches(children[t], ws)->0).0)
        }),
{
    lemma_any_from_facts(children, ws, 0, None);
}

/// Matching is deterministic: for one matcher and one observed sequence
/// there is exactly one result that `matches` may report, so two calls with
/// identical inputs yield identical detected items.
pub proof fn lemma_matches_deterministic(
    m: MatcherKind,
    ws: Seq<Seq<char>>,
    r1: Option<(int, Seq<(usize, DetectedWord)>)>,
    r2: Option<(int, Seq<(usize, DetectedWord)>)>,
)
    requires
        r1 == spec_matches(m, ws),
        r2 == spec_matches(m, ws),
    ensures
        r1 == r2,
{
}

/// A detection holding no image, title or body item is indistinguishable
/// from nothing detected: it is discarded and its best score is zero.
pub proof fn lemma_empty_detection_discarded(d: Detection)
    requires
        d.images@.len() == 0,
        d.title is None,
        d.body is None,
    ensures
        !d.spec_has_items(),
        d.spec_best_score() == 0,
{
}

} // verus!
