//! The region scorer: given an alignment, isolates the contiguous window
//! that most plausibly holds the real occurrence of the reference phrase and
//! computes the final confidence score.

use vstd::prelude::*;

use crate::alignment::{spec_is_aligned, spec_is_match, AlignmentKind};
use crate::similarity::{sim_scaled, string_similarity, SCALE};

verus! {

/// What the scorer assumes of an alignment: indices name real tokens, and
/// aligned pairs march strictly forward through both sequences.
pub open spec fn alignment_wf(al: Seq<AlignmentKind>, m: int, n: int) -> bool {
    &&& forall|k: int|
        0 <= k < al.len() ==> match #[trigger] al[k] {
            AlignmentKind::Matches { i, j, .. } => i < m && j < n,
            AlignmentKind::MissingI { j } => j < n,
            AlignmentKind::MissingJ { i } => i < m,
        }
    &&& forall|p: int, q: int|
        0 <= p < q < al.len() && spec_is_aligned(al[p]) && spec_is_aligned(al[q])
            ==> al[p]->Matches_i < al[q]->Matches_i && al[p]->Matches_j < al[q]->Matches_j
}

/// Index of the first confident event at or after `k`, or the length.
pub open spec fn first_conf_from(al: Seq<AlignmentKind>, k: int) -> int
    decreases al.len() - k,
    when 0 <= k <= al.len()
{
    if k >= al.len() {
        al.len() as int
    } else if spec_is_match(al[k]) {
        k
    } else {
        first_conf_from(al, k + 1)
    }
}

/// Index of the last confident event at or before `k`, or -1.
pub open spec fn last_conf_from(al: Seq<AlignmentKind>, k: int) -> int
    decreases k + 1,
    when k < al.len()
{
    if k < 0 {
        -1
    } else if spec_is_match(al[k]) {
        k
    } else {
        last_conf_from(al, k - 1)
    }
}

proof fn lemma_first_conf_at(al: Seq<AlignmentKind>, from: int, k: int)
    requires
        0 <= from <= k <= al.len(),
        forall|t: int| from <= t < k ==> !spec_is_match(al[t]),
        k < al.len() ==> spec_is_match(al[k]),
    ensures
        first_conf_from(al, from) == if k < al.len() {
            k
        } else {
            al.len() as int
        },
    decreases k - from,
{
    if from < k {
        lemma_first_conf_at(al, from + 1, k);
    }
}

proof fn lemma_last_conf_at(al: Seq<AlignmentKind>, from: int, k: int)
    requires
        -1 <= k <= from < al.len(),
        forall|t: int| k < t <= from ==> !spec_is_match(al[t]),
        k >= 0 ==> spec_is_match(al[k]),
    ensures
        last_conf_from(al, from) == k,
    decreases from - k,
{
    if k < from {
        lemma_last_conf_at(al, from - 1, k);
    }
}

/// Exclusive end of the maximal uniform run that starts at `from`: the
/// first later position whose alignedness differs.
pub open spec fn run_end(sel: Seq<AlignmentKind>, from: int) -> int
    decreases sel.len() - from,
    when 0 <= from < sel.len()
{
    if from + 1 >= sel.len() {
        sel.len() as int
    } else if spec_is_aligned(sel[from + 1]) != spec_is_aligned(sel[from]) {
        from + 1
    } else {
        run_end(sel, from + 1)
    }
}

pub proof fn lemma_run_end(sel: Seq<AlignmentKind>, from: int)
    requires
        0 <= from < sel.len(),
    ensures
        from < run_end(sel, from) <= sel.len(),
        forall|t: int|
            from <= t < run_end(sel, from) ==> spec_is_aligned(sel[t]) == spec_is_aligned(
                sel[from],
            ),
        run_end(sel, from) < sel.len() ==> spec_is_aligned(sel[run_end(sel, from)])
            != spec_is_aligned(sel[from]),
    decreases sel.len() - from,
{
    if from + 1 >= sel.len() {
    } else if spec_is_aligned(sel[from + 1]) != spec_is_aligned(sel[from]) {
    } else {
        lemma_run_end(sel, from + 1);
    }
}

proof fn lemma_run_end_at(sel: Seq<AlignmentKind>, from: int, e: int)
    requires
        0 <= from < e <= sel.len(),
        forall|t: int| from <= t < e ==> spec_is_aligned(sel[t]) == spec_is_aligned(sel[from]),
        e < sel.len() ==> spec_is_aligned(sel[e]) != spec_is_aligned(sel[from]),
    ensures
        run_end(sel, from) == e,
    decreases e - from,
{
    if from + 1 < e {
        lemma_run_end_at(sel, from + 1, e);
    }
}

/// The maximal runs of `sel` from position `from` on, each a half-open
/// interval of positions with uniform alignedness.
pub open spec fn runs_from(sel: Seq<AlignmentKind>, from: int) -> Seq<(int, int)>
    decreases sel.len() - from,
    when 0 <= from <= sel.len()
    via runs_from_dec
{
    if from >= sel.len() {
        Seq::empty()
    } else {
        seq![(from, run_end(sel, from))] + runs_from(sel, run_end(sel, from))
    }
}

#[via_fn]
proof fn runs_from_dec(sel: Seq<AlignmentKind>, from: int) {
    if from < sel.len() {
        lemma_run_end(sel, from);
    }
}

pub open spec fn run_len(r: (int, int)) -> int {
    r.1 - r.0
}

/// Whether a run is a run of aligned events.
pub open spec fn is_match_run(sel: Seq<AlignmentKind>, r: (int, int)) -> bool {
    0 <= r.0 < sel.len() && spec_is_aligned(sel[r.0])
}

/// The first longest match run, scanning left to right with a strictly
/// improving best.
pub open spec fn best_run_from(
    runs: Seq<(int, int)>,
    sel: Seq<AlignmentKind>,
    k: int,
    bi: int,
    bl: int,
) -> (int, int)
    decreases runs.len() - k,
    when 0 <= k <= runs.len()
{
    if k >= runs.len() {
        (bi, bl)
    } else if is_match_run(sel, runs[k]) && run_len(runs[k]) > bl {
        best_run_from(runs, sel, k + 1, k, run_len(runs[k]))
    } else {
        best_run_from(runs, sel, k + 1, bi, bl)
    }
}

/// Leftmost selected position after extending left from run `k` with the
/// given budget: a gap run is crossed only while the budget covers its
/// length, and each absorbed match run replenishes the budget.
pub open spec fn ext_lo(runs: Seq<(int, int)>, k: int, budget: int) -> int
    decreases k,
    when 0 <= k < runs.len()
{
    if k < 2 {
        runs[k].0
    } else {
        let gap = run_len(runs[k - 1]);
        if gap > budget {
            runs[k].0
        } else {
            ext_lo(runs, k - 2, budget - gap + run_len(runs[k - 2]))
        }
    }
}

/// Rightmost selected position (exclusive) after extending right.
pub open spec fn ext_hi(runs: Seq<(int, int)>, k: int, budget: int) -> int
    decreases runs.len() - k,
    when 0 <= k < runs.len()
{
    if k + 2 >= runs.len() {
        runs[k].1
    } else {
        let gap = run_len(runs[k + 1]);
        if gap > budget {
            runs[k].1
        } else {
            ext_hi(runs, k + 2, budget - gap + run_len(runs[k + 2]))
        }
    }
}

/// The sum of fixed-point similarities over the aligned pairs of the window
/// `[lo, hi)`; gaps contribute nothing.
pub open spec fn win_sum(
    a: Seq<Seq<char>>,
    b: Seq<Seq<char>>,
    sel: Seq<AlignmentKind>,
    lo: int,
    hi: int,
) -> int
    decreases hi - lo,
{
    if lo >= hi {
        0
    } else {
        win_sum(a, b, sel, lo, hi - 1) + (match sel[hi - 1] {
            AlignmentKind::Matches { i, j, .. } => sim_scaled(a[i as int], b[j as int]),
            _ => 0,
        })
    }
}

/// The observed indices of the aligned pairs of the window, left to right.
pub open spec fn win_flags(sel: Seq<AlignmentKind>, lo: int, hi: int) -> Seq<usize>
    decreases hi - lo,
{
    if lo >= hi {
        Seq::empty()
    } else {
        win_flags(sel, lo, hi - 1) + (match sel[hi - 1] {
            AlignmentKind::Matches { j, .. } => seq![j],
            _ => Seq::empty(),
        })
    }
}

/// The window the scorer settles on, in coordinates of `sel`.
pub open spec fn region_window(sel: Seq<AlignmentKind>) -> (int, int) {
    let runs = runs_from(sel, 0);
    let (anchor, alen) = best_run_from(runs, sel, 0, 0, 0);
    (ext_lo(runs, anchor, alen), ext_hi(runs, anchor, alen))
}

/// The alignment events between the first and last confident match.
pub open spec fn region_selected(al: Seq<AlignmentKind>) -> Seq<AlignmentKind> {
    let first = first_conf_from(al, 0);
    let last = last_conf_from(al, al.len() - 1);
    al.subrange(first, last + 1)
}

/// Whether the alignment holds any confident match at all.
pub open spec fn has_confident(al: Seq<AlignmentKind>) -> bool {
    first_conf_from(al, 0) < al.len()
}

/// The raw score of the alignment: the similarity sum over the final
/// window, or zero when no confident match exists.
pub open spec fn region_sum(a: Seq<Seq<char>>, b: Seq<Seq<char>>, al: Seq<AlignmentKind>) -> int {
    if !has_confident(al) {
        0
    } else {
        let sel = region_selected(al);
        let (lo, hi) = region_window(sel);
        win_sum(a, b, sel, lo, hi)
    }
}

/// The observed-token indices flagged by the scorer: those of every aligned
/// pair inside the final window.
pub open spec fn region_flags(al: Seq<AlignmentKind>) -> Seq<usize> {
    if !has_confident(al) {
        Seq::empty()
    } else {
        let sel = region_selected(al);
        let (lo, hi) = region_window(sel);
        win_flags(sel, lo, hi)
    }
}

/// The final score: the window's similarity sum divided by the reference
/// length, in fixed point.
pub open spec fn region_score(
    a: Seq<Seq<char>>,
    b: Seq<Seq<char>>,
    al: Seq<AlignmentKind>,
) -> int {
    if !has_confident(al) {
        0
    } else {
        region_sum(a, b, al) / a.len() as int
    }
}

/// A fixed-point similarity always lies between 0 and `SCALE`.
pub proof fn lemma_sim_scaled_range(a: Seq<char>, b: Seq<char>)
    ensures
        0 <= sim_scaled(a, b) <= SCALE,
{
    crate::similarity::lemma_sim_frac_bounds(a, b);
    let num = crate::similarity::sim_num(a, b);
    let den = crate::similarity::sim_den(a, b);
    assert((SCALE as int) * num / den >= 0) by (nonlinear_arith)
        requires
            0 <= num,
            1 <= den,
    ;
    assert((SCALE as int) * num / den <= SCALE) by (nonlinear_arith)
        requires
            0 <= num <= den,
            1 <= den,
    ;
}

/// The window sum is nonnegative and at most `SCALE` per window position.
pub proof fn lemma_win_sum_range(
    a: Seq<Seq<char>>,
    b: Seq<Seq<char>>,
    sel: Seq<AlignmentKind>,
    lo: int,
    hi: int,
)
    ensures
        0 <= win_sum(a, b, sel, lo, hi),
        lo <= hi ==> win_sum(a, b, sel, lo, hi) <= (hi - lo) * SCALE,
    decreases hi - lo,
{
    if lo >= hi {
    } else {
        lemma_win_sum_range(a, b, sel, lo, hi - 1);
        match sel[hi - 1] {
            AlignmentKind::Matches { i, j, .. } => {
                lemma_sim_scaled_range(a[i as int], b[j as int]);
            },
            _ => {},
        }
    }
}

/// When aligned pairs march strictly forward through the reference, the
/// window sum cannot exceed `SCALE` times the reference length.
pub proof fn lemma_win_sum_le_ref(
    a: Seq<Seq<char>>,
    b: Seq<Seq<char>>,
    sel: Seq<AlignmentKind>,
    lo: int,
    hi: int,
    m: int,
)
    requires
        0 <= m,
        forall|t: int|
            lo <= t < hi && spec_is_aligned(#[trigger] sel[t]) ==> sel[t]->Matches_i < m,
        forall|p: int, q: int|
            lo <= p < q < hi && spec_is_aligned(sel[p]) && spec_is_aligned(sel[q])
                ==> sel[p]->Matches_i < sel[q]->Matches_i,
    ensures
        win_sum(a, b, sel, lo, hi) <= m * SCALE,
    decreases hi - lo,
{
    if lo >= hi {
        assert(0 <= m * SCALE) by (nonlinear_arith)
            requires
                0 <= m,
        ;
    } else {
        match sel[hi - 1] {
            AlignmentKind::Matches { i, j, .. } => {
                let ix = i as int;
                lemma_win_sum_le_ref(a, b, sel, lo, hi - 1, ix);
                lemma_sim_scaled_range(a[ix], b[j as int]);
                assert(ix * SCALE + SCALE == (ix + 1) * SCALE) by (nonlinear_arith);
                assert((ix + 1) * SCALE <= m * SCALE) by (nonlinear_arith)
                    requires
                        ix + 1 <= m,
                ;
            },
            _ => {
                lemma_win_sum_le_ref(a, b, sel, lo, hi - 1, m);
            },
        }
    }
}

/// The flags of a window are strictly ascending, and all below the given
/// bound on observed indices.
pub proof fn lemma_win_flags_facts(sel: Seq<AlignmentKind>, lo: int, hi: int, n: int)
    requires
        forall|p: int, q: int|
            lo <= p < q < hi && spec_is_aligned(sel[p]) && spec_is_aligned(sel[q])
                ==> sel[p]->Matches_j < sel[q]->Matches_j,
        forall|t: int|
            lo <= t < hi && spec_is_aligned(#[trigger] sel[t]) ==> sel[t]->Matches_j < n,
    ensures
        forall|p: int, q: int|
            0 <= p < q < win_flags(sel, lo, hi).len() ==> win_flags(sel, lo, hi)[p] < win_flags(
                sel,
                lo,
                hi,
            )[q],
        forall|p: int|
            0 <= p < win_flags(sel, lo, hi).len() ==> (#[trigger] win_flags(sel, lo, hi)[p]) < n,
        win_flags(sel, lo, hi).len() <= (if hi >= lo {
            hi - lo
        } else {
            0
        }),
        forall|p: int|
            0 <= p < win_flags(sel, lo, hi).len() && hi - 1 >= lo && spec_is_aligned(sel[hi - 1])
                ==> (#[trigger] win_flags(sel, lo, hi)[p]) <= sel[hi - 1]->Matches_j,
    decreases hi - lo,
{
    if lo >= hi {
    } else {
        let f = win_flags(sel, lo, hi);
        let fp = win_flags(sel, lo, hi - 1);
        match sel[hi - 1] {
            AlignmentKind::Matches { j, .. } => {
                lemma_win_flags_facts(sel, lo, hi - 1, j as int);
                lemma_win_flags_facts(sel, lo, hi - 1, n);
                assert(f =~= fp.push(j));
                assert(forall|p: int| 0 <= p < fp.len() ==> f[p] == fp[p]);
                assert(f[f.len() - 1] == j);
            },
            _ => {
                lemma_win_flags_facts(sel, lo, hi - 1, n);
                assert(f =~= fp);
                if hi - 1 >= lo && spec_is_aligned(sel[hi - 1]) {
                    assert(false);
                }
            },
        }
    }
}

/// Each run of a partition lies inside the sequence, is nonempty, and the
/// runs proceed left to right.
pub proof fn lemma_runs_from_bounds(sel: Seq<AlignmentKind>, from: int)
    requires
        0 <= from <= sel.len(),
    ensures
        forall|t: int|
            0 <= t < runs_from(sel, from).len() ==> from <= (#[trigger] runs_from(sel, from)[t]).0
                < runs_from(sel, from)[t].1 <= sel.len(),
        forall|p: int, q: int|
            0 <= p < q < runs_from(sel, from).len() ==> (#[trigger] runs_from(sel, from)[p]).1 <= (
            #[trigger] runs_from(sel, from)[q]).0,
    decreases sel.len() - from,
{
    if from >= sel.len() {
    } else {
        lemma_run_end(sel, from);
        let e = run_end(sel, from);
        lemma_runs_from_bounds(sel, e);
        let rs = runs_from(sel, from);
        let rest = runs_from(sel, e);
        assert(forall|t: int| 0 <= t < rest.len() ==> rs[t + 1] == rest[t]);
    }
}

proof fn lemma_best_run_valid(runs: Seq<(int, int)>, sel: Seq<AlignmentKind>, k: int, bi: int, bl: int)
    requires
        0 <= k <= runs.len(),
        0 <= bi < runs.len() || (bi == 0 && bl == 0),
        0 <= bi,
    ensures
        ({
            let (ri, rl) = best_run_from(runs, sel, k, bi, bl);
            &&& (0 <= ri < runs.len() || (ri == bi && rl == bl))
            &&& 0 <= ri
        }),
    decreases runs.len() - k,
{
    if k >= runs.len() {
    } else if is_match_run(sel, runs[k]) && run_len(runs[k]) > bl {
        lemma_best_run_valid(runs, sel, k + 1, k, run_len(runs[k]));
    } else {
        lemma_best_run_valid(runs, sel, k + 1, bi, bl);
    }
}

proof fn lemma_ext_bounds(runs: Seq<(int, int)>, sel: Seq<AlignmentKind>, k: int, budget: int)
    requires
        0 <= k < runs.len(),
        forall|t: int| 0 <= t < runs.len() ==> 0 <= (#[trigger] runs[t]).0 < runs[t].1 <= sel.len(),
        forall|p: int, q: int|
            0 <= p < q < runs.len() ==> (#[trigger] runs[p]).1 <= (#[trigger] runs[q]).0,
    ensures
        0 <= ext_lo(runs, k, budget) <= runs[k].0,
        runs[k].1 <= ext_hi(runs, k, budget) <= sel.len(),
    decreases runs.len(),
{
    lemma_ext_lo_bounds(runs, sel, k, budget);
    lemma_ext_hi_bounds(runs, sel, k, budget);
}

proof fn lemma_ext_lo_bounds(runs: Seq<(int, int)>, sel: Seq<AlignmentKind>, k: int, budget: int)
    requires
        0 <= k < runs.len(),
        forall|t: int| 0 <= t < runs.len() ==> 0 <= (#[trigger] runs[t]).0 < runs[t].1 <= sel.len(),
        forall|p: int, q: int|
            0 <= p < q < runs.len() ==> (#[trigger] runs[p]).1 <= (#[trigger] runs[q]).0,
    ensures
        0 <= ext_lo(runs, k, budget) <= runs[k].0,
    decreases k,
{
    if k < 2 {
    } else {
        let gap = run_len(runs[k - 1]);
        if gap > budget {
        } else {
            lemma_ext_lo_bounds(runs, sel, k - 2, budget - gap + run_len(runs[k - 2]));
            assert(runs[k - 2].0 < runs[k].0);
        }
    }
}

proof fn lemma_first_conf_facts(al: Seq<AlignmentKind>, k: int)
    requires
        0 <= k <= al.len(),
    ensures
        k <= first_conf_from(al, k) <= al.len(),
        first_conf_from(al, k) < al.len() ==> spec_is_match(al[first_conf_from(al, k)]),
    decreases al.len() - k,
{
    if k < al.len() && !spec_is_match(al[k]) {
        lemma_first_conf_facts(al, k + 1);
    }
}

proof fn lemma_last_conf_facts(al: Seq<AlignmentKind>, k: int)
    requires
        -1 <= k < al.len(),
    ensures
        last_conf_from(al, k) <= k,
        last_conf_from(al, k) >= 0 ==> spec_is_match(al[last_conf_from(al, k)]),
        forall|t: int| 0 <= t <= k && spec_is_match(al[t]) ==> last_conf_from(al, k) >= t,
    decreases k + 1,
{
    if k >= 0 && !spec_is_match(al[k]) {
        lemma_last_conf_facts(al, k - 1);
    }
}

/// The flagged indices of a well-formed alignment are strictly ascending and
/// all name observed tokens.
pub proof fn lemma_region_flags_sorted(al: Seq<AlignmentKind>, m: int, n: int)
    requires
        alignment_wf(al, m, n),
    ensures
        forall|p: int, q: int|
            0 <= p < q < region_flags(al).len() ==> region_flags(al)[p] < region_flags(al)[q],
        forall|p: int| 0 <= p < region_flags(al).len() ==> (#[trigger] region_flags(al)[p]) < n,
    decreases al.len(),
{
    if !has_confident(al) {
    } else {
        let first = first_conf_from(al, 0);
        let last = last_conf_from(al, al.len() - 1);
        lemma_first_conf_facts(al, 0);
        lemma_last_conf_facts(al, al.len() - 1);
        assert(last >= first);
        let sel = region_selected(al);
        assert(forall|t: int| 0 <= t < sel.len() ==> sel[t] == al[first + t]);
        let runs = runs_from(sel, 0);
        lemma_runs_from_bounds(sel, 0);
        lemma_best_run_valid(runs, sel, 0, 0, 0);
        let (anchor, alen) = best_run_from(runs, sel, 0, 0, 0);
        assert(runs.len() > 0);
        lemma_ext_lo_bounds(runs, sel, anchor, alen);
        lemma_ext_hi_bounds(runs, sel, anchor, alen);
        let (lo, hi) = region_window(sel);
        assert forall|p: int, q: int|
            lo <= p < q < hi && spec_is_aligned(sel[p]) && spec_is_aligned(
                sel[q],
            ) implies sel[p]->Matches_j < sel[q]->Matches_j by {
            assert(sel[p] == al[first + p]);
            assert(sel[q] == al[first + q]);
        }
        assert forall|t: int|
            lo <= t < hi && spec_is_aligned(#[trigger] sel[t]) implies sel[t]->Matches_j < n by {
            assert(sel[t] == al[first + t]);
        }
        lemma_win_flags_facts(sel, lo, hi, n);
    }
}

/// Pairs of machine integers read as mathematical pairs.
pub open spec fn runs_ints(s: Seq<(usize, usize)>) -> Seq<(int, int)> {
    s.map_values(|p: (usize, usize)| (p.0 as int, p.1 as int))
}

fn aligned_exec(e: &AlignmentKind) -> (r: bool)
    ensures
        r == spec_is_aligned(*e),
{
    match e {
        AlignmentKind::Matches { .. } => true,
        _ => false,
    }
}

/// The positions of the first and last confident events, if any.
fn scan_confident(arr: &[AlignmentKind]) -> (r: Option<(usize, usize)>)
    ensures
        match r {
            Some(p) => p.0 == first_conf_from(arr@, 0) && p.1 == last_conf_from(
                arr@,
                arr@.len() - 1,
            ) && p.0 <= p.1 < arr@.len() && spec_is_match(arr@[p.0 as int]),
            None => !has_confident(arr@),
        },
{
    let n = arr.len();
    let mut found = false;
    let mut first: usize = 0;
    let mut last: usize = 0;
    let mut k: usize = 0;
    while k < n
        invariant
            k <= n,
            n == arr@.len(),
            !found ==> forall|t: int| 0 <= t < k ==> !spec_is_match(arr@[t]),
            !found ==> first == 0 && last == 0,
            found ==> first <= last < k && spec_is_match(arr@[first as int]) && spec_is_match(
                arr@[last as int],
            ),
            found ==> forall|t: int| 0 <= t < first ==> !spec_is_match(arr@[t]),
            found ==> forall|t: int| last < t < k ==> !spec_is_match(arr@[t]),
        decreases n - k,
    {
        if arr[k].is_match() {
            if !found {
                first = k;
                found = true;
            }
            last = k;
        }
        k += 1;
    }
    if found {
        proof {
            lemma_first_conf_at(arr@, 0, first as int);
            lemma_last_conf_at(arr@, n - 1, last as int);
        }
        Some((first, last))
    } else {
        proof {
            lemma_first_conf_at(arr@, 0, n as int);
        }
        None
    }
}

/// Partitions the selected events into maximal aligned and gap runs.
fn build_runs(sel: &[AlignmentKind]) -> (runs: Vec<(usize, usize)>)
    ensures
        runs_ints(runs@) == runs_from(sel@, 0),
        forall|t: int| 0 <= t < runs@.len() ==> (#[trigger] runs@[t]).0 < runs@[t].1 <= sel@.len(),
{
    let n = sel.len();
    let mut runs: Vec<(usize, usize)> = Vec::new();
    let mut from: usize = 0;
    proof {
        assert(runs_ints(runs@) =~= Seq::<(int, int)>::empty());
    }
    while from < n
        invariant
            from <= n,
            n == sel@.len(),
            runs_from(sel@, 0) =~= runs_ints(runs@) + runs_from(sel@, from as int),
            forall|t: int|
                0 <= t < runs@.len() ==> (#[trigger] runs@[t]).0 < runs@[t].1 <= sel@.len(),
        decreases n - from,
    {
        let ghost old_runs = runs@;
        let base_aligned = aligned_exec(&sel[from]);
        let mut e: usize = from + 1;
        while e < n && aligned_exec(&sel[e]) == base_aligned
            invariant
                from < e <= n,
                n == sel@.len(),
                base_aligned == spec_is_aligned(sel@[from as int]),
                forall|t: int|
                    from <= t < e ==> spec_is_aligned(sel@[t]) == spec_is_aligned(
                        sel@[from as int],
                    ),
            decreases n - e,
        {
            e += 1;
        }
        proof {
            lemma_run_end_at(sel@, from as int, e as int);
        }
        runs.push((from, e));
        proof {
            assert(runs_ints(runs@) =~= runs_ints(old_runs) + seq![(from as int, e as int)]);
            assert(runs_from(sel@, from as int) == seq![(from as int, e as int)] + runs_from(
                sel@,
                e as int,
            ));
            assert(runs_from(sel@, 0) =~= runs_ints(runs@) + runs_from(sel@, e as int));
        }
        from = e;
    }
    proof {
        assert(runs_from(sel@, n as int) =~= Seq::<(int, int)>::empty());
        assert(runs_ints(runs@) =~= runs_ints(runs@) + runs_from(sel@, n as int));
    }
    runs
}

/// Finds the anchor: the first longest aligned run.
fn find_anchor(runs: &Vec<(usize, usize)>, sel: &[AlignmentKind]) -> (r: (usize, usize))
    requires
        forall|t: int| 0 <= t < runs@.len() ==> (#[trigger] runs@[t]).0 < runs@[t].1 <= sel@.len(),
    ensures
        (r.0 as int, r.1 as int) == best_run_from(runs_ints(runs@), sel@, 0, 0, 0),
{
    let ghost ri = runs_ints(runs@);
    let n = runs.len();
    let mut bi: usize = 0;
    let mut bl: usize = 0;
    let mut k: usize = 0;
    while k < n
        invariant
            k <= n,
            n == runs@.len(),
            ri == runs_ints(runs@),
            forall|t: int|
                0 <= t < runs@.len() ==> (#[trigger] runs@[t]).0 < runs@[t].1 <= sel@.len(),
            best_run_from(ri, sel@, 0, 0, 0) == best_run_from(ri, sel@, k as int, bi as int, bl as int),
        decreases n - k,
    {
        let (s, e) = runs[k];
        proof {
            assert(ri[k as int] == (s as int, e as int));
        }
        if aligned_exec(&sel[s]) && e - s > bl {
            bi = k;
            bl = e - s;
        }
        k += 1;
    }
    (bi, bl)
}

/// Extends the anchor run outward in both directions under the budget rule.
fn extend_window(runs: &Vec<(usize, usize)>, sel: &[AlignmentKind], bi: usize, bl: usize) -> (r: (
    usize,
    usize,
))
    requires
        bi < runs@.len(),
        forall|t: int| 0 <= t < runs@.len() ==> (#[trigger] runs@[t]).0 < runs@[t].1 <= sel@.len(),
        forall|p: int, q: int|
            0 <= p < q < runs@.len() ==> (#[trigger] runs@[p]).1 <= (#[trigger] runs@[q]).0,
    ensures
        r.0 as int == ext_lo(runs_ints(runs@), bi as int, bl as int),
        r.1 as int == ext_hi(runs_ints(runs@), bi as int, bl as int),
        r.0 <= r.1 <= sel@.len(),
{
    let ghost ri = runs_ints(runs@);
    proof {
        assert(forall|t: int|
            0 <= t < ri.len() ==> 0 <= (#[trigger] ri[t]).0 < ri[t].1 <= sel@.len());
        assert(forall|p: int, q: int|
            0 <= p < q < ri.len() ==> (#[trigger] ri[p]).1 <= (#[trigger] ri[q]).0);
    }
    let mut k: usize = bi;
    let mut budget: u128 = bl as u128;
    while k >= 2
        invariant_except_break
            k <= bi < runs@.len(),
            ri == runs_ints(runs@),
            forall|t: int|
                0 <= t < runs@.len() ==> (#[trigger] runs@[t]).0 < runs@[t].1 <= sel@.len(),
            ext_lo(ri, bi as int, bl as int) == ext_lo(ri, k as int, budget as int),
            (bi - k) % 2 == 0,
            budget as int <= 0x1_0000_0000_0000_0000 * (1 + (bi - k) / 2),
        ensures
            k <= bi < runs@.len(),
            ri == runs_ints(runs@),
            ext_lo(ri, bi as int, bl as int) == ri[k as int].0,
        decreases k,
    {
        let gap: u128 = (runs[k - 1].1 - runs[k - 1].0) as u128;
        if gap > budget {
            proof {
                assert(ext_lo(ri, k as int, budget as int) == ri[k as int].0);
            }
            break ;
        }
        budget = budget - gap + ((runs[k - 2].1 - runs[k - 2].0) as u128);
        k -= 2;
    }
    let lo = runs[k].0;
    let mut k2: usize = bi;
    let mut budget2: u128 = bl as u128;
    while runs.len() - k2 > 2
        invariant_except_break
            bi <= k2 < runs@.len(),
            ri == runs_ints(runs@),
            forall|t: int|
                0 <= t < runs@.len() ==> (#[trigger] runs@[t]).0 < runs@[t].1 <= sel@.len(),
            ext_hi(ri, bi as int, bl as int) == ext_hi(ri, k2 as int, budget2 as int),
            (k2 - bi) % 2 == 0,
            budget2 as int <= 0x1_0000_0000_0000_0000 * (1 + (k2 - bi) / 2),
        ensures
            bi <= k2 < runs@.len(),
            ri == runs_ints(runs@),
            ext_hi(ri, bi as int, bl as int) == ri[k2 as int].1,
        decreases runs@.len() - k2,
    {
        let gap: u128 = (runs[k2 + 1].1 - runs[k2 + 1].0) as u128;
        if gap > budget2 {
            proof {
                assert(ext_hi(ri, k2 as int, budget2 as int) == ri[k2 as int].1);
            }
            break ;
        }
        budget2 = budget2 - gap + ((runs[k2 + 2].1 - runs[k2 + 2].0) as u128);
        k2 += 2;
    }
    let hi = runs[k2].1;
    proof {
        lemma_ext_lo_bounds(ri, sel@, bi as int, bl as int);
        lemma_ext_hi_bounds(ri, sel@, bi as int, bl as int);
    }
    (lo, hi)
}

/// Sums the similarities of the aligned pairs inside the window and gathers
/// their observed indices.
fn window_score(i: &[&str], j: &[&str], sel: &[AlignmentKind], lo: usize, hi: usize) -> (r: (
    u128,
    Vec<usize>,
))
    requires
        lo <= hi <= sel@.len(),
        forall|t: int|
            0 <= t < sel@.len() ==> match #[trigger] sel@[t] {
                AlignmentKind::Matches { i: ei, j: ej, .. } => ei < i@.len() && ej < j@.len(),
                _ => true,
            },
    ensures
        r.0 as int == win_sum(i.deep_view(), j.deep_view(), sel@, lo as int, hi as int),
        r.1@ == win_flags(sel@, lo as int, hi as int),
{
    let ghost iv = i.deep_view();
    let ghost jv = j.deep_view();
    let mut sum: u128 = 0;
    let mut flags: Vec<usize> = Vec::new();
    let mut t: usize = lo;
    while t < hi
        invariant
            lo <= t <= hi <= sel@.len(),
            iv == i.deep_view(),
            jv == j.deep_view(),
            iv.len() == i@.len(),
            jv.len() == j@.len(),
            forall|u: int|
                0 <= u < sel@.len() ==> match #[trigger] sel@[u] {
                    AlignmentKind::Matches { i: ei, j: ej, .. } => ei < i@.len() && ej < j@.len(),
                    _ => true,
                },
            sum as int == win_sum(iv, jv, sel@, lo as int, t as int),
            sum as int <= (t - lo) * (SCALE as int),
            flags@ == win_flags(sel@, lo as int, t as int),
        decreases hi - t,
    {
        match &sel[t] {
            AlignmentKind::Matches { i: ei, j: ej, .. } => {
                proof {
                    assert(iv[*ei as int] == i@[*ei as int]@);
                    assert(jv[*ej as int] == j@[*ej as int]@);
                }
                let s = string_similarity(i[*ei], j[*ej]);
                proof {
                    assert(sum as int + s as int <= (t + 1 - lo) * (SCALE as int));
                    assert((t + 1 - lo) * (SCALE as int) <= 0x1_0000_0000_0000_0000 * (
                    SCALE as int)) by (nonlinear_arith)
                        requires
                            0 <= t + 1 - lo <= 0x1_0000_0000_0000_0000,
                            0 < SCALE,
                    ;
                }
                sum = sum + (s as u128);
                flags.push(*ej);
            },
            _ => {},
        }
        t += 1;
    }
    (sum, flags)
}

/// Scores an alignment of the reference tokens `i` against the observed
/// tokens `j`: the fixed-point confidence of the best window, and the
/// observed indices flagged as part of the trigger.
pub fn score(arr: &Vec<AlignmentKind>, i: &[&str], j: &[&str], debug: bool) -> (r: (u64, Vec<
    usize,
>))
    requires
        alignment_wf(arr@, i@.len() as int, j@.len() as int),
    ensures
        r.0 as int == region_score(i.deep_view(), j.deep_view(), arr@),
        r.1@ == region_flags(arr@),
        r.0 <= SCALE,
{
    let _unused = debug;
    let ghost iv = i.deep_view();
    let ghost jv = j.deep_view();
    let n_total = arr.len();
    match scan_confident(arr.as_slice()) {
        None => (0, Vec::new()),
        Some((first, last)) => {
            proof {
                assert(last < n_total);
            }
            let sel: &[AlignmentKind] = &arr.as_slice()[first..last + 1];
            proof {
                assert(sel@ == arr@.subrange(first as int, last + 1));
                assert(sel@ == region_selected(arr@));
                assert(forall|t: int|
                    0 <= t < sel@.len() ==> sel@[t] == arr@[first + t]);
            }
            let runs = build_runs(sel);
            proof {
                assert(runs_from(sel@, 0).len() > 0);
                assert(runs@.len() > 0);
            }
            let (bi, bl) = find_anchor(&runs, sel);
            proof {
                lemma_best_run_valid(runs_ints(runs@), sel@, 0, 0, 0);
                lemma_runs_from_bounds(sel@, 0);
                assert forall|p: int, q: int|
                    0 <= p < q < runs@.len() implies (#[trigger] runs@[p]).1 <= (
                #[trigger] runs@[q]).0 by {
                    assert(runs_ints(runs@)[p] == (runs@[p].0 as int, runs@[p].1 as int));
                    assert(runs_ints(runs@)[q] == (runs@[q].0 as int, runs@[q].1 as int));
                }
            }
            let (lo, hi) = extend_window(&runs, sel, bi, bl);
            proof {
                assert((lo as int, hi as int) == region_window(sel@));
                assert forall|t: int|
                    0 <= t < sel@.len() implies match #[trigger] sel@[t] {
                    AlignmentKind::Matches { i: ei, j: ej, .. } => ei < i@.len() && ej < j@.len(),
                    _ => true,
                } by {
                    assert(sel@[t] == arr@[first + t]);
                }
            }
            let (sum, flags) = window_score(i, j, sel, lo, hi);
            proof {
                assert(spec_is_match(arr@[first as int]));
                assert(arr@[first as int] is Matches);
                assert(i@.len() >= 1);
                assert forall|p: int, q: int|
                    lo <= p < q < hi && spec_is_aligned(sel@[p]) && spec_is_aligned(
                        sel@[q],
                    ) implies sel@[p]->Matches_i < sel@[q]->Matches_i by {
                    assert(sel@[p] == arr@[first + p]);
                    assert(sel@[q] == arr@[first + q]);
                }
                assert forall|t: int|
                    lo <= t < hi && spec_is_aligned(#[trigger] sel@[t]) implies sel@[t]->Matches_i
                    < i@.len() by {
                    assert(sel@[t] == arr@[first + t]);
                }
                lemma_win_sum_le_ref(iv, jv, sel@, lo as int, hi as int, i@.len() as int);
                lemma_win_sum_range(iv, jv, sel@, lo as int, hi as int);
            }
            let total = i.len();
            let q: u128 = sum / (total as u128);
            proof {
                assert(q <= SCALE) by (nonlinear_arith)
                    requires
                        sum as int <= (total as int) * (SCALE as int),
                        1 <= total as int,
                        q == sum as int / total as int,
                ;
            }
            ((q as u64), flags)
        },
    }
}

proof fn lemma_ext_hi_bounds(runs: Seq<(int, int)>, sel: Seq<AlignmentKind>, k: int, budget: int)
    requires
        0 <= k < runs.len(),
        forall|t: int| 0 <= t < runs.len() ==> 0 <= (#[trigger] runs[t]).0 < runs[t].1 <= sel.len(),
        forall|p: int, q: int|
            0 <= p < q < runs.len() ==> (#[trigger] runs[p]).1 <= (#[trigger] runs[q]).0,
    ensures
        runs[k].1 <= ext_hi(runs, k, budget) <= sel.len(),
    decreases runs.len() - k,
{
    if k + 2 >= runs.len() {
    } else {
        let gap = run_len(runs[k + 1]);
        if gap > budget {
        } else {
            lemma_ext_hi_bounds(runs, sel, k + 2, budget - gap + run_len(runs[k + 2]));
            assert(runs[k].1 <= runs[k + 2].1);
        }
    }
}

} // verus!
