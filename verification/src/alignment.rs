//! Global alignment of a reference token sequence against an observed one,
//! by the classic score-matrix recurrence with a backtrace.

use vstd::prelude::*;

use crate::similarity::{compat, lemma_compat_range, match_or_mismatch, INDEL};

verus! {

/// One event of an alignment: a token pair aligned with an integer reward,
/// a reference token with no counterpart, or an observed token with none.
#[derive(Clone, Copy, Debug, PartialEq, Eq, Structural)]
pub enum AlignmentKind {
    Matches { i: usize, j: usize, ratio: i64 },
    MissingI { j: usize },
    MissingJ { i: usize },
}

/// A confident event: an aligned pair whose reward is at least 4, that is,
/// whose token similarity is strictly above the threshold.
pub open spec fn spec_is_match(e: AlignmentKind) -> bool {
    match e {
        AlignmentKind::Matches { ratio, .. } => ratio >= 4,
        _ => false,
    }
}

/// An aligned pair of any confidence.
pub open spec fn spec_is_aligned(e: AlignmentKind) -> bool {
    e is Matches
}

impl AlignmentKind {
    /// Whether this event is a confident match.
    pub fn is_match(&self) -> (r: bool)
        ensures
            r == spec_is_match(*self),
    {
        match self {
            AlignmentKind::Matches { ratio, .. } => *ratio >= 4,
            _ => false,
        }
    }

    /// The reference token this event consumes, if any.
    pub fn get_i<'a>(&self, text: &[&'a str]) -> (r: Option<&'a str>)
        requires
            match *self {
                AlignmentKind::Matches { i, .. } => i < text@.len(),
                AlignmentKind::MissingJ { i } => i < text@.len(),
                AlignmentKind::MissingI { .. } => true,
            },
        ensures
            match *self {
                AlignmentKind::Matches { i, .. } => r == Some(text@[i as int]),
                AlignmentKind::MissingJ { i } => r == Some(text@[i as int]),
                AlignmentKind::MissingI { .. } => r is None,
            },
    {
        match self {
            AlignmentKind::Matches { i, .. } => Some(text[*i]),
            AlignmentKind::MissingI { .. } => None,
            AlignmentKind::MissingJ { i } => Some(text[*i]),
        }
    }

    /// The observed token this event consumes, if any.
    pub fn get_j<'b>(&self, text: &[&'b str]) -> (r: Option<&'b str>)
        requires
            match *self {
                AlignmentKind::Matches { j, .. } => j < text@.len(),
                AlignmentKind::MissingI { j } => j < text@.len(),
                AlignmentKind::MissingJ { .. } => true,
            },
        ensures
            match *self {
                AlignmentKind::Matches { j, .. } => r == Some(text@[j as int]),
                AlignmentKind::MissingI { j } => r == Some(text@[j as int]),
                AlignmentKind::MissingJ { .. } => r is None,
            },
    {
        match self {
            AlignmentKind::Matches { j, .. } => Some(text[*j]),
            AlignmentKind::MissingI { j } => Some(text[*j]),
            AlignmentKind::MissingJ { .. } => None,
        }
    }
}

pub open spec fn max3i(a: int, b: int, c: int) -> int {
    if a >= b && a >= c {
        a
    } else if b >= c {
        b
    } else {
        c
    }
}

/// The alignment score of the prefixes of lengths `i` (reference) and `j`
/// (observed): gaps cost `INDEL`, aligning costs the pair's `compat` reward.
pub open spec fn nw_cell(a: Seq<Seq<char>>, b: Seq<Seq<char>>, i: int, j: int) -> int
    decreases i + j,
    when i >= 0 && j >= 0
{
    if i <= 0 && j <= 0 {
        0
    } else if i <= 0 {
        nw_cell(a, b, 0, j - 1) + INDEL
    } else if j <= 0 {
        nw_cell(a, b, i - 1, 0) + INDEL
    } else {
        let diag = nw_cell(a, b, i - 1, j - 1) + compat(a[i - 1], b[j - 1]);
        let side = nw_cell(a, b, i - 1, j) + INDEL;
        let top = nw_cell(a, b, i, j - 1) + INDEL;
        max3i(top, side, diag)
    }
}

proof fn lemma_nw_cell_border(a: Seq<Seq<char>>, b: Seq<Seq<char>>, i: int, j: int)
    requires
        i >= 0,
        j >= 0,
    ensures
        nw_cell(a, b, i, 0) == i * INDEL,
        nw_cell(a, b, 0, j) == j * INDEL,
    decreases i + j,
{
    if i > 0 {
        lemma_nw_cell_border(a, b, i - 1, j);
        assert(i * INDEL == (i - 1) * INDEL + INDEL) by (nonlinear_arith);
    }
    if j > 0 {
        lemma_nw_cell_border(a, b, i, j - 1);
        assert(j * INDEL == (j - 1) * INDEL + INDEL) by (nonlinear_arith);
    }
}

proof fn lemma_nw_cell_bound(a: Seq<Seq<char>>, b: Seq<Seq<char>>, i: int, j: int)
    requires
        0 <= i <= a.len(),
        0 <= j <= b.len(),
    ensures
        -5 * (i + j) <= nw_cell(a, b, i, j) <= 5 * (i + j),
    decreases i + j,
{
    if i <= 0 && j <= 0 {
    } else if i <= 0 {
        lemma_nw_cell_bound(a, b, 0, j - 1);
    } else if j <= 0 {
        lemma_nw_cell_bound(a, b, i - 1, 0);
    } else {
        lemma_nw_cell_bound(a, b, i - 1, j - 1);
        lemma_nw_cell_bound(a, b, i - 1, j);
        lemma_nw_cell_bound(a, b, i, j - 1);
        lemma_compat_range(a[i - 1], b[j - 1]);
    }
}

/// The backtrace through the score matrix, read left to right: the diagonal
/// is preferred when it reproduces the cell's value, then consuming a
/// reference token, then consuming an observed token.
pub open spec fn nw_trace(a: Seq<Seq<char>>, b: Seq<Seq<char>>, i: int, j: int) -> Seq<
    AlignmentKind,
>
    decreases i + j,
    when i >= 0 && j >= 0
{
    if i <= 0 && j <= 0 {
        Seq::empty()
    } else if i > 0 && j > 0 && nw_cell(a, b, i, j) == nw_cell(a, b, i - 1, j - 1) + compat(
        a[i - 1],
        b[j - 1],
    ) {
        nw_trace(a, b, i - 1, j - 1).push(
            AlignmentKind::Matches {
                i: (i - 1) as usize,
                j: (j - 1) as usize,
                ratio: compat(a[i - 1], b[j - 1]) as i64,
            },
        )
    } else if i > 0 && nw_cell(a, b, i, j) == nw_cell(a, b, i - 1, j) + INDEL {
        nw_trace(a, b, i - 1, j).push(AlignmentKind::MissingJ { i: (i - 1) as usize })
    } else if j > 0 {
        nw_trace(a, b, i, j - 1).push(AlignmentKind::MissingI { j: (j - 1) as usize })
    } else {
        nw_trace(a, b, i - 1, j).push(AlignmentKind::MissingJ { i: (i - 1) as usize })
    }
}

/// Every event of the backtrace names valid token indices, carries the
/// pair's true reward, and observed indices grow strictly left to right.
pub proof fn lemma_nw_trace_valid(a: Seq<Seq<char>>, b: Seq<Seq<char>>, i: int, j: int)
    requires
        0 <= i <= a.len(),
        0 <= j <= b.len(),
        i <= usize::MAX,
        j <= usize::MAX,
    ensures
        forall|k: int|
            0 <= k < nw_trace(a, b, i, j).len() ==> match #[trigger] nw_trace(a, b, i, j)[k] {
                AlignmentKind::Matches { i: ei, j: ej, ratio } => ei < i && ej < j && ratio
                    == compat(a[ei as int], b[ej as int]),
                AlignmentKind::MissingI { j: ej } => ej < j,
                AlignmentKind::MissingJ { i: ei } => ei < i,
            },
        forall|p: int, q: int|
            0 <= p < q < nw_trace(a, b, i, j).len() && spec_is_aligned(nw_trace(a, b, i, j)[p])
                && spec_is_aligned(nw_trace(a, b, i, j)[q]) ==> nw_trace(a, b, i, j)[p]->Matches_j
                < nw_trace(a, b, i, j)[q]->Matches_j && nw_trace(a, b, i, j)[p]->Matches_i
                < nw_trace(a, b, i, j)[q]->Matches_i,
    decreases i + j,
{
    let t = nw_trace(a, b, i, j);
    if i <= 0 && j <= 0 {
    } else {
        let (sub, ev): (Seq<AlignmentKind>, AlignmentKind) = if i > 0 && j > 0 && nw_cell(
            a,
            b,
            i,
            j,
        ) == nw_cell(a, b, i - 1, j - 1) + compat(a[i - 1], b[j - 1]) {
            lemma_nw_trace_valid(a, b, i - 1, j - 1);
            lemma_compat_range(a[i - 1], b[j - 1]);
            (
                nw_trace(a, b, i - 1, j - 1),
                AlignmentKind::Matches {
                    i: (i - 1) as usize,
                    j: (j - 1) as usize,
                    ratio: compat(a[i - 1], b[j - 1]) as i64,
                },
            )
        } else if i > 0 && nw_cell(a, b, i, j) == nw_cell(a, b, i - 1, j) + INDEL {
            lemma_nw_trace_valid(a, b, i - 1, j);
            (nw_trace(a, b, i - 1, j), AlignmentKind::MissingJ { i: (i - 1) as usize })
        } else if j > 0 {
            lemma_nw_trace_valid(a, b, i, j - 1);
            (nw_trace(a, b, i, j - 1), AlignmentKind::MissingI { j: (j - 1) as usize })
        } else {
            lemma_nw_trace_valid(a, b, i - 1, j);
            (nw_trace(a, b, i - 1, j), AlignmentKind::MissingJ { i: (i - 1) as usize })
        };
        assert(t == sub.push(ev));
        assert(t.last() == ev && t.len() == sub.len() + 1);
        assert(forall|k: int| 0 <= k < sub.len() ==> t[k] == sub[k]);
        assert forall|k: int|
            0 <= k < t.len() implies match #[trigger] t[k] {
            AlignmentKind::Matches { i: ei, j: ej, ratio } => ei < i && ej < j && ratio == compat(
                a[ei as int],
                b[ej as int],
            ),
            AlignmentKind::MissingI { j: ej } => ej < j,
            AlignmentKind::MissingJ { i: ei } => ei < i,
        } by {
            if k < sub.len() {
                assert(t[k] == sub[k]);
            } else {
                assert(t[k] == t.last());
            }
        }
        assert forall|p: int, q: int|
            0 <= p < q < t.len() && spec_is_aligned(t[p]) && spec_is_aligned(
                t[q],
            ) implies t[p]->Matches_j < t[q]->Matches_j && t[p]->Matches_i
            < t[q]->Matches_i by {
            if q < sub.len() {
                assert(t[p] == sub[p] && t[q] == sub[q]);
            } else {
                assert(t[q] == t.last());
                assert(t[p] == sub[p]);
            }
        }
    }
}

spec fn mat_wf(mat: Seq<Vec<i128>>, a: Seq<Seq<char>>, b: Seq<Seq<char>>) -> bool {
    &&& mat.len() == a.len()
    &&& forall|r: int| 0 <= r < a.len() ==> (#[trigger] mat[r])@.len() == b.len()
    &&& forall|r: int, c: int|
        0 <= r < a.len() && 0 <= c < b.len() ==> (#[trigger] mat[r]@[c]) == nw_cell(
            a,
            b,
            r + 1,
            c + 1,
        )
}

/// Reads a matrix cell, with the zero row and column computed on demand.
fn cell_get(
    mat: &Vec<Vec<i128>>,
    Ghost(a): Ghost<Seq<Seq<char>>>,
    Ghost(b): Ghost<Seq<Seq<char>>>,
    i: usize,
    j: usize,
) -> (r: i128)
    requires
        mat_wf(mat@, a, b),
        i <= a.len(),
        j <= b.len(),
    ensures
        r == nw_cell(a, b, i as int, j as int),
{
    proof {
        lemma_nw_cell_border(a, b, i as int, j as int);
    }
    if i == 0 && j == 0 {
        0
    } else if i == 0 {
        (j as i128) * (INDEL as i128)
    } else if j == 0 {
        (i as i128) * (INDEL as i128)
    } else {
        mat[i - 1][j - 1]
    }
}

#[verifier::rlimit(60)]
fn fill_matrix(a: &[&str], b: &[&str]) -> (mat: Vec<Vec<i128>>)
    ensures
        mat_wf(mat@, a.deep_view(), b.deep_view()),
{
    let ghost av = a.deep_view();
    let ghost bv = b.deep_view();
    let m = a.len();
    let n = b.len();
    proof {
        assert(av.len() == m && bv.len() == n);
    }
    let mut mat: Vec<Vec<i128>> = Vec::new();
    let mut ii: usize = 0;
    while ii < m
        invariant
            ii <= m,
            m == av.len(),
            n == bv.len(),
            av == a.deep_view(),
            bv == b.deep_view(),
            m == a@.len(),
            n == b@.len(),
            mat@.len() == ii,
            forall|r: int| 0 <= r < ii ==> (#[trigger] mat@[r])@.len() == n,
            forall|r: int, c: int|
                0 <= r < ii && 0 <= c < n ==> (#[trigger] mat@[r]@[c]) == nw_cell(
                    av,
                    bv,
                    r + 1,
                    c + 1,
                ),
        decreases m - ii,
    {
        let i = ii + 1;
        let mut row: Vec<i128> = Vec::new();
        let mut jj: usize = 0;
        while jj < n
            invariant
                ii < m,
                i == ii + 1,
                jj <= n,
                m == av.len(),
                n == bv.len(),
                av == a.deep_view(),
                bv == b.deep_view(),
                m == a@.len(),
                n == b@.len(),
                mat@.len() == ii,
                forall|r: int| 0 <= r < ii ==> (#[trigger] mat@[r])@.len() == n,
                forall|r: int, c: int|
                    0 <= r < ii && 0 <= c < n ==> (#[trigger] mat@[r]@[c]) == nw_cell(
                        av,
                        bv,
                        r + 1,
                        c + 1,
                    ),
                row@.len() == jj,
                forall|c: int|
                    0 <= c < jj ==> (#[trigger] row@[c]) == nw_cell(av, bv, i as int, c + 1),
            decreases n - jj,
        {
            let j = jj + 1;
            proof {
                lemma_nw_cell_border(av, bv, i as int, j as int);
                lemma_nw_cell_bound(av, bv, i - 1, j - 1);
                lemma_nw_cell_bound(av, bv, i - 1, j as int);
                lemma_nw_cell_bound(av, bv, i as int, j - 1);
                assert(av[ii as int] == a@[ii as int]@);
                assert(bv[jj as int] == b@[jj as int]@);
            }
            let ddiag: i128 = if ii >= 1 {
                if jj >= 1 {
                    mat[ii - 1][jj - 1]
                } else {
                    (ii as i128) * (INDEL as i128)
                }
            } else {
                (jj as i128) * (INDEL as i128)
            };
            proof {
                lemma_nw_cell_border(av, bv, i - 1, j - 1);
                assert(ddiag == nw_cell(av, bv, i - 1, j - 1));
            }
            let dside: i128 = if ii >= 1 {
                mat[ii - 1][jj]
            } else {
                (j as i128) * (INDEL as i128)
            };
            proof {
                lemma_nw_cell_border(av, bv, i - 1, j as int);
                assert(dside == nw_cell(av, bv, i - 1, j as int));
            }
            let dtop: i128 = if jj >= 1 {
                row[jj - 1]
            } else {
                (i as i128) * (INDEL as i128)
            };
            proof {
                assert(dtop == nw_cell(av, bv, i as int, j - 1));
            }
            let reward = match_or_mismatch(a[ii], b[jj]);
            let diag: i128 = ddiag + (reward as i128);
            let side: i128 = dside + (INDEL as i128);
            let top: i128 = dtop + (INDEL as i128);
            let val: i128 = if top >= side && top >= diag {
                top
            } else if side >= diag {
                side
            } else {
                diag
            };
            proof {
                assert(val == nw_cell(av, bv, i as int, j as int));
            }
            row.push(val);
            jj += 1;
        }
        mat.push(row);
        ii += 1;
    }
    mat
}

fn reverse_alignment(v: Vec<AlignmentKind>) -> (r: Vec<AlignmentKind>)
    ensures
        r@ == v@.reverse(),
{
    let n = v.len();
    let mut r: Vec<AlignmentKind> = Vec::new();
    let mut k: usize = 0;
    while k < n
        invariant
            k <= n,
            n == v@.len(),
            r@.len() == k,
            forall|t: int| 0 <= t < k ==> r@[t] == v@[n - 1 - t],
        decreases n - k,
    {
        r.push(v[n - 1 - k]);
        k += 1;
    }
    proof {
        assert(r@ =~= v@.reverse());
    }
    r
}

/// Aligns the reference tokens `a` against the observed tokens `b` and
/// returns the backtraced alignment in left-to-right order.
#[verifier::rlimit(60)]
pub fn needleman_wunsch(a: &[&str], b: &[&str]) -> (r: Vec<AlignmentKind>)
    ensures
        r@ == nw_trace(a.deep_view(), b.deep_view(), a@.len() as int, b@.len() as int),
{
    let ghost av = a.deep_view();
    let ghost bv = b.deep_view();
    let m = a.len();
    let n = b.len();
    let mat = fill_matrix(a, b);
    let mut out: Vec<AlignmentKind> = Vec::new();
    let mut i: usize = m;
    let mut j: usize = n;
    proof {
        assert(out@.reverse() =~= Seq::<AlignmentKind>::empty());
    }
    while i > 0 || j > 0
        invariant
            i <= m,
            j <= n,
            m == av.len(),
            n == bv.len(),
            av == a.deep_view(),
            bv == b.deep_view(),
            m == a@.len(),
            n == b@.len(),
            mat_wf(mat@, av, bv),
            nw_trace(av, bv, m as int, n as int) == nw_trace(av, bv, i as int, j as int)
                + out@.reverse(),
        decreases i + j,
    {
        let ghost pre = out@;
        if i > 0 && j > 0 {
            let cur = cell_get(&mat, Ghost(av), Ghost(bv), i, j);
            let ddiag = cell_get(&mat, Ghost(av), Ghost(bv), i - 1, j - 1);
            proof {
                lemma_nw_cell_bound(av, bv, i as int, j as int);
                lemma_nw_cell_bound(av, bv, i - 1, j - 1);
                lemma_nw_cell_bound(av, bv, i - 1, j as int);
                assert(av[i - 1] == a@[i - 1]@);
                assert(bv[j - 1] == b@[j - 1]@);
            }
            let reward = match_or_mismatch(a[i - 1], b[j - 1]);
            if cur == ddiag + (reward as i128) {
                out.push(AlignmentKind::Matches { i: i - 1, j: j - 1, ratio: reward });
                i -= 1;
                j -= 1;
            } else {
                let dside = cell_get(&mat, Ghost(av), Ghost(bv), i - 1, j);
                if cur == dside + (INDEL as i128) {
                    out.push(AlignmentKind::MissingJ { i: i - 1 });
                    i -= 1;
                } else {
                    out.push(AlignmentKind::MissingI { j: j - 1 });
                    j -= 1;
                }
            }
        } else if i > 0 {
            proof {
                lemma_nw_cell_border(av, bv, i as int, 0);
                lemma_nw_cell_border(av, bv, i - 1, 0);
            }
            out.push(AlignmentKind::MissingJ { i: i - 1 });
            i -= 1;
        } else {
            proof {
                lemma_nw_cell_border(av, bv, 0, j as int);
                lemma_nw_cell_border(av, bv, 0, j - 1);
            }
            out.push(AlignmentKind::MissingI { j: j - 1 });
            j -= 1;
        }
        proof {
            assert(out@ == pre.push(out@.last()));
            assert(out@.reverse() =~= seq![out@.last()] + pre.reverse());
            assert(nw_trace(av, bv, i as int, j as int).push(out@.last()) + pre.reverse()
                =~= nw_trace(av, bv, i as int, j as int) + out@.reverse());
        }
    }
    proof {
        assert(nw_trace(av, bv, m as int, n as int) =~= out@.reverse());
    }
    reverse_alignment(out)
}

} // verus!
