//! Token similarity: a character-level edit distance (with adjacent
//! transpositions) and the normalized fixed-point similarity derived from it.

use vstd::prelude::*;

verus! {

/// Fixed-point scale for scores and similarities: `SCALE` stands for 1.0.
pub const SCALE: u64 = 1_000_000;

/// Acceptance threshold for a detection, 0.8, in fixed point.
pub const THRESHOLD: u64 = 800_000;

/// The alignment reward for a perfectly matching token pair.
pub const MATCH: i64 = 5;

/// The alignment penalty for a fully mismatching token pair.
pub const MISMATCH: i64 = -5;

/// The gap penalty for an inserted or deleted token in an alignment.
pub const INDEL: i64 = -5;

pub open spec fn min3(a: nat, b: nat, c: nat) -> nat {
    if a <= b && a <= c {
        a
    } else if b <= c {
        b
    } else {
        c
    }
}

/// Edit distance between two character sequences: the least number of
/// insertions, deletions, substitutions and adjacent transpositions (each
/// substring edited at most once) turning one into the other.
pub open spec fn edit_dist(a: Seq<char>, b: Seq<char>) -> nat
    decreases a.len() + b.len(),
{
    if a.len() == 0 {
        b.len()
    } else if b.len() == 0 {
        a.len()
    } else {
        let sub: nat = if a.last() == b.last() {
            0
        } else {
            1
        };
        let del = edit_dist(a.drop_last(), b) + 1;
        let ins = edit_dist(a, b.drop_last()) + 1;
        let rep = edit_dist(a.drop_last(), b.drop_last()) + sub;
        let base = min3(del, ins, rep);
        if a.len() >= 2 && b.len() >= 2 && a.last() == b[b.len() - 2] && a[a.len() - 2]
            == b.last() {
            let swap = edit_dist(a.subrange(0, a.len() - 2), b.subrange(0, b.len() - 2)) + 1;
            if swap < base {
                swap
            } else {
                base
            }
        } else {
            base
        }
    }
}

/// The edit distance never exceeds the longer length.
pub proof fn lemma_edit_dist_le_max(a: Seq<char>, b: Seq<char>)
    ensures
        edit_dist(a, b) <= if a.len() >= b.len() {
            a.len()
        } else {
            b.len()
        },
    decreases a.len() + b.len(),
{
    if a.len() == 0 || b.len() == 0 {
    } else {
        lemma_edit_dist_le_max(a.drop_last(), b.drop_last());
    }
}

/// The distance from a sequence to itself is zero.
pub proof fn lemma_edit_dist_refl(a: Seq<char>)
    ensures
        edit_dist(a, a) == 0,
    decreases a.len(),
{
    if a.len() == 0 {
    } else {
        lemma_edit_dist_refl(a.drop_last());
    }
}

/// The edit distance is symmetric.
pub proof fn lemma_edit_dist_sym(a: Seq<char>, b: Seq<char>)
    ensures
        edit_dist(a, b) == edit_dist(b, a),
    decreases a.len() + b.len(),
{
    if a.len() == 0 || b.len() == 0 {
    } else {
        lemma_edit_dist_sym(a.drop_last(), b);
        lemma_edit_dist_sym(a, b.drop_last());
        lemma_edit_dist_sym(a.drop_last(), b.drop_last());
        if a.len() >= 2 && b.len() >= 2 && a.last() == b[b.len() - 2] && a[a.len() - 2]
            == b.last() {
            lemma_edit_dist_sym(a.subrange(0, a.len() - 2), b.subrange(0, b.len() - 2));
        }
    }
}

/// Denominator of the exact similarity fraction: the longer length, or 1 when
/// both sequences are empty.
pub open spec fn sim_den(a: Seq<char>, b: Seq<char>) -> int {
    if a.len() == 0 && b.len() == 0 {
        1
    } else if a.len() >= b.len() {
        a.len() as int
    } else {
        b.len() as int
    }
}

/// Numerator of the exact similarity fraction; `sim_num / sim_den` is 1 for
/// identical sequences and 0 for maximally dissimilar ones.
pub open spec fn sim_num(a: Seq<char>, b: Seq<char>) -> int {
    sim_den(a, b) - edit_dist(a, b)
}

/// The similarity in fixed point (rounded down to a multiple of 1/SCALE).
pub open spec fn sim_scaled(a: Seq<char>, b: Seq<char>) -> int {
    SCALE * sim_num(a, b) / sim_den(a, b)
}

/// The alignment substitution reward for a token pair: the similarity mapped
/// to the integer range `[-5, 5]`, with the fraction rounded up.
pub open spec fn compat(a: Seq<char>, b: Seq<char>) -> int {
    MISMATCH + (10 * sim_num(a, b) + sim_den(a, b) - 1) / sim_den(a, b)
}

/// The similarity fraction is well formed: positive denominator, numerator
/// between zero and the denominator.
pub proof fn lemma_sim_frac_bounds(a: Seq<char>, b: Seq<char>)
    ensures
        sim_den(a, b) >= 1,
        0 <= sim_num(a, b) <= sim_den(a, b),
{
    lemma_edit_dist_le_max(a, b);
}

/// The distance between prefixes of given lengths.
pub open spec fn cell(a: Seq<char>, b: Seq<char>, i: int, j: int) -> nat {
    edit_dist(a.subrange(0, i), b.subrange(0, j))
}

proof fn lemma_cell_base(a: Seq<char>, b: Seq<char>, i: int, j: int)
    requires
        0 <= i <= a.len(),
        0 <= j <= b.len(),
    ensures
        cell(a, b, i, 0) == i,
        cell(a, b, 0, j) == j,
{
    assert(a.subrange(0, i).len() == i);
    assert(b.subrange(0, 0).len() == 0);
    assert(a.subrange(0, 0).len() == 0);
    assert(b.subrange(0, j).len() == j);
}

/// The recurrence satisfied by prefix distances, in the form the dynamic
/// program computes cells.
proof fn lemma_cell_step(a: Seq<char>, b: Seq<char>, i: int, j: int)
    requires
        1 <= i <= a.len(),
        1 <= j <= b.len(),
    ensures
        cell(a, b, i, j) == ({
            let sub: nat = if a[i - 1] == b[j - 1] {
                0
            } else {
                1
            };
            let base = min3(
                cell(a, b, i - 1, j) + 1,
                cell(a, b, i, j - 1) + 1,
                cell(a, b, i - 1, j - 1) + sub,
            );
            if i >= 2 && j >= 2 && a[i - 1] == b[j - 2] && a[i - 2] == b[j - 1] {
                let swap = cell(a, b, i - 2, j - 2) + 1;
                if swap < base {
                    swap
                } else {
                    base
                }
            } else {
                base
            }
        }),
{
    let pa = a.subrange(0, i);
    let pb = b.subrange(0, j);
    assert(pa.len() == i && pb.len() == j);
    assert(pa.last() == a[i - 1] && pb.last() == b[j - 1]);
    assert(pa.drop_last() =~= a.subrange(0, i - 1));
    assert(pb.drop_last() =~= b.subrange(0, j - 1));
    if i >= 2 && j >= 2 {
        assert(pa[pa.len() - 2] == a[i - 2] && pb[pb.len() - 2] == b[j - 2]);
        assert(pa.subrange(0, pa.len() - 2) =~= a.subrange(0, i - 2));
        assert(pb.subrange(0, pb.len() - 2) =~= b.subrange(0, j - 2));
    }
}

proof fn lemma_cell_bound(a: Seq<char>, b: Seq<char>, i: int, j: int)
    requires
        0 <= i <= a.len(),
        0 <= j <= b.len(),
    ensures
        cell(a, b, i, j) <= i + j,
{
    lemma_edit_dist_le_max(a.subrange(0, i), b.subrange(0, j));
}

/// Computes the edit distance between two character vectors with a rolling
/// dynamic program.
#[verifier::rlimit(60)]
pub fn edit_distance_chars(a: &Vec<char>, b: &Vec<char>) -> (r: usize)
    ensures
        r == edit_dist(a@, b@),
{
    let m = a.len();
    let n = b.len();
    proof {
        assert(a@.subrange(0, m as int) =~= a@);
        assert(b@.subrange(0, n as int) =~= b@);
    }
    if m == 0 {
        return n;
    }
    if n == 0 {
        return m;
    }
    // Row i of the matrix is stored with a virtual column 0 (always equal to
    // i), so cell (i, j) sits at index j - 1.
    let mut prev2: Vec<u128> = Vec::new();
    let mut prev: Vec<u128> = Vec::new();
    let mut j: usize = 0;
    while j < n
        invariant
            j <= n,
            m == a@.len(),
            n == b@.len(),
            prev@.len() == j,
            forall|t: int| 0 <= t < j ==> prev@[t] == cell(a@, b@, 0, t + 1),
        decreases n - j,
    {
        proof {
            lemma_cell_base(a@, b@, 0, j + 1);
        }
        prev.push((j + 1) as u128);
        j += 1;
    }
    let mut ii: usize = 0;
    while ii < m
        invariant
            ii <= m,
            m == a@.len(),
            n == b@.len(),
            1 <= n,
            prev@.len() == n,
            forall|t: int| 0 <= t < n ==> prev@[t] == cell(a@, b@, ii as int, t + 1),
            ii >= 1 ==> prev2@.len() == n,
            forall|t: int| ii >= 1 && 0 <= t < n ==> prev2@[t] == cell(a@, b@, ii - 1, t + 1),
        decreases m - ii,
    {
        let i: usize = ii + 1;
        let mut cur: Vec<u128> = Vec::new();
        let mut jj: usize = 0;
        while jj < n
            invariant
                1 <= i <= m,
                i == ii + 1,
                jj <= n,
                m == a@.len(),
                n == b@.len(),
                prev@.len() == n,
                forall|t: int| 0 <= t < n ==> prev@[t] == cell(a@, b@, i - 1, t + 1),
                i >= 2 ==> prev2@.len() == n,
                forall|t: int| i >= 2 && 0 <= t < n ==> prev2@[t] == cell(a@, b@, i - 2, t + 1),
                cur@.len() == jj,
                forall|t: int| 0 <= t < jj ==> cur@[t] == cell(a@, b@, i as int, t + 1),
            decreases n - jj,
        {
            let j: usize = jj + 1;
            proof {
                lemma_cell_base(a@, b@, i as int, j as int);
                lemma_cell_base(a@, b@, i - 1, j - 1);
                lemma_cell_bound(a@, b@, i - 1, j as int);
                lemma_cell_bound(a@, b@, i as int, j - 1);
                lemma_cell_bound(a@, b@, i - 1, j - 1);
                if i >= 2 && j >= 2 {
                    lemma_cell_bound(a@, b@, i - 2, j - 2);
                }
            }
            let dup: u128 = prev[j - 1];
            let dleft: u128 = if j >= 2 {
                cur[j - 2]
            } else {
                i as u128
            };
            let ddiag: u128 = if j >= 2 {
                prev[j - 2]
            } else {
                (i - 1) as u128
            };
            let sub: u128 = if a[i - 1] == b[j - 1] {
                0
            } else {
                1
            };
            let mut d: u128 = ddiag + sub;
            if dup + 1 < d {
                d = dup + 1;
            }
            if dleft + 1 < d {
                d = dleft + 1;
            }
            if i >= 2 && j >= 2 && a[i - 1] == b[j - 2] && a[i - 2] == b[j - 1] {
                let dsw: u128 = if j >= 3 {
                    prev2[j - 3]
                } else {
                    (i - 2) as u128
                };
                if dsw + 1 < d {
                    d = dsw + 1;
                }
            }
            proof {
                lemma_cell_step(a@, b@, i as int, j as int);
            }
            cur.push(d);
            jj += 1;
        }
        prev2 = prev;
        prev = cur;
        ii += 1;
    }
    let last: u128 = prev[n - 1];
    proof {
        lemma_cell_bound(a@, b@, m as int, n as int);
        lemma_edit_dist_le_max(a@, b@);
    }
    last as usize
}

/// The similarity of two strings in fixed point: `SCALE` means identical,
/// 0 means maximally dissimilar for the lengths involved.
pub fn string_similarity(a: &str, b: &str) -> (r: u64)
    ensures
        r == sim_scaled(a@, b@),
        r <= SCALE,
{
    let av = crate::strutil::chars_of(a);
    let bv = crate::strutil::chars_of(b);
    let d = edit_distance_chars(&av, &bv);
    let al = av.len();
    let bl = bv.len();
    let den: usize = if al >= bl {
        if al == 0 {
            1
        } else {
            al
        }
    } else {
        bl
    };
    proof {
        lemma_sim_frac_bounds(a@, b@);
        assert(den == sim_den(a@, b@));
    }
    let num: u128 = (den - d) as u128;
    let r: u128 = (SCALE as u128) * num / (den as u128);
    proof {
        assert(r == sim_scaled(a@, b@));
        assert((SCALE as int) * num <= (SCALE as int) * (den as int)) by (nonlinear_arith)
            requires
                num <= den,
                0 < SCALE,
        ;
        assert((SCALE as int) * num / (den as int) <= SCALE) by (nonlinear_arith)
            requires
                (SCALE as int) * num <= (SCALE as int) * (den as int),
                1 <= (den as int),
                0 <= num,
        ;
    }
    r as u64
}

/// The substitution reward the aligner uses for a token pair, in `[-5, 5]`.
pub fn match_or_mismatch(top: &str, side: &str) -> (r: i64)
    ensures
        r == compat(top@, side@),
        MISMATCH <= r <= MATCH,
{
    let tv = crate::strutil::chars_of(top);
    let sv = crate::strutil::chars_of(side);
    let d = edit_distance_chars(&tv, &sv);
    let tl = tv.len();
    let sl = sv.len();
    let den: usize = if tl >= sl {
        if tl == 0 {
            1
        } else {
            tl
        }
    } else {
        sl
    };
    proof {
        lemma_sim_frac_bounds(top@, side@);
        assert(den == sim_den(top@, side@));
    }
    let num: u128 = (den - d) as u128;
    let interp: u128 = (10 * num + (den as u128) - 1) / (den as u128);
    proof {
        assert(10 * num + den - 1 <= 10 * (den as int) + den - 1) by (nonlinear_arith)
            requires
                num <= den,
        ;
        assert((10 * num + (den as int) - 1) / (den as int) <= 10) by (nonlinear_arith)
            requires
                10 * num + (den as int) - 1 <= 11 * (den as int) - 1,
                1 <= (den as int),
                0 <= num,
        ;
    }
    -5 + (interp as i64)
}

/// The reward is `MATCH` exactly for identical token pairs.
pub proof fn lemma_compat_range(a: Seq<char>, b: Seq<char>)
    ensures
        MISMATCH <= compat(a, b) <= MATCH,
{
    lemma_sim_frac_bounds(a, b);
    let num = sim_num(a, b);
    let den = sim_den(a, b);
    assert((10 * num + den - 1) / den >= 0) by (nonlinear_arith)
        requires
            0 <= num,
            1 <= den,
    ;
    assert((10 * num + den - 1) / den <= 10) by (nonlinear_arith)
        requires
            num <= den,
            1 <= den,
            0 <= num,
    ;
}

} // verus!
