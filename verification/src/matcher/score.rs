//! Relevance scores of subsequence matches, computed by dynamic programming.
//!
//! Row `i` of the table speaks of the first `i` characters of the query,
//! column `j` of the first `j` characters of the candidate. Each matched
//! character scores one point plus one point for every character of the
//! contiguous run that it extends.

use crate::matcher::subsequence::{
    is_subsequence, lemma_empty_is_subsequence, lemma_subsequence_length,
    lemma_subsequence_shorter, lemma_subsequence_unfold,
};
use vstd::prelude::*;

verus! {

/// The longest query or candidate that a table can be built for: with it, the
/// table's size fits a 32-bit index and every score fits 32 bits.
pub const LENGTH_LIMIT: usize = 65534;

/// The best score and the run length for the first `i` characters of `q`
/// against the first `j` characters of `t`.
///
/// The run length is 0 when the best score is carried over from the column to
/// the left, that is, when character `j - 1` of `t` is not used.
pub open spec fn cell(q: Seq<char>, t: Seq<char>, i: int, j: int) -> (nat, nat)
    decreases j,
{
    if i <= 0 || j <= 0 {
        (0, 0)
    } else {
        let diagonal = cell(q, t, i - 1, j - 1);
        let left = cell(q, t, i, j - 1);
        let extend = if q[i - 1] == t[j - 1] {
            diagonal.0 + 1 + diagonal.1
        } else {
            0
        };
        if extend < left.0 {
            (left.0, 0)
        } else if diagonal.0 == 0 && i > 1 {
            (0, 0)
        } else {
            (extend, diagonal.1 + 1)
        }
    }
}

/// The best score for the first `i` characters of `q` within the first `j`
/// characters of `t`; 0 when there is no match.
pub open spec fn best_score(q: Seq<char>, t: Seq<char>, i: int, j: int) -> nat {
    cell(q, t, i, j).0
}

/// The length of the contiguous run that ends in column `j` of row `i`.
pub open spec fn run_length(q: Seq<char>, t: Seq<char>, i: int, j: int) -> nat {
    cell(q, t, i, j).1
}

/// The score of `n` characters matched in one contiguous run, which no match
/// of `n` characters exceeds.
pub open spec fn max_score(n: nat) -> nat {
    n * (n + 1) / 2
}

/// No characters score nothing.
pub proof fn lemma_max_score_zero()
    ensures
        max_score(0) == 0,
{
    assert(0nat * (0nat + 1) / 2 == 0) by (nonlinear_arith);
}

/// One more character adds at most its own point and the run before it.
pub proof fn lemma_max_score_step(n: nat)
    ensures
        max_score(n) + 1 + n == max_score(n + 1),
{
    assert(n * (n + 1) / 2 + 1 + n == (n + 1) * (n + 1 + 1) / 2) by (nonlinear_arith);
}

/// The largest score grows with the number of characters.
pub proof fn lemma_max_score_monotonic(a: nat, b: nat)
    requires
        a <= b,
    ensures
        max_score(a) <= max_score(b),
{
    assert(a * (a + 1) / 2 <= b * (b + 1) / 2) by (nonlinear_arith)
        requires
            a <= b,
    ;
}

/// Scores and run lengths are bounded by the number of query characters used.
pub proof fn lemma_cell_bounds(q: Seq<char>, t: Seq<char>, i: int, j: int)
    requires
        0 <= i,
    ensures
        best_score(q, t, i, j) <= max_score(i as nat),
        run_length(q, t, i, j) <= i,
    decreases j,
{
    if i > 0 && j > 0 {
        lemma_cell_bounds(q, t, i - 1, j - 1);
        lemma_cell_bounds(q, t, i, j - 1);
        lemma_max_score_step((i - 1) as nat);
    }
}

/// A prefix of the query has a positive score within a prefix of the
/// candidate exactly when it is a subsequence of it.
pub proof fn lemma_positive_iff_subsequence(q: Seq<char>, t: Seq<char>, i: int, j: int)
    requires
        1 <= i <= q.len(),
        0 <= j <= t.len(),
    ensures
        best_score(q, t, i, j) > 0 <==> is_subsequence(q.take(i), t.take(j)),
    decreases j,
{
    let qi = q.take(i);
    let tj = t.take(j);
    if j == 0 {
        if is_subsequence(qi, tj) {
            lemma_subsequence_length(qi, tj);
        }
    } else {
        assert(qi.drop_last() == q.take(i - 1));
        assert(tj.drop_last() == t.take(j - 1));
        assert(qi.last() == q[i - 1]);
        assert(tj.last() == t[j - 1]);
        lemma_subsequence_unfold(qi, tj);
        lemma_positive_iff_subsequence(q, t, i, j - 1);
        if i > 1 {
            lemma_positive_iff_subsequence(q, t, i - 1, j - 1);
        } else {
            lemma_empty_is_subsequence(q.take(0), t.take(j - 1));
        }
        if is_subsequence(qi, t.take(j - 1)) {
            lemma_subsequence_shorter(qi, t.take(j - 1));
        }
    }
}

/// The place of cell `(i, j)` in a table stored row by row, `w` cells a row.
pub open spec fn flat(i: int, j: int, w: int) -> int {
    i * w + j
}

/// A cell of an `h` by `w` table lies inside its storage.
pub proof fn lemma_flat_bounds(i: int, j: int, h: int, w: int)
    requires
        0 <= i < h,
        0 <= j < w,
    ensures
        0 <= flat(i, j, w) < h * w,
        flat(i + 1, j, w) == flat(i, j, w) + w,
{
    assert(0 <= i * w + j < h * w && (i + 1) * w + j == i * w + j + w) by (nonlinear_arith)
        requires
            0 <= i < h,
            0 <= j < w,
    ;
}

/// Different cells lie at different places.
pub proof fn lemma_flat_injective(i: int, j: int, k: int, l: int, w: int)
    requires
        0 <= j < w,
        0 <= l < w,
        flat(i, j, w) == flat(k, l, w),
    ensures
        i == k,
        j == l,
{
    assert(i == k && j == l) by (nonlinear_arith)
        requires
            0 <= j < w,
            0 <= l < w,
            i * w + j == k * w + l,
    ;
}

/// The filled score and run-length tables for one query and one candidate.
pub struct ScoreTable {
    query: Ghost<Seq<char>>,
    target: Ghost<Seq<char>>,
    rows: usize,
    width: usize,
    scores: Vec<u32>,
    runs: Vec<u32>,
}

impl ScoreTable {
    /// The query that the table was built for.
    pub closed spec fn query(&self) -> Seq<char> {
        self.query@
    }

    /// The candidate that the table was built for.
    pub closed spec fn target(&self) -> Seq<char> {
        self.target@
    }

    /// Every cell holds the score and run length that the recurrence gives.
    pub closed spec fn wf(&self) -> bool {
        &&& self.query@.len() <= LENGTH_LIMIT
        &&& self.target@.len() <= LENGTH_LIMIT
        &&& self.rows == self.query@.len()
        &&& self.width == self.target@.len() + 1
        &&& self.scores.len() == (self.query@.len() + 1) * self.width
        &&& self.runs.len() == self.scores.len()
        &&& forall|i: int, j: int|
            0 <= i <= self.query@.len() && 0 <= j <= self.target@.len() ==> {
                &&& self.scores@[#[trigger] flat(i, j, self.width as int)] == best_score(
                    self.query@,
                    self.target@,
                    i,
                    j,
                )
                &&& self.runs@[flat(i, j, self.width as int)] == run_length(
                    self.query@,
                    self.target@,
                    i,
                    j,
                )
            }
    }

    /// Fills the tables for `search` against `target`, row by row.
    pub fn build(search: &[char], target: &[char]) -> (table: ScoreTable)
        requires
            search@.len() <= LENGTH_LIMIT,
            target@.len() <= LENGTH_LIMIT,
        ensures
            table.wf(),
            table.query() == search@,
            table.target() == target@,
    {
        let n = search.len();
        let m = target.len();
        let height = n + 1;
        let width = m + 1;
        let ghost q = search@;
        let ghost t = target@;
        let ghost w = width as int;
        assert(height * width <= 65535 * 65535) by (nonlinear_arith)
            requires
                height <= 65535,
                width <= 65535,
        ;
        let mut scores: Vec<u32> = vec![0u32; height * width];
        let mut runs: Vec<u32> = vec![0u32; height * width];
        proof {
            assert forall|a: int, b: int|
                0 <= a <= n && 0 <= b <= m && (a <= 0 || b == 0) implies {
                &&& scores@[#[trigger] flat(a, b, w)] == best_score(q, t, a, b)
                &&& runs@[flat(a, b, w)] == run_length(q, t, a, b)
            } by {
                lemma_flat_bounds(a, b, height as int, w);
            }
        }
        let mut i: usize = 0;
        while i < n
            invariant
                n == q.len(),
                m == t.len(),
                q == search@,
                t == target@,
                n <= LENGTH_LIMIT,
                m <= LENGTH_LIMIT,
                height == n + 1,
                width == m + 1,
                w == width,
                i <= n,
                scores.len() == height * width,
                runs.len() == height * width,
                forall|a: int, b: int|
                    0 <= a <= n && 0 <= b <= m && (a <= i || b == 0) ==> {
                        &&& scores@[#[trigger] flat(a, b, w)] == best_score(q, t, a, b)
                        &&& runs@[flat(a, b, w)] == run_length(q, t, a, b)
                    },
            decreases n - i,
        {
            let mut j: usize = 0;
            while j < m
                invariant
                    n == q.len(),
                    m == t.len(),
                    q == search@,
                    t == target@,
                    n <= LENGTH_LIMIT,
                    m <= LENGTH_LIMIT,
                    height == n + 1,
                    width == m + 1,
                    w == width,
                    i < n,
                    j <= m,
                    scores.len() == height * width,
                    runs.len() == height * width,
                    forall|a: int, b: int|
                        0 <= a <= n && 0 <= b <= m && (a <= i || b == 0 || (a == i + 1 && b <= j))
                            ==> {
                            &&& scores@[#[trigger] flat(a, b, w)] == best_score(q, t, a, b)
                            &&& runs@[flat(a, b, w)] == run_length(q, t, a, b)
                        },
                decreases m - j,
            {
                proof {
                    lemma_flat_bounds(i as int, j as int, height as int, w);
                    lemma_flat_bounds(i + 1, j as int, height as int, w);
                    lemma_flat_bounds(i + 1, j + 1, height as int, w);
                    lemma_cell_bounds(q, t, i as int, j as int);
                    lemma_max_score_step(i as nat);
                    lemma_max_score_monotonic((i + 1) as nat, LENGTH_LIMIT as nat);
                    assert(max_score(LENGTH_LIMIT as nat) <= u32::MAX);
                }
                let index = i * width + j;
                let index_below = (i + 1) * width + j;
                let index_diagonal = index_below + 1;
                assert(index == flat(i as int, j as int, w));
                assert(index_below == flat(i + 1, j as int, w));
                assert(index_diagonal == flat(i + 1, j + 1, w));
                let extend: u32 = if search[i] != target[j] {
                    0
                } else {
                    scores[index] + 1 + runs[index]
                };
                let score: u32;
                let run: u32;
                if extend < scores[index_below] {
                    score = scores[index_below];
                    run = 0;
                } else if scores[index] == 0 && i > 0 {
                    score = 0;
                    run = 0;
                } else {
                    score = extend;
                    run = runs[index] + 1;
                }
                let ghost before_scores = scores@;
                let ghost before_runs = runs@;
                scores.set(index_diagonal, score);
                runs.set(index_diagonal, run);
                proof {
                    assert(score == best_score(q, t, i + 1, j + 1));
                    assert(run == run_length(q, t, i + 1, j + 1));
                    assert forall|a: int, b: int|
                        0 <= a <= n && 0 <= b <= m && (a <= i || b == 0 || (a == i + 1 && b <= j
                            + 1)) implies {
                        &&& scores@[#[trigger] flat(a, b, w)] == best_score(q, t, a, b)
                        &&& runs@[flat(a, b, w)] == run_length(q, t, a, b)
                    } by {
                        lemma_flat_bounds(a, b, height as int, w);
                        if a == i + 1 && b == j + 1 {
                        } else {
                            if flat(a, b, w) == flat(i + 1, j + 1, w) {
                                lemma_flat_injective(a, b, i + 1, j + 1, w);
                            }
                            assert(scores@[flat(a, b, w)] == before_scores[flat(a, b, w)]);
                            assert(runs@[flat(a, b, w)] == before_runs[flat(a, b, w)]);
                        }
                    }
                }
                j += 1;
            }
            i += 1;
        }
        ScoreTable { query: Ghost(q), target: Ghost(t), rows: n, width, scores, runs }
    }

    /// The number of characters of the query.
    pub fn query_len(&self) -> (n: usize)
        requires
            self.wf(),
        ensures
            n == self.query().len(),
    {
        self.rows
    }

    /// The number of characters of the candidate.
    pub fn target_len(&self) -> (m: usize)
        requires
            self.wf(),
        ensures
            m == self.target().len(),
    {
        self.width - 1
    }

    /// The best score in row `i`, column `j`.
    pub fn score_at(&self, i: usize, j: usize) -> (score: u32)
        requires
            self.wf(),
            i <= self.query().len(),
            j <= self.target().len(),
        ensures
            score == best_score(self.query(), self.target(), i as int, j as int),
    {
        proof {
            lemma_flat_bounds(i as int, j as int, self.query@.len() as int + 1, self.width as int);
        }
        let index = i * self.width + j;
        assert(index == flat(i as int, j as int, self.width as int));
        self.scores[index]
    }

    /// The run length in row `i`, column `j`.
    pub fn run_at(&self, i: usize, j: usize) -> (run: u32)
        requires
            self.wf(),
            i <= self.query().len(),
            j <= self.target().len(),
        ensures
            run == run_length(self.query(), self.target(), i as int, j as int),
    {
        proof {
            lemma_flat_bounds(i as int, j as int, self.query@.len() as int + 1, self.width as int);
        }
        let index = i * self.width + j;
        assert(index == flat(i as int, j as int, self.width as int));
        self.runs[index]
    }
}

} // verus!
