//! What holds of every comparison, stated over the matcher's models.

use crate::matcher::backtrack::{
    lemma_settle, lemma_walk, moves_left, positions, settle, start_column, stop_column,
};
use crate::matcher::fold::folded;
use crate::matcher::score::{
    best_score, cell, lemma_cell_bounds, lemma_max_score_step, lemma_max_score_zero, lemma_positive_iff_subsequence,
    max_score, run_length,
};
use crate::matcher::subsequence::{embeds, is_subsequence, lemma_subsequence_shorter};
use crate::matcher::{comparison, lemma_matching_well_formed, matchable, matching, MatchView};
use vstd::prelude::*;

verus! {

/// The number of positions directly before position `k` of `pos` that form
/// one contiguous run with it.
pub open spec fn run_before(pos: Seq<int>, k: int) -> nat
    decreases k,
{
    if 0 < k < pos.len() && pos[k - 1] + 1 == pos[k] {
        1 + run_before(pos, k - 1)
    } else {
        0
    }
}

/// The relevance of the first `k` positions of `pos`: every position scores
/// one point, and one more for each position of the run that it extends.
pub open spec fn alignment_score(pos: Seq<int>, k: int) -> nat
    decreases k,
{
    if k <= 0 {
        0
    } else {
        alignment_score(pos, k - 1) + 1 + run_before(pos, k - 1)
    }
}

/// The cell matched in row `i` holds the relevance of the positions reported
/// for the first `i` query characters, and the length of the run they end in.
proof fn lemma_matched_cell(q: Seq<char>, t: Seq<char>, i: int)
    requires
        1 <= i <= q.len(),
        best_score(q, t, q.len() as int, t.len() as int) > 0,
    ensures
        best_score(q, t, i, stop_column(q, t, i)) == alignment_score(positions(q, t), i),
        run_length(q, t, i, stop_column(q, t, i)) == run_before(positions(q, t), i - 1) + 1,
    decreases i,
{
    let pos = positions(q, t);
    let c = stop_column(q, t, i);
    lemma_walk(q, t, i);
    let start = start_column(q, t, i);
    lemma_settle(q, t, i, start, start);
    assert(pos[i - 1] == c - 1);
    // The matched cell extends its diagonal neighbour.
    assert(cell(q, t, i, c) == (
        (best_score(q, t, i - 1, c - 1) + 1 + run_length(q, t, i - 1, c - 1)) as nat,
        (run_length(q, t, i - 1, c - 1) + 1) as nat,
    ));
    if i == 1 {
        assert(alignment_score(pos, 1) == alignment_score(pos, 0) + 1 + run_before(pos, 0));
    } else {
        lemma_matched_cell(q, t, i - 1);
        lemma_walk(q, t, i - 1);
        let above = stop_column(q, t, i - 1);
        assert(start_column(q, t, i - 1) == c - 1);
        lemma_settle(q, t, i - 1, c - 1, c - 1);
        assert(pos[i - 2] == above - 1);
        if run_length(q, t, i - 1, c - 1) > 0 {
            assert(!moves_left(q, t, i - 1, c - 1, c - 1));
            assert(above == c - 1);
        } else {
            assert(moves_left(q, t, i - 1, c - 1, c - 1));
            assert(above == settle(q, t, i - 1, c - 2, c - 1));
            lemma_settle_bound(q, t, i - 1, c - 2, c - 1);
        }
    }
}

/// The walk never comes to rest right of where it starts.
proof fn lemma_settle_bound(q: Seq<char>, t: Seq<char>, i: int, j: int, start: int)
    ensures
        settle(q, t, i, j, start) <= j || j < 0,
    decreases j,
{
    if j > 0 && moves_left(q, t, i, j, start) {
        lemma_settle_bound(q, t, i, j - 1, start);
    }
}

/// The score of a match is the relevance of the positions it reports: one
/// point for every matched character, and one more for each character of the
/// contiguous run that it extends.
pub proof fn lemma_score_of_positions(
    q: Seq<char>,
    t: Seq<char>,
    original: Seq<char>,
    max_len: nat,
)
    ensures
        matching(q, t, original, max_len) matches Some(m) ==> m.score == alignment_score(
            m.matches,
            m.matches.len() as int,
        ),
{
    if matchable(q, t, max_len) {
        let n = q.len() as int;
        let m = t.len() as int;
        lemma_positive_iff_subsequence(q, t, n, m);
        assert(q.take(n) == q);
        assert(t.take(m) == t);
        lemma_matched_cell(q, t, n);
        lemma_settle(q, t, n, m, m);
    }
}

/// Whether `q` stands in `t` as one block that starts at position `at`.
pub open spec fn occurs_at(q: Seq<char>, t: Seq<char>, at: int) -> bool {
    &&& 0 <= at
    &&& at + q.len() <= t.len()
    &&& forall|k: int| 0 <= k < q.len() ==> t[at + k] == q[k]
}

/// Whether each position follows directly on the one before.
pub open spec fn contiguous(pos: Seq<int>) -> bool {
    forall|k: int| 0 < k < pos.len() ==> pos[k - 1] + 1 == #[trigger] pos[k]
}

/// Along a block of the candidate that equals the query, every cell holds
/// the largest score and one unbroken run.
proof fn lemma_block_diagonal(q: Seq<char>, t: Seq<char>, at: int, i: int)
    requires
        occurs_at(q, t, at),
        1 <= i <= q.len(),
    ensures
        cell(q, t, i, at + i) == (max_score(i as nat), i as nat),
    decreases i,
{
    lemma_max_score_step((i - 1) as nat);
    lemma_cell_bounds(q, t, i, at + i - 1);
    assert(t[at + (i - 1)] == q[i - 1]);
    if i > 1 {
        lemma_block_diagonal(q, t, at, i - 1);
        lemma_max_score_step((i - 2) as nat);
    } else {
        lemma_max_score_zero();
    }
}

/// The best score of a row never falls from one column to the next.
proof fn lemma_row_rises(q: Seq<char>, t: Seq<char>, i: int, j: int, k: int)
    requires
        1 <= i <= q.len(),
        0 <= j <= k <= t.len(),
    ensures
        best_score(q, t, i, j) <= best_score(q, t, i, k),
    decreases k - j,
{
    if j < k {
        lemma_row_rises(q, t, i, j, k - 1);
        if best_score(q, t, i, k - 1) > 0 {
            // The shorter prefix of the query is found where the longer is.
            lemma_positive_iff_subsequence(q, t, i, k - 1);
            lemma_subsequence_shorter(q.take(i), t.take(k - 1));
            assert(q.take(i).drop_last() == q.take(i - 1));
            if i > 1 {
                lemma_positive_iff_subsequence(q, t, i - 1, k - 1);
            }
        }
    }
}

/// Positions score the most exactly when they form one block.
proof fn lemma_alignment_bound(pos: Seq<int>, k: int)
    requires
        0 <= k <= pos.len(),
    ensures
        k > 0 ==> run_before(pos, k - 1) <= k - 1,
        alignment_score(pos, k) <= max_score(k as nat),
        alignment_score(pos, k) == max_score(k as nat) ==> contiguous(pos.take(k)),
        k > 0 && run_before(pos, k - 1) == k - 1 ==> contiguous(pos.take(k)),
    decreases k,
{
    if k > 0 {
        lemma_alignment_bound(pos, k - 1);
        lemma_max_score_step((k - 1) as nat);
        if k > 1 {
            assert(run_before(pos, k - 1) <= 1 + run_before(pos, k - 2));
        }
        if run_before(pos, k - 1) == k - 1 {
            assert forall|l: int| 0 < l < k implies pos.take(k)[l - 1] + 1 == #[trigger] pos.take(
                k,
            )[l] by {
                if l < k - 1 {
                    assert(contiguous(pos.take(k - 1)));
                    assert(pos.take(k - 1)[l] == pos[l]);
                    assert(pos.take(k - 1)[l - 1] == pos[l - 1]);
                }
            }
        }
    } else {
        lemma_max_score_zero();
    }
}

/// A candidate that holds the query as one block scores the most.
proof fn lemma_block_scores_most(q: Seq<char>, t: Seq<char>, at: int)
    requires
        q.len() > 0,
        occurs_at(q, t, at),
    ensures
        best_score(q, t, q.len() as int, t.len() as int) == max_score(q.len()),
{
    let n = q.len() as int;
    let m = t.len() as int;
    lemma_cell_bounds(q, t, n, m);
    lemma_block_diagonal(q, t, at, n);
    lemma_row_rises(q, t, n, at + n, m);
}

/// Positions that embed the query as one block show where it stands.
proof fn lemma_block_occurs(q: Seq<char>, t: Seq<char>, pos: Seq<int>)
    requires
        q.len() > 0,
        embeds(q, t, pos),
        contiguous(pos),
    ensures
        occurs_at(q, t, pos[0]),
{
    let n = q.len() as int;
    assert forall|k: int| 0 <= k < n implies t[pos[0] + k] == q[k] by {
        lemma_block_positions(pos, k);
        assert(t[pos[k]] == q[k]);
    }
    lemma_block_positions(pos, n - 1);
    assert(0 <= pos[n - 1] < t.len());
    assert(0 <= pos[0]);
}

/// A candidate that holds the query as one block scores the most that a
/// query of this length can score, and only such a candidate does. The
/// positions reported for it form one block.
pub proof fn lemma_contiguous_scores_most(
    q: Seq<char>,
    t: Seq<char>,
    original: Seq<char>,
    max_len: nat,
)
    ensures
        matching(q, t, original, max_len) matches Some(m) ==> {
            &&& m.score <= max_score(q.len())
            &&& m.score == max_score(q.len()) <==> exists|at: int| occurs_at(q, t, at)
            &&& m.score == max_score(q.len()) ==> contiguous(m.matches)
        },
{
    if matchable(q, t, max_len) {
        let n = q.len() as int;
        let m = t.len() as int;
        let pos = positions(q, t);
        let score = best_score(q, t, n, m);
        lemma_cell_bounds(q, t, n, m);
        if score == max_score(n as nat) {
            lemma_score_of_positions(q, t, original, max_len);
            lemma_alignment_bound(pos, n);
            assert(pos.take(n) == pos);
            lemma_matching_well_formed(q, t, original, max_len);
            lemma_block_occurs(q, t, pos);
        }
        if exists|at: int| occurs_at(q, t, at) {
            let at = choose|at: int| occurs_at(q, t, at);
            lemma_block_scores_most(q, t, at);
        }
    }
}

/// In one block, every position lies its index behind the first.
proof fn lemma_block_positions(pos: Seq<int>, k: int)
    requires
        contiguous(pos),
        0 <= k < pos.len(),
    ensures
        pos[k] == pos[0] + k,
    decreases k,
{
    if k > 0 {
        lemma_block_positions(pos, k - 1);
    }
}

/// A query matches exactly when both folded strings are non-empty and within
/// the limit and the folded query is a subsequence of the folded candidate.
pub proof fn lemma_match_iff_subsequence(search: Seq<char>, target: Seq<char>, max_len: nat)
    ensures
        comparison(search, target, max_len) is Some <==> search.len() > 0 && target.len() > 0
            && matchable(folded(search), folded(target), max_len),
        !is_subsequence(folded(search), folded(target)) ==> comparison(search, target, max_len)
            is None,
        search.len() == 0 || target.len() == 0 ==> comparison(search, target, max_len) is None,
{
}

/// Strings with the same folded forms compare alike: the score and the
/// positions depend on the query and the candidate only through their folded
/// forms.
pub proof fn lemma_case_insensitive(
    search: Seq<char>,
    target: Seq<char>,
    other_search: Seq<char>,
    other_target: Seq<char>,
    max_len: nat,
)
    requires
        search.len() > 0,
        target.len() > 0,
        other_search.len() > 0,
        other_target.len() > 0,
        folded(search) == folded(other_search),
        folded(target) == folded(other_target),
    ensures
        comparison(search, target, max_len) is Some <==> comparison(
            other_search,
            other_target,
            max_len,
        ) is Some,
        comparison(search, target, max_len) matches Some(m) ==> {
            &&& comparison(other_search, other_target, max_len)->0.score == m.score
            &&& comparison(other_search, other_target, max_len)->0.matches == m.matches
        },
{
}

/// Comparing is a function of its inputs: two answers to the same question
/// are the same.
pub proof fn lemma_deterministic(
    search: Seq<char>,
    target: Seq<char>,
    max_len: nat,
    first: Option<MatchView>,
    second: Option<MatchView>,
)
    requires
        first == comparison(search, target, max_len),
        second == comparison(search, target, max_len),
    ensures
        first == second,
{
}

} // verus!
