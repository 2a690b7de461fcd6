//! Recovery of the matched positions from the filled score tables.
//!
//! The rows are walked from the last query character to the first. In each
//! row a cursor moves left from where the row above stopped, until it stands
//! on the column whose candidate character is matched.

use crate::matcher::score::{best_score, run_length, ScoreTable};
use crate::matcher::subsequence::embeds;
use vstd::prelude::*;

verus! {

/// Whether the walk in row `i` moves on to the left of column `j`, having
/// entered the row in column `start`.
///
/// It does where column `j` ends no run. It also does where the column to the
/// left scores the same, except on entering a row other than the last: there
/// the column continues the run of the row below and is kept.
pub open spec fn moves_left(q: Seq<char>, t: Seq<char>, i: int, j: int, start: int) -> bool {
    ||| run_length(q, t, i, j) == 0
    ||| (j > 1 && best_score(q, t, i, j - 1) == best_score(q, t, i, j) && (i == q.len() || j
        != start))
}

/// The column in which the walk in row `i` comes to rest, starting from
/// column `j`, having entered the row in column `start`.
pub open spec fn settle(q: Seq<char>, t: Seq<char>, i: int, j: int, start: int) -> int
    decreases j,
{
    if j > 0 && moves_left(q, t, i, j, start) {
        settle(q, t, i, j - 1, start)
    } else {
        j
    }
}

/// The column in which the walk enters row `i`: the last column for the last
/// row, and otherwise the column left of the one matched in the row below.
pub open spec fn start_column(q: Seq<char>, t: Seq<char>, i: int) -> int
    decreases q.len() - i, 0int,
{
    if i >= q.len() {
        t.len() as int
    } else {
        stop_column(q, t, i + 1) - 1
    }
}

/// The column matched in row `i`.
pub open spec fn stop_column(q: Seq<char>, t: Seq<char>, i: int) -> int
    decreases q.len() - i, 1int,
{
    settle(q, t, i, start_column(q, t, i), start_column(q, t, i))
}

/// The position in `t` that is reported for each character of `q`.
pub open spec fn positions(q: Seq<char>, t: Seq<char>) -> Seq<int> {
    Seq::new(q.len(), |k: int| stop_column(q, t, k + 1) - 1)
}

/// From a column with a positive score the walk comes to rest on a column of
/// the same score whose character is matched, and whose diagonal neighbour
/// scores too unless the row is the first.
pub proof fn lemma_settle(q: Seq<char>, t: Seq<char>, i: int, j: int, start: int)
    requires
        1 <= i <= q.len(),
        0 <= j <= t.len(),
        best_score(q, t, i, j) > 0,
    ensures
        1 <= settle(q, t, i, j, start) <= j,
        best_score(q, t, i, settle(q, t, i, j, start)) == best_score(q, t, i, j),
        run_length(q, t, i, settle(q, t, i, j, start)) > 0,
        q[i - 1] == t[settle(q, t, i, j, start) - 1],
        i > 1 ==> best_score(q, t, i - 1, settle(q, t, i, j, start) - 1) > 0,
    decreases j,
{
    if moves_left(q, t, i, j, start) {
        lemma_settle(q, t, i, j - 1, start);
    }
}

/// With a positive final score, the walk enters every row on a column with a
/// positive score and matches a column to the left of the one matched below.
pub proof fn lemma_walk(q: Seq<char>, t: Seq<char>, i: int)
    requires
        1 <= i <= q.len(),
        best_score(q, t, q.len() as int, t.len() as int) > 0,
    ensures
        0 <= start_column(q, t, i) <= t.len(),
        best_score(q, t, i, start_column(q, t, i)) > 0,
        1 <= stop_column(q, t, i) <= start_column(q, t, i),
        q[i - 1] == t[stop_column(q, t, i) - 1],
        i < q.len() ==> stop_column(q, t, i) < stop_column(q, t, i + 1),
    decreases q.len() - i,
{
    if i < q.len() {
        lemma_walk(q, t, i + 1);
        let below = start_column(q, t, i + 1);
        lemma_settle(q, t, i + 1, below, below);
    }
    let start = start_column(q, t, i);
    lemma_settle(q, t, i, start, start);
}

/// The matched columns grow with the rows.
pub proof fn lemma_stop_columns_increase(q: Seq<char>, t: Seq<char>, i: int, k: int)
    requires
        1 <= i < k <= q.len(),
        best_score(q, t, q.len() as int, t.len() as int) > 0,
    ensures
        stop_column(q, t, i) < stop_column(q, t, k),
    decreases k - i,
{
    lemma_walk(q, t, i);
    if i + 1 < k {
        lemma_stop_columns_increase(q, t, i + 1, k);
    }
}

/// With a positive final score, the reported positions place every character
/// of the query on an equal character of the candidate, in increasing order.
pub proof fn lemma_positions_embed(q: Seq<char>, t: Seq<char>)
    requires
        best_score(q, t, q.len() as int, t.len() as int) > 0,
    ensures
        embeds(q, t, positions(q, t)),
{
    let pos = positions(q, t);
    assert forall|k: int| 0 <= k < pos.len() implies 0 <= #[trigger] pos[k] < t.len() && t[pos[k]]
        == q[k] by {
        lemma_walk(q, t, k + 1);
    }
    assert forall|k: int, l: int| 0 <= k < l < pos.len() implies pos[k] < pos[l] by {
        lemma_stop_columns_increase(q, t, k + 1, l + 1);
    }
}

/// Decides whether the walk in row `i` moves on to the left of column `j`.
fn leaves_column(table: &ScoreTable, i: usize, j: usize, start: usize) -> (moving: bool)
    requires
        table.wf(),
        1 <= i <= table.query().len(),
        j <= table.target().len(),
    ensures
        moving == moves_left(table.query(), table.target(), i as int, j as int, start as int),
{
    if table.run_at(i, j) == 0 {
        return true;
    }
    let last_row = i == table.query_len();
    j > 1 && table.score_at(i, j - 1) == table.score_at(i, j) && (last_row || j != start)
}

/// Walks the filled tables and reports the matched position of every query
/// character.
pub fn backtrack(table: &ScoreTable) -> (matches: Vec<usize>)
    requires
        table.wf(),
        best_score(
            table.query(),
            table.target(),
            table.query().len() as int,
            table.target().len() as int,
        ) > 0,
    ensures
        matches@.map_values(|p: usize| p as int) == positions(table.query(), table.target()),
{
    let ghost q = table.query();
    let ghost t = table.target();
    let n = table.query_len();
    let m = table.target_len();
    let mut matches: Vec<usize> = vec![0usize; n];
    let mut target_index: usize = m;
    let mut search_index: usize = n;
    while search_index > 0
        invariant
            table.wf(),
            q == table.query(),
            t == table.target(),
            n == q.len(),
            m == t.len(),
            best_score(q, t, n as int, m as int) > 0,
            search_index <= n,
            matches.len() == n,
            search_index > 0 ==> target_index == start_column(q, t, search_index as int),
            forall|k: int| search_index <= k < n ==> matches@[k] == stop_column(q, t, k + 1) - 1,
        decreases search_index,
    {
        let start = target_index;
        proof {
            lemma_walk(q, t, search_index as int);
        }
        while leaves_column(table, search_index, target_index, start)
            invariant
                table.wf(),
                q == table.query(),
                t == table.target(),
                1 <= search_index <= q.len(),
                target_index <= start <= t.len(),
                best_score(q, t, search_index as int, target_index as int) > 0,
                settle(q, t, search_index as int, target_index as int, start as int) == settle(
                    q,
                    t,
                    search_index as int,
                    start as int,
                    start as int,
                ),
            decreases target_index,
        {
            target_index -= 1;
        }
        proof {
            lemma_settle(q, t, search_index as int, target_index as int, start as int);
        }
        target_index -= 1;
        matches.set(search_index - 1, target_index);
        search_index -= 1;
    }
    proof {
        assert(matches@.map_values(|p: usize| p as int) =~= positions(q, t));
    }
    matches
}

} // verus!
