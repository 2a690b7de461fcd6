//! Subsequence-based approximate string matching.
//!
//! A query matches a candidate when every character of the query occurs in
//! the candidate in the same relative order, compared case-insensitively.
//! Matches are scored so that contiguous runs are preferred, and the matched
//! positions are reported for highlighting.

pub mod backtrack;
pub mod fold;
pub mod laws;
pub mod score;
pub mod subsequence;

use crate::matcher::backtrack::{backtrack, lemma_positions_embed, positions};
use crate::matcher::fold::{fold, folded};
use crate::matcher::score::{best_score, lemma_positive_iff_subsequence, ScoreTable, LENGTH_LIMIT};
use crate::matcher::subsequence::{embeds, fast_check, is_subsequence};
use vstd::prelude::*;
use vstd::string::StrSliceExecFns;

verus! {

/// The longest query or candidate, in folded codepoints, that [`compare`]
/// looks at.
pub const DEFAULT_MAX_LENGTH: usize = 1000;

/// What a match says, as plain values.
pub struct MatchView {
    /// The relevance score; higher is better.
    pub score: nat,
    /// The text that the positions refer to.
    pub target: Seq<char>,
    /// For each query character the codepoint position it was matched at.
    pub matches: Seq<int>,
}

/// A successful match of a query against a candidate.
pub struct MatchResult {
    score: u32,
    target: String,
    matches: Vec<usize>,
}

impl View for MatchResult {
    type V = MatchView;

    closed spec fn view(&self) -> MatchView {
        MatchView {
            score: self.score as nat,
            target: self.target@,
            matches: self.matches@.map_values(|p: usize| p as int),
        }
    }
}

/// What holds of every match: a positive score, and positions that are
/// strictly increasing and inside the text that is shown.
pub open spec fn sound(m: MatchView) -> bool {
    &&& m.score > 0
    &&& forall|k: int| 0 <= k < m.matches.len() ==> 0 <= #[trigger] m.matches[k] < m.target.len()
    &&& forall|k: int, l: int| 0 <= k < l < m.matches.len() ==> m.matches[k] < m.matches[l]
}

impl MatchResult {
    #[verifier::type_invariant]
    spec fn inv(self) -> bool {
        sound(self@)
    }

    /// The relevance score of the match.
    pub fn score(&self) -> (score: u32)
        ensures
            score == self@.score,
            sound(self@),
    {
        proof {
            use_type_invariant(self);
        }
        self.score
    }

    /// The text that the matched positions index into.
    pub fn target(&self) -> (target: &str)
        ensures
            target@ == self@.target,
            sound(self@),
    {
        proof {
            use_type_invariant(self);
        }
        self.target.as_str()
    }

    /// The matched codepoint positions, one per query character.
    pub fn matches(&self) -> (matches: &[usize])
        ensures
            matches@.map_values(|p: usize| p as int) == self@.matches,
            sound(self@),
    {
        proof {
            use_type_invariant(self);
        }
        self.matches.as_slice()
    }

    /// For every codepoint of the shown text, whether it is one of the
    /// matched positions.
    pub fn highlights(&self) -> (mask: Vec<bool>)
        ensures
            mask@.len() == self@.target.len(),
            forall|i: int| 0 <= i < mask@.len() ==> mask@[i] == self@.matches.contains(i),
    {
        proof {
            use_type_invariant(self);
        }
        let ghost positions = self@.matches;
        let count = self.target.as_str().unicode_len();
        let mut mask: Vec<bool> = Vec::new();
        let mut next: usize = 0;
        let mut index: usize = 0;
        while index < count
            invariant
                positions == self@.matches,
                positions == self.matches@.map_values(|p: usize| p as int),
                sound(self@),
                count == self@.target.len(),
                index <= count,
                mask@.len() == index,
                next <= positions.len(),
                forall|k: int| 0 <= k < next ==> positions[k] < index,
                forall|k: int| next <= k < positions.len() ==> index <= positions[k],
                forall|i: int| 0 <= i < index ==> mask@[i] == positions.contains(i),
            decreases count - index,
        {
            let hit = next < self.matches.len() && self.matches[next] == index;
            proof {
                if hit {
                    assert(positions[next as int] == index);
                } else {
                    assert forall|k: int| 0 <= k < positions.len() implies positions[k]
                        != index by {
                        if k > next {
                            assert(positions[next as int] < positions[k]);
                        }
                    }
                }
            }
            if hit {
                assert forall|k: int| next + 1 <= k < positions.len() implies index + 1
                    <= positions[k] by {
                    assert(positions[next as int] < positions[k]);
                }
                next += 1;
            }
            mask.push(hit);
            index += 1;
        }
        mask
    }
}

/// The view of an optional match.
pub open spec fn outcome_view(r: Option<MatchResult>) -> Option<MatchView> {
    match r {
        Some(m) => Some(m@),
        None => None,
    }
}

/// Whether the folded query `q` matches the folded candidate `t`: both are
/// non-empty, neither is longer than `max_len`, and `q` is a subsequence of
/// `t`.
pub open spec fn matchable(q: Seq<char>, t: Seq<char>, max_len: nat) -> bool {
    &&& 0 < q.len() <= max_len
    &&& 0 < t.len() <= max_len
    &&& is_subsequence(q, t)
}

/// The text that a match of the folded candidate `t` is shown on: the
/// original text where folding kept the number of codepoints, else `t`.
pub open spec fn shown_target(t: Seq<char>, original: Seq<char>) -> Seq<char> {
    if t.len() == original.len() {
        original
    } else {
        t
    }
}

/// The match of the folded query `q` against the folded candidate `t`, whose
/// text before folding was `original`.
pub open spec fn matching(q: Seq<char>, t: Seq<char>, original: Seq<char>, max_len: nat) -> Option<
    MatchView,
> {
    if matchable(q, t, max_len) {
        Some(
            MatchView {
                score: best_score(q, t, q.len() as int, t.len() as int),
                target: shown_target(t, original),
                matches: positions(q, t),
            },
        )
    } else {
        None
    }
}

/// What comparing `search` with `target` gives: nothing for an empty string,
/// and otherwise the match of their folded forms.
pub open spec fn comparison(search: Seq<char>, target: Seq<char>, max_len: nat) -> Option<
    MatchView,
> {
    if search.len() == 0 || target.len() == 0 {
        None
    } else {
        matching(folded(search), folded(target), target, max_len)
    }
}

/// Whether `m` is a sound answer for a folded query `q`: a positive score,
/// and one position per query character, the positions strictly increasing
/// and inside the text that is shown.
pub open spec fn well_formed(m: MatchView, q: Seq<char>) -> bool {
    &&& sound(m)
    &&& m.matches.len() == q.len()
}

/// Every match is well formed: its score is positive, and its positions are
/// one per query character, strictly increasing and inside the shown text.
/// At each position the folded candidate holds the query's character.
pub proof fn lemma_matching_well_formed(
    q: Seq<char>,
    t: Seq<char>,
    original: Seq<char>,
    max_len: nat,
)
    ensures
        matching(q, t, original, max_len) matches Some(m) ==> well_formed(m, q) && embeds(
            q,
            t,
            m.matches,
        ),
{
    if matchable(q, t, max_len) {
        let n = q.len() as int;
        let m = t.len() as int;
        lemma_positive_iff_subsequence(q, t, n, m);
        assert(q.take(n) == q);
        assert(t.take(m) == t);
        lemma_positions_embed(q, t);
    }
}

/// Calls `String::from_iter` on the given codepoints: the string it builds
/// holds exactly these characters, in order.
#[verifier::external_body]
fn string_of(chars: &[char]) -> (s: String)
    ensures
        s@ == chars@,
{
    String::from_iter(chars)
}

/// Matches an already folded query against an already folded candidate.
///
/// `original_target` is the candidate before folding; it is the text of the
/// result where folding did not change the number of codepoints.
pub fn compare_folded(
    search: &[char],
    target: &[char],
    original_target: &str,
    max_len: usize,
) -> (r: Option<MatchResult>)
    requires
        max_len <= LENGTH_LIMIT,
    ensures
        outcome_view(r) == matching(search@, target@, original_target@, max_len as nat),
        r matches Some(m) ==> well_formed(m@, search@),
{
    let n = search.len();
    let m = target.len();
    if n == 0 || m == 0 {
        return None;
    }
    if n > max_len || m > max_len {
        return None;
    }
    if !fast_check(search, target) {
        return None;
    }
    let table = ScoreTable::build(search, target);
    let score = table.score_at(n, m);
    proof {
        lemma_positive_iff_subsequence(search@, target@, n as int, m as int);
        assert(search@.take(n as int) == search@);
        assert(target@.take(m as int) == target@);
        lemma_matching_well_formed(search@, target@, original_target@, max_len as nat);
    }
    if score == 0 {
        return None;
    }
    let matches = backtrack(&table);
    let shown = if m != original_target.unicode_len() {
        string_of(target)
    } else {
        original_target.to_owned()
    };
    Some(MatchResult { score, target: shown, matches })
}

/// Compares `search` with `target`, looking at no more than `max_len` folded
/// codepoints of either: longer strings do not match.
pub fn compare_with_limit(search: &str, target: &str, max_len: usize) -> (r: Option<MatchResult>)
    requires
        max_len <= LENGTH_LIMIT,
    ensures
        outcome_view(r) == comparison(search@, target@, max_len as nat),
        search@.len() == 0 || target@.len() == 0 ==> r is None,
        !is_subsequence(folded(search@), folded(target@)) ==> r is None,
        r matches Some(m) ==> well_formed(m@, folded(search@)),
{
    if search.is_empty() || target.is_empty() {
        return None;
    }
    let folded_search = fold(search);
    let folded_target = fold(target);
    compare_folded(folded_search.as_slice(), folded_target.as_slice(), target, max_len)
}

/// Compares the two given strings by searching for `search` in `target`.
///
/// The comparison is case-insensitive, and `search` does not have to be
/// contained in `target` contiguously, but its characters have to appear in
/// the right order. The score is higher for longer contiguous sections of
/// `search` in `target`.
pub fn compare(search: &str, target: &str) -> (r: Option<MatchResult>)
    ensures
        outcome_view(r) == comparison(search@, target@, DEFAULT_MAX_LENGTH as nat),
        search@.len() == 0 || target@.len() == 0 ==> r is None,
        !is_subsequence(folded(search@), folded(target@)) ==> r is None,
        r matches Some(m) ==> well_formed(m@, folded(search@)),
{
    compare_with_limit(search, target, DEFAULT_MAX_LENGTH)
}

} // verus!
