//! Ranking of named candidates against a search string.
//!
//! Every candidate is compared with the search string. The candidates that
//! match are ordered by descending score; candidates with the same score
//! stay in the order in which they were given.

use crate::matcher::{compare, comparison, MatchResult, MatchView, DEFAULT_MAX_LENGTH};
use vstd::prelude::*;

verus! {

/// A name to search in, with the number that identifies what it names.
pub struct Candidate {
    pub id: usize,
    pub name: String,
}

/// A candidate that matched.
pub struct Hit {
    pub result: MatchResult,
    pub id: usize,
}

/// What a hit says, as plain values.
pub struct HitView {
    pub result: MatchView,
    pub id: usize,
}

impl View for Hit {
    type V = HitView;

    open spec fn view(&self) -> HitView {
        HitView { result: self.result@, id: self.id }
    }
}

/// The views of a list of hits.
pub open spec fn hits_view(hits: Seq<Hit>) -> Seq<HitView> {
    hits.map_values(|hit: Hit| hit@)
}

/// The hits among `candidates`, in their order: the first `limit` candidates
/// whose name matches `search`.
pub open spec fn matching_hits(search: Seq<char>, candidates: Seq<Candidate>, limit: nat) -> Seq<
    HitView,
>
    decreases candidates.len(),
{
    if candidates.len() == 0 {
        Seq::empty()
    } else {
        let before = matching_hits(search, candidates.drop_last(), limit);
        let last = candidates.last();
        match comparison(search, last.name@, DEFAULT_MAX_LENGTH as nat) {
            Some(result) if before.len() < limit => before.push(HitView { result, id: last.id }),
            _ => before,
        }
    }
}

/// Where a hit with the given score goes into `ranked`, looking from index
/// `from` on: behind every hit that scores at least as much.
pub open spec fn insertion_point(ranked: Seq<HitView>, score: nat, from: int) -> int
    decreases ranked.len() - from,
{
    if 0 <= from < ranked.len() && ranked[from].result.score >= score {
        insertion_point(ranked, score, from + 1)
    } else {
        from
    }
}

/// The hits ordered by descending score, hits of one score in their order.
pub open spec fn ranked(hits: Seq<HitView>) -> Seq<HitView>
    decreases hits.len(),
{
    if hits.len() == 0 {
        Seq::empty()
    } else {
        let before = ranked(hits.drop_last());
        before.insert(insertion_point(before, hits.last().result.score, 0), hits.last())
    }
}

/// Whether the scores never rise along `hits`.
pub open spec fn descending(hits: Seq<HitView>) -> bool {
    forall|i: int, j: int| 0 <= i < j < hits.len() ==> hits[i].result.score >= hits[j].result.score
}

/// The insertion point lies between `from` and the end; every hit from
/// `from` up to it scores at least `score`, and the hit at it scores less.
pub proof fn lemma_insertion_point(ranked: Seq<HitView>, score: nat, from: int)
    requires
        0 <= from <= ranked.len(),
    ensures
        from <= insertion_point(ranked, score, from) <= ranked.len(),
        forall|k: int|
            from <= k < insertion_point(ranked, score, from) ==> (#[trigger] ranked[k]).result.score
                >= score,
        insertion_point(ranked, score, from) < ranked.len() ==> ranked[insertion_point(
            ranked,
            score,
            from,
        )].result.score < score,
    decreases ranked.len() - from,
{
    if from < ranked.len() && ranked[from].result.score >= score {
        lemma_insertion_point(ranked, score, from + 1);
    }
}

/// Ranking keeps every hit, and nothing else.
pub proof fn lemma_ranked_permutes(hits: Seq<HitView>)
    ensures
        ranked(hits).len() == hits.len(),
        ranked(hits).to_multiset() == hits.to_multiset(),
    decreases hits.len(),
{
    broadcast use vstd::seq_lib::group_to_multiset_ensures;

    if hits.len() > 0 {
        let before = ranked(hits.drop_last());
        let last = hits.last();
        lemma_ranked_permutes(hits.drop_last());
        let at = insertion_point(before, last.result.score, 0);
        lemma_insertion_point(before, last.result.score, 0);
        vstd::seq_lib::to_multiset_insert(before, at, last);
        assert(hits == hits.drop_last().push(last));
        assert(ranked(hits).to_multiset() =~= hits.to_multiset());
    }
}

/// Ranking orders the hits by descending score.
pub proof fn lemma_ranked_descending(hits: Seq<HitView>)
    ensures
        descending(ranked(hits)),
    decreases hits.len(),
{
    if hits.len() > 0 {
        let before = ranked(hits.drop_last());
        let last = hits.last();
        lemma_ranked_descending(hits.drop_last());
        let at = insertion_point(before, last.result.score, 0);
        lemma_insertion_point(before, last.result.score, 0);
        let after = before.insert(at, last);
        assert forall|i: int, j: int| 0 <= i < j < after.len() implies after[i].result.score
            >= after[j].result.score by {
            if j < at {
                assert(after[i] == before[i] && after[j] == before[j]);
            } else if j == at {
                assert(after[i] == before[i]);
            } else if i < at {
                assert(after[i] == before[i] && after[j] == before[j - 1]);
            } else if i == at {
                assert(after[j] == before[j - 1]);
                assert(before[at].result.score >= before[j - 1].result.score || at == j - 1);
            } else {
                assert(after[i] == before[i - 1] && after[j] == before[j - 1]);
            }
        }
    }
}

/// Ranking is stable: the hits of any one score stand in the order in which
/// they were given.
pub proof fn lemma_ranked_stable(hits: Seq<HitView>, score: nat)
    ensures
        ranked(hits).filter(|hit: HitView| hit.result.score == score) == hits.filter(
            |hit: HitView| hit.result.score == score,
        ),
    decreases hits.len(),
{
    let same = |hit: HitView| hit.result.score == score;
    if hits.len() == 0 {
    } else {
        let shorter = hits.drop_last();
        let before = ranked(shorter);
        let last = hits.last();
        lemma_ranked_stable(shorter, score);
        lemma_ranked_descending(shorter);
        let at = insertion_point(before, last.result.score, 0);
        lemma_insertion_point(before, last.result.score, 0);
        let head = before.subrange(0, at);
        let tail = before.subrange(at, before.len() as int);
        assert(before == head + tail);
        assert(before.insert(at, last) == head + seq![last] + tail);
        assert(hits == shorter + seq![last]);
        Seq::filter_distributes_over_add(head, tail, same);
        Seq::filter_distributes_over_add(head + seq![last], tail, same);
        Seq::filter_distributes_over_add(head, seq![last], same);
        Seq::filter_distributes_over_add(shorter, seq![last], same);
        reveal(Seq::filter);
        assert(seq![last].drop_last() == Seq::<HitView>::empty());
        if last.result.score == score {
            // Everything behind the insertion point scores less.
            assert forall|k: int| 0 <= k < tail.len() implies !same(#[trigger] tail[k]) by {
                assert(tail[k] == before[at + k]);
                assert(before[at].result.score < score);
            }
            lemma_filter_none(tail, same);
            assert(tail.filter(same) == Seq::<HitView>::empty());
            assert(seq![last].filter(same) == seq![last]);
        } else {
            assert(seq![last].filter(same) == Seq::<HitView>::empty());
        }
    }
}

/// A filter that nothing passes leaves nothing.
proof fn lemma_filter_none(s: Seq<HitView>, pred: spec_fn(HitView) -> bool)
    requires
        forall|k: int| 0 <= k < s.len() ==> !pred(#[trigger] s[k]),
    ensures
        s.filter(pred) == Seq::<HitView>::empty(),
    decreases s.len(),
{
    reveal(Seq::filter);
    if s.len() > 0 {
        assert forall|k: int| 0 <= k < s.drop_last().len() implies !pred(
            #[trigger] s.drop_last()[k],
        ) by {
            assert(s.drop_last()[k] == s[k]);
        }
        lemma_filter_none(s.drop_last(), pred);
    }
}

/// Compares every candidate with `search` and ranks the first `limit` that
/// match: the best score first, and equal scores in the order given.
pub fn rank(search: &str, candidates: &Vec<Candidate>, limit: usize) -> (hits: Vec<Hit>)
    ensures
        hits_view(hits@) == ranked(matching_hits(search@, candidates@, limit as nat)),
        hits@.len() <= limit,
        hits@.len() <= candidates@.len(),
        descending(hits_view(hits@)),
{
    let mut hits: Vec<Hit> = Vec::new();
    let mut index: usize = 0;
    while index < candidates.len()
        invariant
            index <= candidates@.len(),
            hits@.len() == matching_hits(search@, candidates@.take(index as int), limit as nat).len(),
            hits@.len() <= limit,
            hits@.len() <= index,
            hits_view(hits@) == ranked(
                matching_hits(search@, candidates@.take(index as int), limit as nat),
            ),
        decreases candidates@.len() - index,
    {
        let candidate = &candidates[index];
        let ghost found = matching_hits(search@, candidates@.take(index as int), limit as nat);
        proof {
            assert(candidates@.take(index + 1).drop_last() == candidates@.take(index as int));
            assert(candidates@.take(index + 1).last() == *candidate);
        }
        if hits.len() < limit {
            if let Some(result) = compare(search, candidate.name.as_str()) {
                let hit = Hit { result, id: candidate.id };
                let at = place_of(&hits, hit.result.score());
                proof {
                    lemma_ranked_permutes(found);
                    assert(hits_view(hits@.insert(at as int, hit)) =~= hits_view(hits@).insert(
                        at as int,
                        hit@,
                    ));
                    assert(found.push(hit@).drop_last() == found);
                }
                hits.insert(at, hit);
            }
        }
        index += 1;
    }
    proof {
        assert(candidates@.take(candidates@.len() as int) == candidates@);
        lemma_ranked_descending(matching_hits(search@, candidates@, limit as nat));
    }
    hits
}

/// Finds where a hit with the given score goes into the ranked hits.
fn place_of(hits: &Vec<Hit>, score: u32) -> (at: usize)
    ensures
        at == insertion_point(hits_view(hits@), score as nat, 0),
        at <= hits@.len(),
{
    let mut at: usize = 0;
    while at < hits.len() && hits[at].result.score() >= score
        invariant
            at <= hits@.len(),
            insertion_point(hits_view(hits@), score as nat, at as int) == insertion_point(
                hits_view(hits@),
                score as nat,
                0,
            ),
        decreases hits@.len() - at,
    {
        at += 1;
    }
    at
}

} // verus!
