//! The subsequence relation between codepoint sequences, and a linear-time
//! check for it.

use vstd::prelude::*;

verus! {

/// `pos` places every character of `q` on an equal character of `t`, in
/// strictly increasing order of position.
pub open spec fn embeds(q: Seq<char>, t: Seq<char>, pos: Seq<int>) -> bool {
    &&& pos.len() == q.len()
    &&& forall|k: int| 0 <= k < pos.len() ==> 0 <= #[trigger] pos[k] < t.len() && t[pos[k]] == q[k]
    &&& forall|k: int, l: int| 0 <= k < l < pos.len() ==> pos[k] < pos[l]
}

/// `q` is a subsequence of `t`: its characters appear in `t` in the same
/// order, not necessarily next to each other.
pub open spec fn is_subsequence(q: Seq<char>, t: Seq<char>) -> bool {
    exists|pos: Seq<int>| embeds(q, t, pos)
}

/// The `k`-th position of an embedding is at least `k`.
pub proof fn lemma_embedding_lower_bound(q: Seq<char>, t: Seq<char>, pos: Seq<int>, k: int)
    requires
        embeds(q, t, pos),
        0 <= k < pos.len(),
    ensures
        k <= pos[k],
    decreases k,
{
    if k > 0 {
        lemma_embedding_lower_bound(q, t, pos, k - 1);
    }
}

/// A subsequence is never longer than the sequence it is found in.
pub proof fn lemma_subsequence_length(q: Seq<char>, t: Seq<char>)
    requires
        is_subsequence(q, t),
    ensures
        q.len() <= t.len(),
{
    let pos = choose|pos: Seq<int>| embeds(q, t, pos);
    if q.len() > 0 {
        lemma_embedding_lower_bound(q, t, pos, q.len() - 1);
    }
}

/// The empty sequence is a subsequence of every sequence.
pub proof fn lemma_empty_is_subsequence(q: Seq<char>, t: Seq<char>)
    requires
        q.len() == 0,
    ensures
        is_subsequence(q, t),
{
    assert(embeds(q, t, Seq::<int>::empty()));
}

/// Dropping the last character of a subsequence leaves a subsequence.
pub proof fn lemma_subsequence_shorter(q: Seq<char>, t: Seq<char>)
    requires
        q.len() > 0,
        is_subsequence(q, t),
    ensures
        is_subsequence(q.drop_last(), t),
{
    let pos = choose|pos: Seq<int>| embeds(q, t, pos);
    assert(embeds(q.drop_last(), t, pos.drop_last())) by {
        assert forall|k: int| 0 <= k < pos.drop_last().len() implies 0 <= #[trigger] pos.drop_last()[k]
            < t.len() && t[pos.drop_last()[k]] == q.drop_last()[k] by {
            assert(pos[k] == pos.drop_last()[k]);
        }
    }
}

/// The subsequence relation, read off from the last characters: either the
/// two last characters are matched with each other, or the last character of
/// `t` is not needed.
pub proof fn lemma_subsequence_unfold(q: Seq<char>, t: Seq<char>)
    requires
        q.len() > 0,
        t.len() > 0,
    ensures
        is_subsequence(q, t) <==> (q.last() == t.last() && is_subsequence(
            q.drop_last(),
            t.drop_last(),
        )) || is_subsequence(q, t.drop_last()),
{
    let n = q.len() as int;
    let m = t.len() as int;
    if is_subsequence(q, t) {
        let pos = choose|pos: Seq<int>| embeds(q, t, pos);
        if pos[n - 1] == m - 1 {
            assert(embeds(q.drop_last(), t.drop_last(), pos.drop_last())) by {
                assert forall|k: int| 0 <= k < n - 1 implies 0 <= #[trigger] pos.drop_last()[k] < m
                    - 1 && t.drop_last()[pos.drop_last()[k]] == q.drop_last()[k] by {
                    assert(pos[k] < pos[n - 1]);
                }
            }
        } else {
            assert(embeds(q, t.drop_last(), pos));
        }
    }
    if q.last() == t.last() && is_subsequence(q.drop_last(), t.drop_last()) {
        let pos = choose|pos: Seq<int>| embeds(q.drop_last(), t.drop_last(), pos);
        assert(embeds(q, t, pos.push(m - 1)));
    }
    if is_subsequence(q, t.drop_last()) {
        let pos = choose|pos: Seq<int>| embeds(q, t.drop_last(), pos);
        assert(embeds(q, t, pos));
    }
}

/// Checks in one forward pass whether `search` is a subsequence of `target`.
pub fn fast_check(search: &[char], target: &[char]) -> (found: bool)
    ensures
        found == is_subsequence(search@, target@),
{
    let n = search.len();
    let m = target.len();
    if n > m {
        proof {
            if is_subsequence(search@, target@) {
                lemma_subsequence_length(search@, target@);
            }
        }
        return false;
    }
    let ghost mut placed: Seq<int> = Seq::empty();
    let mut target_index: usize = 0;
    let mut search_index: usize = 0;
    while search_index < n
        invariant
            n == search.len(),
            m == target.len(),
            search_index <= n,
            target_index <= m,
            search_index == 0 ==> target_index == 0,
            embeds(search@.take(search_index as int), target@.take(target_index as int), placed),
            forall|pos: Seq<int>| #[trigger]
                embeds(search@.take(search_index as int), target@, pos) && search_index > 0
                    ==> target_index <= pos[search_index - 1] + 1,
        decreases n - search_index,
    {
        let search_char = search[search_index];
        let ghost start = target_index;
        while target_index < m && target[target_index] != search_char
            invariant
                m == target.len(),
                start <= target_index <= m,
                forall|k: int| start <= k < target_index ==> target@[k] != search_char,
            decreases m - target_index,
        {
            target_index += 1;
        }
        proof {
            // Every embedding of the longer prefix places its last character
            // at or after the cursor.
            assert forall|pos: Seq<int>| #[trigger]
                embeds(search@.take(search_index + 1), target@, pos) implies target_index
                <= pos[search_index as int] by {
                let shorter = pos.drop_last();
                assert(embeds(search@.take(search_index as int), target@, shorter)) by {
                    assert forall|k: int| 0 <= k < shorter.len() implies 0 <= #[trigger] shorter[k]
                        < target@.len() && target@[shorter[k]] == search@.take(
                        search_index as int,
                    )[k] by {
                        assert(pos[k] == shorter[k]);
                        assert(search@.take(search_index + 1)[k] == search@[k]);
                    }
                }
                if search_index > 0 {
                    assert(shorter[search_index - 1] == pos[search_index - 1]);
                    assert(pos[search_index - 1] < pos[search_index as int]);
                }
                assert(target@[pos[search_index as int]] == search@.take(search_index + 1)[search_index as int]);
                assert(start <= pos[search_index as int]);
            }
        }
        if target_index >= m {
            proof {
                if is_subsequence(search@, target@) {
                    let pos = choose|pos: Seq<int>| embeds(search@, target@, pos);
                    let prefix = pos.take(search_index + 1);
                    assert(embeds(search@.take(search_index + 1), target@, prefix)) by {
                        assert forall|k: int| 0 <= k < prefix.len() implies 0 <= #[trigger] prefix[k]
                            < target@.len() && target@[prefix[k]] == search@.take(
                            search_index + 1,
                        )[k] by {
                            assert(pos[k] == prefix[k]);
                        }
                    }
                    assert(prefix[search_index as int] == pos[search_index as int]);
                }
            }
            return false;
        }
        proof {
            let ghost longer = placed.push(target_index as int);
            assert(embeds(search@.take(search_index + 1), target@.take(target_index + 1), longer)) by {
                assert forall|k: int| 0 <= k < longer.len() implies 0 <= #[trigger] longer[k]
                    < target_index + 1 && target@.take(target_index + 1)[longer[k]] == search@.take(
                    search_index + 1,
                )[k] by {
                    if k < search_index {
                        assert(longer[k] == placed[k]);
                        assert(target@.take(target_index as int)[placed[k]] == search@.take(
                            search_index as int,
                        )[k]);
                    }
                }
                assert forall|k: int, l: int| 0 <= k < l < longer.len() implies longer[k]
                    < longer[l] by {
                    assert(longer[k] == placed[k]);
                    if l < search_index {
                        assert(longer[l] == placed[l]);
                    }
                }
            }
            placed = longer;
        }
        target_index += 1;
        search_index += 1;
    }
    proof {
        assert(search@.take(n as int) == search@);
        assert(embeds(search@, target@, placed)) by {
            assert forall|k: int| 0 <= k < placed.len() implies 0 <= #[trigger] placed[k]
                < target@.len() && target@[placed[k]] == search@[k] by {
                assert(target@.take(target_index as int)[placed[k]] == search@.take(n as int)[k]);
            }
        }
    }
    true
}

} // verus!
