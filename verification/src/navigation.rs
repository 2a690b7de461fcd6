//! Moving through a list of images that wraps around at both ends.

use vstd::arithmetic::div_mod::{
    lemma_add_mod_noop, lemma_mod_add_multiples_vanish, lemma_mod_sub_multiples_vanish,
    lemma_small_mod, lemma_sub_mod_noop,
};
use std::collections::HashMap;
use vstd::prelude::*;

verus! {

broadcast use vstd::std_specs::hash::group_hash_axioms;

/// How many images before the current one are loaded ahead of time.
pub const PRELOAD_BEFORE: usize = 3;

/// How many images from the current one on are loaded ahead of time.
pub const PRELOAD_AFTER: usize = 10;

/// The index reached from `index` by `step` places in a list of `count`
/// entries whose ends are joined.
pub open spec fn wrapped(index: int, step: int, count: int) -> int {
    (index + step) % count
}

/// The index to show first: the first entry, where there is one.
pub fn first_index(count: usize) -> (first: Option<usize>)
    ensures
        first == if count > 0 {
            Some(0usize)
        } else {
            None
        },
{
    if count > 0 {
        Some(0)
    } else {
        None
    }
}

/// Moves the current index by `step` places, forwards or backwards, and
/// wraps around at the ends of the list. Without a current index, or in an
/// empty list, there is nowhere to move to.
pub fn move_by(current: Option<usize>, step: isize, count: usize) -> (moved: Option<usize>)
    ensures
        moved == match current {
            Some(index) if count > 0 => Some(wrapped(index as int, step as int, count as int) as usize),
            _ => None,
        },
        moved matches Some(index) ==> index < count,
{
    let index = match current {
        Some(index) => index,
        None => {
            return None;
        },
    };
    if count == 0 {
        return None;
    }
    let from = index % count;
    let ghost m = count as int;
    proof {
        vstd::arithmetic::div_mod::lemma_mod_bound(index as int + step as int, m);
    }
    if step >= 0 {
        let forward = (step as usize) % count;
        proof {
            lemma_add_mod_noop(index as int, step as int, m);
            if from + forward >= m {
                lemma_mod_sub_multiples_vanish(from + forward, m);
                lemma_small_mod((from + forward - m) as nat, m as nat);
            } else {
                lemma_small_mod((from + forward) as nat, m as nat);
            }
        }
        if forward >= count - from {
            Some(forward - (count - from))
        } else {
            Some(from + forward)
        }
    } else {
        let distance = (-(step + 1)) as usize + 1;
        let backward = distance % count;
        proof {
            assert(distance == -(step as int));
            lemma_sub_mod_noop(index as int, distance as int, m);
            if from >= backward {
                lemma_small_mod((from - backward) as nat, m as nat);
            } else {
                lemma_mod_add_multiples_vanish(from - backward, m);
                lemma_small_mod((m + from - backward) as nat, m as nat);
            }
        }
        if from >= backward {
            Some(from - backward)
        } else {
            Some(count - (backward - from))
        }
    }
}

/// The entries around the entry `around` that are wanted ahead of time:
/// those from `PRELOAD_BEFORE` places before it to just under
/// `PRELOAD_AFTER` places after it, in this order, the list's ends being
/// joined. An entry occurs more than once where the list is shorter than the
/// window.
pub open spec fn window_of(around: usize, count: usize) -> Seq<usize> {
    if count > 0 {
        Seq::new(
            (PRELOAD_BEFORE + PRELOAD_AFTER) as nat,
            |k: int| wrapped(around as int, k - PRELOAD_BEFORE, count as int) as usize,
        )
    } else {
        Seq::empty()
    }
}

/// The entries of `window` to start loading, in the order of the window:
/// every entry that is not `busy`, once.
pub open spec fn planned(window: Seq<usize>, busy: Set<usize>) -> Seq<usize>
    decreases window.len(),
{
    if window.len() == 0 {
        Seq::empty()
    } else {
        let before = planned(window.drop_last(), busy);
        let last = window.last();
        if busy.contains(last) || before.contains(last) {
            before
        } else {
            before.push(last)
        }
    }
}

/// A plan holds exactly the entries of the window that are not busy, and
/// none of them twice.
pub proof fn lemma_planned(window: Seq<usize>, busy: Set<usize>)
    ensures
        planned(window, busy).no_duplicates(),
        forall|entry: usize| #[trigger]
            planned(window, busy).contains(entry) <==> window.contains(entry) && !busy.contains(
                entry,
            ),
    decreases window.len(),
{
    if window.len() > 0 {
        let shorter = window.drop_last();
        let before = planned(shorter, busy);
        let last = window.last();
        lemma_planned(shorter, busy);
        assert forall|entry: usize| #[trigger]
            planned(window, busy).contains(entry) <==> window.contains(entry) && !busy.contains(
                entry,
            ) by {
            if window.contains(entry) {
                let k = choose|k: int| 0 <= k < window.len() && window[k] == entry;
                if k < shorter.len() {
                    assert(shorter[k] == entry);
                }
            }
            if shorter.contains(entry) {
                let k = choose|k: int| 0 <= k < shorter.len() && shorter[k] == entry;
                assert(window[k] == entry);
            }
            assert(window[window.len() - 1] == last);
            if before.contains(entry) {
                let k = choose|k: int| 0 <= k < before.len() && before[k] == entry;
                if planned(window, busy) != before {
                    assert(before.push(last)[k] == entry);
                }
            }
            if planned(window, busy).contains(entry) && planned(window, busy) != before {
                let k = choose|k: int|
                    0 <= k < before.push(last).len() && before.push(last)[k] == entry;
                if k < before.len() {
                    assert(before[k] == entry);
                }
            }
            if entry == last && !busy.contains(last) && !before.contains(last) {
                assert(before.push(last)[before.len() as int] == last);
            }
        }
    }
}

/// The entries to load ahead of time around the entry `around`.
pub fn preload_window(around: usize, count: usize) -> (window: Vec<usize>)
    ensures
        window@ == window_of(around, count),
{
    let mut window: Vec<usize> = Vec::new();
    if count == 0 {
        return window;
    }
    let mut k: usize = 0;
    while k < PRELOAD_BEFORE + PRELOAD_AFTER
        invariant
            count > 0,
            k <= PRELOAD_BEFORE + PRELOAD_AFTER,
            window@.len() == k,
            forall|l: int|
                0 <= l < k ==> window@[l] == wrapped(
                    around as int,
                    l - PRELOAD_BEFORE,
                    count as int,
                ) as usize,
        decreases PRELOAD_BEFORE + PRELOAD_AFTER - k,
    {
        let step: isize = k as isize - PRELOAD_BEFORE as isize;
        match move_by(Some(around), step, count) {
            Some(index) => window.push(index),
            None => {},
        }
        k += 1;
    }
    window
}

/// Whether `entry` is among `entries`.
fn holds(entries: &Vec<usize>, entry: usize) -> (found: bool)
    ensures
        found == entries@.contains(entry),
{
    let mut k: usize = 0;
    while k < entries.len()
        invariant
            k <= entries@.len(),
            forall|l: int| 0 <= l < k ==> entries@[l] != entry,
        decreases entries@.len() - k,
    {
        if entries[k] == entry {
            return true;
        }
        k += 1;
    }
    false
}

/// The entries to start loading around the entry `around`: the entries of
/// the window that are neither loaded nor being loaded, each once, in the
/// order of the window. `loaded` and `loading` are keyed by entry.
pub fn preload_plan<Loaded, Loading>(
    around: usize,
    count: usize,
    loaded: &HashMap<usize, Loaded>,
    loading: &HashMap<usize, Loading>,
) -> (plan: Vec<usize>)
    ensures
        plan@ == planned(window_of(around, count), loaded@.dom().union(loading@.dom())),
{
    let window = preload_window(around, count);
    let ghost busy = loaded@.dom().union(loading@.dom());
    let mut plan: Vec<usize> = Vec::new();
    let mut k: usize = 0;
    while k < window.len()
        invariant
            k <= window@.len(),
            busy == loaded@.dom().union(loading@.dom()),
            plan@ == planned(window@.take(k as int), busy),
        decreases window@.len() - k,
    {
        let entry = window[k];
        proof {
            assert(window@.take(k + 1).drop_last() == window@.take(k as int));
            assert(window@.take(k + 1).last() == entry);
        }
        if !loaded.contains_key(&entry) && !loading.contains_key(&entry) && !holds(&plan, entry) {
            plan.push(entry);
        }
        k += 1;
    }
    proof {
        assert(window@.take(window@.len() as int) == window@);
    }
    plan
}

} // verus!
