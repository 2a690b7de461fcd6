//! Case folding of strings into comparable codepoint sequences.

use vstd::prelude::*;

verus! {

/// The lowercase mapping of a single character, as defined by Unicode: one
/// character may map to several.
pub uninterp spec fn char_lowercase(c: char) -> Seq<char>;

/// The folded form of a string: the concatenation of the lowercase mappings
/// of its characters, in order.
pub open spec fn folded(s: Seq<char>) -> Seq<char>
    decreases s.len(),
{
    if s.len() == 0 {
        Seq::empty()
    } else {
        folded(s.drop_last()) + char_lowercase(s.last())
    }
}

/// Calls `char::to_lowercase` and collects the characters it yields. The
/// result is taken to be a function of the character alone, named
/// [`char_lowercase`]; nothing else is claimed about it.
#[verifier::external_body]
fn lowercase_of(c: char) -> (r: Vec<char>)
    ensures
        r@ == char_lowercase(c),
{
    c.to_lowercase().collect()
}

/// Folds a string to its lowercase codepoint sequence.
pub fn fold(s: &str) -> (r: Vec<char>)
    ensures
        r@ == folded(s@),
{
    let mut out: Vec<char> = Vec::new();
    for c in it: s.chars()
        invariant
            it.seq() == s@,
            out@ == folded(s@.take(it.index() as int)),
    {
        let mut lower = lowercase_of(c);
        proof {
            let k = it.index() as int;
            assert(s@.take(k + 1).drop_last() == s@.take(k));
            assert(s@.take(k + 1).last() == c);
        }
        out.append(&mut lower);
    }
    proof {
        assert(s@.take(s@.len() as int) == s@);
    }
    out
}

} // verus!
