//! Membership test for "is this string a prefix of some corpus word".
//!
//! Every prefix of length 1 to 5 of every corpus word is recorded, encoded
//! as a base-27 number: the empty string is 0, and appending a letter
//! multiplies the code by 27 and adds the letter's alphabet position
//! (1 for 'A').  The encoding is injective over uppercase strings, so a code
//! is present exactly when the string it encodes is a prefix of some corpus
//! word.

use crate::hints::chars_of;
use crate::models::{is_upper_word, upper_chars, wf_corpus, word_views, ClueWord};
use std::collections::HashSet;
use vstd::prelude::*;

verus! {

broadcast use vstd::std_specs::hash::group_hash_axioms;

/// The alphabet position of `c`, counted from 1 for 'A'.
pub open spec fn char_code(c: char) -> int {
    c as u32 - 64
}

/// The base-27 code of an uppercase string.
pub open spec fn prefix_code(p: Seq<char>) -> int
    decreases p.len(),
{
    if p.len() == 0 {
        0
    } else {
        prefix_code(p.drop_last()) * 27 + char_code(p.last())
    }
}

/// Powers of 27, the radix of the prefix encoding.
pub open spec fn pow27(n: nat) -> int
    decreases n,
{
    if n == 0 {
        1
    } else {
        27 * pow27((n - 1) as nat)
    }
}

/// The code of an uppercase string is nonnegative and below `pow27` of its
/// length.
proof fn lemma_prefix_code_bound(p: Seq<char>)
    requires
        upper_chars(p),
    ensures
        0 <= prefix_code(p) < pow27(p.len()),
    decreases p.len(),
{
    if p.len() > 0 {
        assert(upper_chars(p.drop_last()));
        lemma_prefix_code_bound(p.drop_last());
    }
}

/// `pow27` stays within `u32` range for lengths up to five.
proof fn lemma_pow27_small(n: nat)
    requires
        n <= 5,
    ensures
        pow27(n) <= 14348907,
{
    reveal_with_fuel(pow27, 7);
    if n == 0 {
    } else if n == 1 {
    } else if n == 2 {
    } else if n == 3 {
    } else if n == 4 {
    } else {
        assert(n == 5);
    }
}

/// Distinct uppercase strings have distinct codes.
proof fn lemma_prefix_code_injective(p1: Seq<char>, p2: Seq<char>)
    requires
        upper_chars(p1),
        upper_chars(p2),
        prefix_code(p1) == prefix_code(p2),
    ensures
        p1 == p2,
    decreases p1.len(),
{
    if p1.len() == 0 && p2.len() == 0 {
        assert(p1 =~= p2);
    } else if p1.len() == 0 {
        assert(upper_chars(p2.drop_last()));
        lemma_prefix_code_bound(p2.drop_last());
        assert(false);
    } else if p2.len() == 0 {
        assert(upper_chars(p1.drop_last()));
        lemma_prefix_code_bound(p1.drop_last());
        assert(false);
    } else {
        assert(upper_chars(p1.drop_last()));
        assert(upper_chars(p2.drop_last()));
        lemma_prefix_code_bound(p1.drop_last());
        lemma_prefix_code_bound(p2.drop_last());
        // The low base-27 digit and the rest of the code agree separately.
        assert(prefix_code(p1.drop_last()) == prefix_code(p2.drop_last()));
        assert(char_code(p1.last()) == char_code(p2.last()));
        lemma_prefix_code_injective(p1.drop_last(), p2.drop_last());
        assert(p1.drop_last().len() == p2.drop_last().len());
        assert forall|i: int| 0 <= i < p1.len() implies p1[i] == p2[i] by {
            if i < p1.len() - 1 {
                assert(p1[i] == p1.drop_last()[i]);
                assert(p2[i] == p2.drop_last()[i]);
            } else {
                assert(p1[i] == p1.last());
                assert(p2[i] == p2.last());
            }
        }
        assert(p1 =~= p2);
    }
}

/// `c` encodes a prefix, of length 1 to 5, of some word of `words`.
pub open spec fn code_of_some_prefix(words: Seq<Seq<char>>, c: int) -> bool {
    exists|k: int, l: int|
        0 <= k < words.len() && 1 <= l <= 5 && c == prefix_code(#[trigger] words[k].take(l))
}

/// `p` is a prefix of some word of `words`.
pub open spec fn is_corpus_prefix(words: Seq<Seq<char>>, p: Seq<char>) -> bool {
    exists|k: int| 0 <= k < words.len() && p == #[trigger] words[k].take(p.len() as int)
}

/// Fast membership test for column prefixes of the grid under construction:
/// holds the code of every prefix, of lengths 1 to 5, of every corpus word.
pub struct PrefixIndex {
    codes: HashSet<u32>,
    words: Ghost<Seq<Seq<char>>>,
}

impl PrefixIndex {
    /// The corpus words the index was built from.
    pub closed spec fn words(self) -> Seq<Seq<char>> {
        self.words@
    }

    /// The corpus words are well formed and the index holds exactly their
    /// prefix codes.
    pub closed spec fn wf(self) -> bool {
        &&& forall|k: int| 0 <= k < self.words@.len() ==> is_upper_word(#[trigger] self.words@[k])
        &&& forall|c: u32|
            #[trigger] self.codes@.contains(c) <==> code_of_some_prefix(self.words@, c as int)
    }

    /// Builds the index of every corpus word's prefixes.
    pub fn build(corpus: &Vec<ClueWord>) -> (index: PrefixIndex)
        requires
            wf_corpus(corpus@),
        ensures
            index.wf(),
            index.words() == word_views(corpus@),
    {
        let ghost words = word_views(corpus@);
        let mut codes: HashSet<u32> = HashSet::new();
        let mut k: usize = 0;
        while k < corpus.len()
            invariant
                k <= corpus@.len(),
                wf_corpus(corpus@),
                words == word_views(corpus@),
                forall|c: u32| #[trigger]
                    codes@.contains(c) <==> exists|k2: int, l: int|
                        0 <= k2 < k && 1 <= l <= 5 && c == prefix_code(
                            #[trigger] words[k2].take(l),
                        ),
            decreases corpus@.len() - k,
        {
            let w = chars_of(corpus[k].word.as_str());
            assert(w@ == words[k as int]);
            let mut code: u32 = 0;
            let mut l: usize = 0;
            while l < 5
                invariant
                    l <= 5,
                    k < corpus@.len(),
                    wf_corpus(corpus@),
                    words == word_views(corpus@),
                    w@ == words[k as int],
                    is_upper_word(w@),
                    code == prefix_code(w@.take(l as int)),
                    forall|c: u32| #[trigger]
                        codes@.contains(c) <==> (exists|k2: int, l2: int|
                            0 <= k2 < k && 1 <= l2 <= 5 && c == prefix_code(
                                #[trigger] words[k2].take(l2),
                            )) || (exists|l2: int|
                            1 <= l2 <= l && c == prefix_code(#[trigger] words[k as int].take(l2))),
                decreases 5 - l,
            {
                proof {
                    assert(upper_chars(w@.take(l as int)));
                    lemma_prefix_code_bound(w@.take(l as int));
                    lemma_pow27_small(l as nat);
                    assert(w@.take(l + 1).drop_last() =~= w@.take(l as int));
                    assert(w@.take(l + 1).last() == w@[l as int]);
                }
                let c = w[l];
                code = code * 27 + (c as u32 - 64);
                codes.insert(code);
                l += 1;
            }
            proof {
                assert(forall|c: u32| #[trigger]
                    codes@.contains(c) <==> exists|k2: int, l2: int|
                        0 <= k2 < k + 1 && 1 <= l2 <= 5 && c == prefix_code(
                            #[trigger] words[k2].take(l2),
                        ));
            }
            k += 1;
        }
        PrefixIndex { codes, words: Ghost(words) }
    }

    /// Whether `p`, a string of length 1 to 5, is a prefix of some corpus
    /// word.
    pub fn contains(&self, p: &Vec<char>) -> (b: bool)
        requires
            self.wf(),
            1 <= p@.len() <= 5,
            upper_chars(p@),
        ensures
            b == is_corpus_prefix(self.words(), p@),
    {
        let mut code: u32 = 0;
        let mut l: usize = 0;
        while l < p.len()
            invariant
                l <= p@.len() <= 5,
                upper_chars(p@),
                code == prefix_code(p@.take(l as int)),
            decreases p@.len() - l,
        {
            proof {
                assert(upper_chars(p@.take(l as int)));
                lemma_prefix_code_bound(p@.take(l as int));
                lemma_pow27_small(l as nat);
                assert(p@.take(l + 1).drop_last() =~= p@.take(l as int));
                assert(p@.take(l + 1).last() == p@[l as int]);
            }
            let c = p[l];
            code = code * 27 + (c as u32 - 64);
            l += 1;
        }
        assert(p@.take(p@.len() as int) =~= p@);
        let b = self.codes.contains(&code);
        proof {
            let words = self.words@;
            if b {
                let (k, l2) = choose|k: int, l2: int|
                    0 <= k < words.len() && 1 <= l2 <= 5 && code == prefix_code(
                        #[trigger] words[k].take(l2),
                    );
                assert(upper_chars(words[k].take(l2)));
                lemma_prefix_code_injective(p@, words[k].take(l2));
                assert(words[k].take(l2).len() == l2);
                assert(p@ == words[k].take(p@.len() as int));
            } else {
                if is_corpus_prefix(words, p@) {
                    let k = choose|k: int|
                        0 <= k < words.len() && p@ == #[trigger] words[k].take(p@.len() as int);
                    assert(code == prefix_code(words[k].take(p@.len() as int)));
                    assert(code_of_some_prefix(words, code as int));
                    assert(false);
                }
            }
        }
        b
    }
}

} // verus!
