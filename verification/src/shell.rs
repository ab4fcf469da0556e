//! Splitting a hook command line into the program word and its arguments.

use vstd::prelude::*;

use crate::sizes::spec_is_space;

verus! {

/// The words of a command line: the maximal runs of bytes between ASCII
/// whitespace, in order.
pub open spec fn spec_split_words(s: Seq<u8>) -> Seq<Seq<u8>>
    decreases s.len(),
{
    if s.len() == 0 {
        Seq::empty()
    } else if spec_is_space(s[0]) {
        spec_split_words(s.subrange(1, s.len() as int))
    } else {
        let w = spec_first_word(s);
        if 1 <= w.len() <= s.len() {
            seq![w] + spec_split_words(s.subrange(w.len() as int, s.len() as int))
        } else {
            seq![s]
        }
    }
}

/// The maximal whitespace-free prefix.
pub open spec fn spec_first_word(s: Seq<u8>) -> Seq<u8>
    decreases s.len(),
{
    if s.len() == 0 || spec_is_space(s[0]) {
        Seq::empty()
    } else {
        seq![s[0]] + spec_first_word(s.subrange(1, s.len() as int))
    }
}

proof fn lemma_first_word_shape(s: Seq<u8>, k: int)
    requires
        0 <= k <= s.len(),
        forall|j: int| 0 <= j < k ==> !spec_is_space(s[j]),
        k < s.len() ==> spec_is_space(s[k]),
    ensures
        spec_first_word(s) == s.take(k),
    decreases k,
{
    if k == 0 {
        assert(s.take(0) =~= Seq::<u8>::empty());
    } else {
        let t = s.subrange(1, s.len() as int);
        lemma_first_word_shape(t, k - 1);
        assert(seq![s[0]] + t.take(k - 1) =~= s.take(k));
    }
}

/// Splits a hook command line into its words: the first is the program to
/// run, the rest are its arguments.
pub fn split_command_words(s: &[u8]) -> (r: Vec<Vec<u8>>)
    ensures
        r@.map_values(|v: Vec<u8>| v@) == spec_split_words(s@),
{
    let mut r: Vec<Vec<u8>> = Vec::new();
    let mut i: usize = 0;
    proof {
        assert(s@.subrange(0, s@.len() as int) =~= s@);
        assert(r@.map_values(|v: Vec<u8>| v@) + spec_split_words(
            s@.subrange(0, s@.len() as int),
        ) =~= spec_split_words(s@));
    }
    while i < s.len()
        invariant
            i <= s@.len(),
            r@.map_values(|v: Vec<u8>| v@) + spec_split_words(
                s@.subrange(i as int, s@.len() as int),
            ) == spec_split_words(s@),
        decreases s@.len() - i,
    {
        let ghost rest = s@.subrange(i as int, s@.len() as int);
        let b = s[i];
        if b == 32 || b == 9 || b == 10 || b == 13 {
            proof {
                assert(spec_is_space(rest[0]));
                assert(rest.subrange(1, rest.len() as int) =~= s@.subrange(
                    i + 1,
                    s@.len() as int,
                ));
            }
            i = i + 1;
        } else {
            // Scan the word.
            let mut k: usize = i;
            while k < s.len() && s[k] != 32 && s[k] != 9 && s[k] != 10 && s[k] != 13
                invariant
                    i <= k <= s@.len(),
                    forall|j: int| i <= j < k ==> !spec_is_space(#[trigger] s@[j]),
                decreases s@.len() - k,
            {
                k = k + 1;
            }
            let mut w: Vec<u8> = Vec::new();
            let mut q: usize = i;
            while q < k
                invariant
                    i <= q <= k <= s@.len(),
                    w@ == s@.subrange(i as int, q as int),
                decreases k - q,
            {
                w.push(s[q]);
                proof {
                    assert(s@.subrange(i as int, q as int).push(s@[q as int]) =~= s@.subrange(
                        i as int,
                        q + 1,
                    ));
                }
                q = q + 1;
            }
            let ghost rmaps = r@.map_values(|v: Vec<u8>| v@);
            proof {
                assert(forall|j: int| 0 <= j < k - i ==> !spec_is_space(#[trigger] rest[j]));
                if k < s@.len() {
                    assert(spec_is_space(rest[k - i]));
                }
                lemma_first_word_shape(rest, k - i);
                assert(rest.take(k - i) =~= s@.subrange(i as int, k as int));
                assert(rest.subrange(k - i, rest.len() as int) =~= s@.subrange(
                    k as int,
                    s@.len() as int,
                ));
                assert((rmaps + seq![s@.subrange(i as int, k as int)]) + spec_split_words(
                    s@.subrange(k as int, s@.len() as int),
                ) =~= rmaps + spec_split_words(rest));
            }
            r.push(w);
            proof {
                assert(r@.map_values(|v: Vec<u8>| v@) =~= rmaps + seq![w@]);
            }
            i = k;
        }
    }
    proof {
        assert(spec_split_words(s@.subrange(i as int, s@.len() as int)).len() == 0);
        assert(r@.map_values(|v: Vec<u8>| v@) + Seq::<Seq<u8>>::empty() =~= r@.map_values(
            |v: Vec<u8>| v@,
        ));
    }
    r
}

} // verus!
