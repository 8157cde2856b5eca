//! The words that two sentences do not share.

use crate::order::{contains_str, distinct_seq, insert_sorted, sorted_lex};
use crate::word_iter::{split_all, split_words};
use vstd::prelude::*;

verus! {

/// The words by which two sentences differ: those only the first has,
/// and those only the second has, each list sorted and without
/// duplicates.
#[derive(Debug)]
pub struct Difference<'s1, 's2> {
    /// Words of the first sentence that the second lacks, in ascending
    /// lexicographic order, each once.
    pub first_only: Vec<&'s1 str>,
    /// Words of the second sentence that the first lacks, in ascending
    /// lexicographic order, each once.
    pub second_only: Vec<&'s2 str>,
}

impl<'s1, 's2> Default for Difference<'s1, 's2> {
    /// A difference with both lists empty.
    fn default() -> (r: Self)
        ensures
            r.first_only@.len() == 0,
            r.second_only@.len() == 0,
    {
        Difference { first_only: Vec::new(), second_only: Vec::new() }
    }
}

/// The distinct words of `from` that `excluded` does not contain, in
/// ascending lexicographic order.
fn exclusive_words<'a>(from: &Vec<&'a str>, excluded: &Vec<&str>) -> (r: Vec<&'a str>)
    ensures
        sorted_lex(r.deep_view()),
        distinct_seq(r.deep_view()),
        forall|x: Seq<char>|
            r.deep_view().contains(x) <==> (from.deep_view().contains(x)
                && !excluded.deep_view().contains(x)),
{
    let ghost fv: Seq<Seq<char>> = from.deep_view();
    let ghost ev: Seq<Seq<char>> = excluded.deep_view();
    let mut out: Vec<&'a str> = Vec::new();
    let n: usize = from.len();
    let mut i: usize = 0;
    while i < n
        invariant
            n == from@.len(),
            fv == from.deep_view(),
            ev == excluded.deep_view(),
            i <= n,
            sorted_lex(out.deep_view()),
            distinct_seq(out.deep_view()),
            forall|x: Seq<char>|
                #[trigger] out.deep_view().contains(x) <==> (fv.take(i as int).contains(x)
                    && !ev.contains(x)),
        decreases n - i,
    {
        let ghost prev = out.deep_view();
        let w = from[i];
        proof {
            assert(fv[i as int] == w@);
        }
        let in_excluded = contains_str(excluded, w);
        let in_out = contains_str(&out, w);
        if !in_excluded && !in_out {
            insert_sorted(&mut out, w);
        }
        proof {
            let cur = out.deep_view();
            let t1 = fv.take(i + 1);
            let t0 = fv.take(i as int);
            assert(t1.drop_last() =~= t0);
            assert(t1[i as int] == w@);
            assert forall|x: Seq<char>| cur.contains(x) <==> (prev.contains(x) || (x == w@
                && !ev.contains(x))) by {
                if in_excluded || in_out {
                    assert(cur == prev);
                    if in_out {
                        assert(prev.contains(w@));
                    }
                }
            }
            assert forall|x: Seq<char>| t1.contains(x) <==> (t0.contains(x) || x == w@) by {
                if t1.contains(x) {
                    let j = choose|j: int| 0 <= j < t1.len() && t1[j] == x;
                    if j < i {
                        assert(t0[j] == x);
                    }
                }
                if t0.contains(x) {
                    let j = choose|j: int| 0 <= j < t0.len() && t0[j] == x;
                    assert(t1[j] == x);
                }
                if x == w@ {
                    assert(t1[i as int] == x);
                }
            }
            assert forall|x: Seq<char>| cur.contains(x) <==> (t1.contains(x) && !ev.contains(
                x,
            )) by {
                assert(cur.contains(x) <==> (prev.contains(x) || (x == w@ && !ev.contains(x))));
                assert(prev.contains(x) <==> (t0.contains(x) && !ev.contains(x)));
                assert(t1.contains(x) <==> (t0.contains(x) || x == w@));
            }
        }
        i += 1;
    }
    proof {
        assert(fv.take(n as int) =~= fv);
    }
    out
}

/// Computes the word difference of two sentences: the distinct words
/// each has that the other lacks, with either list sorted in ascending
/// lexicographic order.
pub fn find_difference<'s1, 's2>(sentence1: &'s1 str, sentence2: &'s2 str) -> (r: Difference<
    's1,
    's2,
>)
    ensures
        sorted_lex(r.first_only.deep_view()),
        distinct_seq(r.first_only.deep_view()),
        forall|x: Seq<char>|
            r.first_only.deep_view().contains(x) <==> (split_words(sentence1@).contains(x)
                && !split_words(sentence2@).contains(x)),
        sorted_lex(r.second_only.deep_view()),
        distinct_seq(r.second_only.deep_view()),
        forall|x: Seq<char>|
            r.second_only.deep_view().contains(x) <==> (split_words(sentence2@).contains(x)
                && !split_words(sentence1@).contains(x)),
{
    let words1 = split_all(sentence1);
    let words2 = split_all(sentence2);
    let first_only = exclusive_words(&words1, &words2);
    let second_only = exclusive_words(&words2, &words1);
    Difference { first_only, second_only }
}

} // verus!
