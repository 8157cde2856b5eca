//! The distinct words of a sentence, and a sorted view of them.

use crate::order::{contains_str, distinct_seq, insert_sorted, sorted_lex};
use crate::word_iter::{split_all, split_words};
use vstd::prelude::*;

verus! {

/// A sentence together with its distinct words. The words appear in no
/// promised order; `get_sorted_words` puts them in lexicographic order.
pub struct UniqueWords<'a> {
    /// The sentence the words were taken from.
    pub sentence: &'a str,
    /// Each distinct word of the sentence, exactly once.
    pub unique_words: Vec<&'a str>,
}

impl<'a> UniqueWords<'a> {
    /// Collects the distinct words of `sentence`: every word of the
    /// sentence appears exactly once, in no promised order.
    pub fn new(sentence: &'a str) -> (r: UniqueWords<'a>)
        ensures
            r.sentence == sentence,
            distinct_seq(r.unique_words.deep_view()),
            forall|x: Seq<char>|
                r.unique_words.deep_view().contains(x) <==> split_words(sentence@).contains(x),
    {
        let words = split_all(sentence);
        let ghost wv: Seq<Seq<char>> = words.deep_view();
        let mut unique_words: Vec<&'a str> = Vec::new();
        let n: usize = words.len();
        let mut i: usize = 0;
        proof {
            assert(wv.len() == words@.len());
        }
        while i < n
            invariant
                n == words@.len(),
                wv == words.deep_view(),
                wv == split_words(sentence@),
                i <= n,
                distinct_seq(unique_words.deep_view()),
                forall|x: Seq<char>|
                    unique_words.deep_view().contains(x) <==> wv.take(i as int).contains(x),
            decreases n - i,
        {
            let ghost prev = unique_words.deep_view();
            let w = words[i];
            proof {
                assert(wv[i as int] == w@);
            }
            let already = contains_str(&unique_words, w);
            if !already {
                unique_words.push(w);
            }
            proof {
                let cur = unique_words.deep_view();
                let t1 = wv.take(i + 1);
                let t0 = wv.take(i as int);
                assert(t1.drop_last() =~= t0);
                assert(t1[i as int] == w@);
                if !already {
                    assert(cur =~= prev.push(w@));
                }
                assert forall|x: Seq<char>| cur.contains(x) <==> (prev.contains(x) || x
                    == w@) by {
                    if already {
                        assert(prev.contains(w@));
                    } else {
                        if cur.contains(x) {
                            let j = choose|j: int| 0 <= j < cur.len() && cur[j] == x;
                            if j < prev.len() {
                                assert(prev[j] == x);
                            }
                        }
                        if prev.contains(x) {
                            let j = choose|j: int| 0 <= j < prev.len() && prev[j] == x;
                            assert(cur[j] == x);
                        }
                        if x == w@ {
                            assert(cur[prev.len() as int] == x);
                        }
                    }
                }
                assert forall|x: Seq<char>| t1.contains(x) <==> (t0.contains(x) || x
                    == w@) by {
                    if t1.contains(x) {
                        let j = choose|j: int| 0 <= j < t1.len() && t1[j] == x;
                        if j < i {
                            assert(t0[j] == x);
                        }
                    }
                    if t0.contains(x) {
                        let j = choose|j: int| 0 <= j < t0.len() && t0[j] == x;
                        assert(t1[j] == x);
                    }
                    if x == w@ {
                        assert(t1[i as int] == x);
                    }
                }
                assert forall|x: Seq<char>| cur.contains(x) <==> t1.contains(x) by {
                    assert(cur.contains(x) <==> (prev.contains(x) || x == w@));
                    assert(prev.contains(x) <==> t0.contains(x));
                    assert(t1.contains(x) <==> (t0.contains(x) || x == w@));
                }
            }
            i += 1;
        }
        proof {
            assert(wv.take(n as int) =~= wv);
        }
        UniqueWords { sentence, unique_words }
    }

    /// The distinct words, in ascending lexicographic order by
    /// character value.
    pub fn get_sorted_words(&self) -> (r: Vec<&'a str>)
        ensures
            sorted_lex(r.deep_view()),
            r.deep_view().len() == self.unique_words.deep_view().len(),
            forall|x: Seq<char>|
                r.deep_view().contains(x) <==> self.unique_words.deep_view().contains(x),
    {
        let ghost uv: Seq<Seq<char>> = self.unique_words.deep_view();
        let mut out: Vec<&'a str> = Vec::new();
        let n: usize = self.unique_words.len();
        let mut i: usize = 0;
        while i < n
            invariant
                n == self.unique_words@.len(),
                uv == self.unique_words.deep_view(),
                i <= n,
                sorted_lex(out.deep_view()),
                out.deep_view().len() == i,
                forall|x: Seq<char>| out.deep_view().contains(x) <==> uv.take(i as int).contains(x),
            decreases n - i,
        {
            let w = self.unique_words[i];
            proof {
                assert(uv[i as int] == w@);
            }
            insert_sorted(&mut out, w);
            proof {
                let cur = out.deep_view();
                let t1 = uv.take(i + 1);
                let t0 = uv.take(i as int);
                assert forall|x: Seq<char>| cur.contains(x) <==> t1.contains(x) by {
                    assert(t1.drop_last() =~= t0);
                    assert(t1.last() == uv[i as int]);
                    if t1.contains(x) {
                        let j = choose|j: int| 0 <= j < t1.len() && t1[j] == x;
                        if j < i {
                            assert(t0[j] == x);
                        }
                    }
                    if t0.contains(x) {
                        let j = choose|j: int| 0 <= j < t0.len() && t0[j] == x;
                        assert(t1[j] == x);
                    }
                    if x == uv[i as int] {
                        assert(t1[i as int] == x);
                    }
                }
            }
            i += 1;
        }
        proof {
            assert(uv.take(n as int) =~= uv);
        }
        out
    }
}

} // verus!
