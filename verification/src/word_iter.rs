//! Space-delimited words: the split model, a word iterator, and a
//! function that collects every word of a string.

use vstd::prelude::*;
use vstd::string::StrSliceExecFns;

verus! {

/// Character index of the first space at or after `i`, or the length of
/// `s` when no space follows.
pub open spec fn next_space(s: Seq<char>, i: int) -> int
    decreases s.len() - i,
{
    if i < 0 || i >= s.len() {
        s.len() as int
    } else if s[i] == ' ' {
        i
    } else {
        next_space(s, i + 1)
    }
}

/// `next_space` stays between `i` and the length, points at a space
/// unless it is the length, and skips no space.
pub proof fn lemma_next_space_bounds(s: Seq<char>, i: int)
    requires
        0 <= i <= s.len(),
    ensures
        i <= next_space(s, i) <= s.len(),
        next_space(s, i) < s.len() ==> s[next_space(s, i)] == ' ',
        forall|k: int| i <= k < next_space(s, i) ==> s[k] != ' ',
    decreases s.len() - i,
{
    if i < s.len() && s[i] != ' ' {
        lemma_next_space_bounds(s, i + 1);
    }
}

/// The index just before the first space at or after `i` is `next_space`
/// itself: any index that a spaceless stretch separates from `i` and
/// that holds a space, or is the end, is it.
pub proof fn lemma_next_space_unique(s: Seq<char>, i: int, j: int)
    requires
        0 <= i <= j <= s.len(),
        forall|k: int| i <= k < j ==> s[k] != ' ',
        j < s.len() ==> s[j] == ' ',
    ensures
        next_space(s, i) == j,
    decreases j - i,
{
    if i < j {
        lemma_next_space_unique(s, i + 1, j);
    }
}

/// The words of `s` from character index `i` on: the stretches between
/// single spaces, in order, empty stretches included.
pub open spec fn split_from(s: Seq<char>, i: int) -> Seq<Seq<char>>
    recommends
        0 <= i <= s.len(),
    decreases s.len() - i,
    via split_from_decreases
{
    let j = next_space(s, i);
    if j < s.len() {
        seq![s.subrange(i, j)] + split_from(s, j + 1)
    } else {
        seq![s.subrange(i, s.len() as int)]
    }
}

#[via_fn]
proof fn split_from_decreases(s: Seq<char>, i: int) {
    if next_space(s, i) < s.len() {
        lemma_next_space_bounds(s, i);
    }
}

/// The words of `s`: what splitting it on every single space yields,
/// empty pieces included, one piece even for the empty string.
pub open spec fn split_words(s: Seq<char>) -> Seq<Seq<char>> {
    split_from(s, 0)
}

/// Character index of the first space of `s` at or after `from`, or the
/// character length of `s` when no space follows.
pub fn find_space(s: &str, from: usize) -> (j: usize)
    requires
        from <= s@.len(),
    ensures
        j as int == next_space(s@, from as int),
        from <= j <= s@.len(),
{
    let n: usize = s.unicode_len();
    let mut j: usize = from;
    let mut found: bool = false;
    while j < n && !found
        invariant
            n == s@.len(),
            from <= j <= n,
            found ==> (j < n && s@[j as int] == ' '),
            forall|k: int| from <= k < j ==> s@[k] != ' ',
        decreases n - j + (if found {
            0int
        } else {
            1int
        }),
    {
        if s.get_char(j) == ' ' {
            found = true;
        } else {
            j += 1;
        }
    }
    proof {
        lemma_next_space_unique(s@, from as int, j as int);
    }
    j
}

/// A cursor over the words of a string, space by space.
pub struct WordIterator<'s> {
    /// Character index where the next word would start.
    pub position: usize,
    /// The text being walked.
    pub string: &'s str,
}

impl<'s> WordIterator<'s> {
    /// Creates a new WordIterator based on a string.
    pub fn new(string: &'s str) -> (r: WordIterator<'s>)
        ensures
            r.position == 0,
            r.string == string,
    {
        WordIterator { position: 0, string }
    }

    /// Gives the next word: the characters from the cursor to the next
    /// space or the end, with the cursor moved one past the space.
    /// `None` if there aren't any words left. After a final word that no
    /// space closed, the cursor stands one past the end, and the
    /// iterator is exhausted for good.
    pub fn next_word(&mut self) -> (r: Option<&'s str>)
        requires
            old(self).position <= old(self).string@.len(),
            old(self).string@.len() < usize::MAX,
        ensures
            final(self).string == old(self).string,
            old(self).position == old(self).string@.len() ==> r is None && final(self).position
                == old(self).position,
            old(self).position < old(self).string@.len() ==> ({
                let j = next_space(old(self).string@, old(self).position as int);
                r matches Some(w) && w@ == old(self).string@.subrange(
                    old(self).position as int,
                    j,
                ) && final(self).position == j + 1
            }),
    {
        let n: usize = self.string.unicode_len();
        if self.position == n {
            return None;
        }
        let j: usize = find_space(self.string, self.position);
        let word = self.string.substring_char(self.position, j);
        self.position = j + 1;
        Some(word)
    }
}

/// Every word of `s`, in order: the stretches between single spaces,
/// empty stretches included.
pub fn split_all<'a>(s: &'a str) -> (r: Vec<&'a str>)
    ensures
        r.deep_view() == split_words(s@),
{
    let n: usize = s.unicode_len();
    let mut out: Vec<&'a str> = Vec::new();
    let mut i: usize = 0;
    let mut done: bool = false;
    while !done
        invariant
            n == s@.len(),
            i <= n,
            !done ==> split_words(s@) == out.deep_view() + split_from(s@, i as int),
            done ==> split_words(s@) == out.deep_view(),
        decreases 2 * (n - i) + (if done {
            0int
        } else {
            1int
        }),
    {
        let ghost prev = out.deep_view();
        let j: usize = find_space(s, i);
        let word = s.substring_char(i, j);
        out.push(word);
        proof {
            assert(out.deep_view() =~= prev.push(word@));
        }
        if j < n {
            proof {
                assert(split_from(s@, i as int) == seq![s@.subrange(i as int, j as int)]
                    + split_from(s@, j + 1));
                assert(prev + split_from(s@, i as int) =~= out.deep_view() + split_from(
                    s@,
                    j + 1,
                ));
            }
            i = j + 1;
        } else {
            proof {
                assert(split_from(s@, i as int) =~= seq![s@.subrange(i as int, n as int)]);
                assert(prev + split_from(s@, i as int) =~= out.deep_view());
            }
            done = true;
        }
    }
    out
}

} // verus!
