//! Lexicographic order on character sequences, membership tests, and
//! ordered insertion into a vector of strings.

use crate::text::str_content_eq;
use vstd::prelude::*;
use vstd::string::StrSliceExecFns;

verus! {

/// `a` comes at or before `b` in lexicographic order by character value:
/// at the first differing position the smaller character decides, and a
/// proper prefix comes before what extends it.
pub open spec fn lex_le(a: Seq<char>, b: Seq<char>) -> bool
    decreases a.len(),
{
    if a.len() == 0 {
        true
    } else if b.len() == 0 {
        false
    } else if a[0] != b[0] {
        a[0] < b[0]
    } else {
        lex_le(a.drop_first(), b.drop_first())
    }
}

/// Any two character sequences are ordered one way or the other.
pub proof fn lemma_lex_le_total(a: Seq<char>, b: Seq<char>)
    ensures
        lex_le(a, b) || lex_le(b, a),
    decreases a.len(),
{
    if a.len() > 0 && b.len() > 0 && a[0] == b[0] {
        lemma_lex_le_total(a.drop_first(), b.drop_first());
    }
}

/// Sequences ordered both ways are equal.
pub proof fn lemma_lex_le_antisym(a: Seq<char>, b: Seq<char>)
    requires
        lex_le(a, b),
        lex_le(b, a),
    ensures
        a == b,
    decreases a.len(),
{
    if a.len() > 0 && b.len() > 0 && a[0] == b[0] {
        lemma_lex_le_antisym(a.drop_first(), b.drop_first());
        assert(a =~= seq![a[0]] + a.drop_first());
        assert(b =~= seq![b[0]] + b.drop_first());
    }
}

/// Lexicographic order is transitive.
pub proof fn lemma_lex_le_trans(a: Seq<char>, b: Seq<char>, c: Seq<char>)
    requires
        lex_le(a, b),
        lex_le(b, c),
    ensures
        lex_le(a, c),
    decreases a.len(),
{
    if a.len() > 0 && b.len() > 0 && c.len() > 0 && a[0] == b[0] && b[0] == c[0] {
        lemma_lex_le_trans(a.drop_first(), b.drop_first(), c.drop_first());
    }
}

/// The sequence is ascending in lexicographic order.
pub open spec fn sorted_lex(s: Seq<Seq<char>>) -> bool {
    forall|i: int, j: int| 0 <= i < j < s.len() ==> #[trigger] lex_le(s[i], s[j])
}

/// No two positions hold the same character sequence.
pub open spec fn distinct_seq(s: Seq<Seq<char>>) -> bool {
    forall|i: int, j: int| #![trigger s[i], s[j]] 0 <= i < j < s.len() ==> s[i] != s[j]
}

/// Lexicographic comparison of two strings, character by character.
pub fn str_lex_le(a: &str, b: &str) -> (r: bool)
    ensures
        r == lex_le(a@, b@),
{
    let n: usize = a.unicode_len();
    let m: usize = b.unicode_len();
    let mut i: usize = 0;
    proof {
        assert(a@.skip(0) =~= a@);
        assert(b@.skip(0) =~= b@);
    }
    while i < n && i < m
        invariant
            n == a@.len(),
            m == b@.len(),
            i <= n,
            i <= m,
            lex_le(a@, b@) == lex_le(a@.skip(i as int), b@.skip(i as int)),
        decreases n - i,
    {
        let ca = a.get_char(i);
        let cb = b.get_char(i);
        if ca != cb {
            return ca < cb;
        }
        i += 1;
        proof {
            assert(a@.skip(i - 1).drop_first() =~= a@.skip(i as int));
            assert(b@.skip(i - 1).drop_first() =~= b@.skip(i as int));
        }
    }
    i >= n
}

/// Does some entry of `v` hold exactly the characters of `w`?
pub fn contains_str(v: &Vec<&str>, w: &str) -> (r: bool)
    ensures
        r == v.deep_view().contains(w@),
{
    let n: usize = v.len();
    let mut i: usize = 0;
    while i < n
        invariant
            n == v@.len(),
            i <= n,
            forall|j: int| 0 <= j < i ==> v.deep_view()[j] != w@,
        decreases n - i,
    {
        if str_content_eq(v[i], w) {
            proof {
                assert(v.deep_view()[i as int] == w@);
            }
            return true;
        }
        i += 1;
    }
    proof {
        if v.deep_view().contains(w@) {
            let j = choose|j: int| 0 <= j < v.deep_view().len() && v.deep_view()[j] == w@;
            assert(v.deep_view()[j] != w@);
        }
    }
    false
}

/// Inserts `w` into an ascending vector at its ordered position. The
/// result is still ascending, one entry longer, and holds exactly the
/// old contents plus `w`; when `w` was absent from a vector of distinct
/// entries, the entries stay distinct.
pub fn insert_sorted<'a>(v: &mut Vec<&'a str>, w: &'a str)
    requires
        sorted_lex(old(v).deep_view()),
    ensures
        sorted_lex(final(v).deep_view()),
        final(v).deep_view().len() == old(v).deep_view().len() + 1,
        forall|x: Seq<char>|
            final(v).deep_view().contains(x) <==> (old(v).deep_view().contains(x) || x == w@),
        (distinct_seq(old(v).deep_view()) && !old(v).deep_view().contains(w@)) ==> distinct_seq(
            final(v).deep_view(),
        ),
{
    let ghost dv: Seq<Seq<char>> = v.deep_view();
    let n: usize = v.len();
    let mut k: usize = 0;
    let mut found: bool = false;
    while k < n && !found
        invariant
            n == v@.len(),
            dv == v.deep_view(),
            k <= n,
            found ==> (k < n && lex_le(w@, dv[k as int])),
            forall|j: int| 0 <= j < k ==> !lex_le(w@, #[trigger] dv[j]),
        decreases n - k + (if found {
            0int
        } else {
            1int
        }),
    {
        if str_lex_le(w, v[k]) {
            found = true;
        } else {
            k += 1;
        }
    }
    v.insert(k, w);
    proof {
        let new_dv = v.deep_view();
        assert(new_dv =~= dv.insert(k as int, w@));
        assert forall|i: int, j: int| 0 <= i < j < new_dv.len() implies #[trigger] lex_le(
            new_dv[i],
            new_dv[j],
        ) by {
            if i < k && j < k {
            } else if i == k {
                // w comes before everything at and after position k
                if !found {
                    assert(false);  // j would lie past the end
                } else {
                    if j == k + 1 {
                        assert(new_dv[j] == dv[k as int]);
                    } else {
                        lemma_lex_le_trans(w@, dv[k as int], dv[j - 1]);
                    }
                }
            } else if j == k {
                lemma_lex_le_total(w@, dv[i]);
            } else if i < k {
                // i is an old index below k, j lies past the insertion
                if j - 1 == k && found {
                    lemma_lex_le_total(w@, dv[i]);
                    lemma_lex_le_trans(dv[i], w@, dv[k as int]);
                } else {
                }
            } else {
            }
        }
        assert forall|x: Seq<char>|
            new_dv.contains(x) <==> (dv.contains(x) || x == w@) by {
            if new_dv.contains(x) {
                let i = choose|i: int| 0 <= i < new_dv.len() && new_dv[i] == x;
                if i < k {
                    assert(dv[i] == x);
                } else if i > k {
                    assert(dv[i - 1] == x);
                }
            }
            if x == w@ {
                assert(new_dv[k as int] == x);
            } else if dv.contains(x) {
                let i = choose|i: int| 0 <= i < dv.len() && dv[i] == x;
                if i < k {
                    assert(new_dv[i] == x);
                } else {
                    assert(new_dv[i + 1] == x);
                }
            }
        }
        if distinct_seq(dv) && !dv.contains(w@) {
            assert forall|i: int, j: int| #![trigger new_dv[i], new_dv[j]]
                0 <= i < j < new_dv.len() implies new_dv[i] != new_dv[j] by {
                if i == k {
                    assert(dv[j - 1] != w@);
                } else if j == k {
                    assert(dv[i] != w@);
                }
            }
        }
    }
}

} // verus!
