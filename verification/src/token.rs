//! Pattern tokens and per-token matching.

use crate::text::{is_prefix_of, str_starts_with, utf8_len};
use vstd::prelude::*;
use vstd::string::StrSliceExecFns;

verus! {

/// Mathematical shape of a token: the same three cases as
/// [`MatcherToken`], with every span replaced by its character sequence.
pub enum TokenModel {
    RawText(Seq<char>),
    OneOfText(Seq<Seq<char>>),
    WildCard,
}

/// One compiled unit of the pattern grammar. Spans borrow from the
/// original pattern text; nothing is copied during compilation.
#[derive(Debug, PartialEq, Eq)]
pub enum MatcherToken<'s> {
    /// Literal text that must match character for character.
    RawText(&'s str),
    /// A set of literal alternatives, written `(one|two|three)` in the
    /// pattern; the longest alternative that matches wins.
    OneOfText(Vec<&'s str>),
    /// Matches any single character; written `.` in the pattern.
    WildCard,
}

impl<'s> View for MatcherToken<'s> {
    type V = TokenModel;

    open spec fn view(&self) -> TokenModel {
        match self {
            MatcherToken::RawText(t) => TokenModel::RawText(t@),
            MatcherToken::OneOfText(v) => TokenModel::OneOfText(v.deep_view()),
            MatcherToken::WildCard => TokenModel::WildCard,
        }
    }
}

/// The alternative that a left-to-right scan of `choices` settles on
/// against the input `rem`: the first alternative that is a prefix of
/// `rem` and is strictly longer, in bytes, than every earlier match.
/// The empty sequence stands for "no alternative has matched yet".
pub open spec fn one_of_scan(choices: Seq<Seq<char>>, rem: Seq<char>) -> Seq<char>
    decreases choices.len(),
{
    if choices.len() == 0 {
        Seq::empty()
    } else {
        let prev = one_of_scan(choices.drop_last(), rem);
        let c = choices.last();
        if is_prefix_of(c, rem) && utf8_len(c) > utf8_len(prev) {
            c
        } else {
            prev
        }
    }
}

/// Whatever the scan settles on is either empty or a matching alternative.
pub proof fn lemma_one_of_scan_prefix(choices: Seq<Seq<char>>, rem: Seq<char>)
    ensures
        one_of_scan(choices, rem) =~= Seq::<char>::empty() || (is_prefix_of(
            one_of_scan(choices, rem),
            rem,
        ) && choices.contains(one_of_scan(choices, rem))),
    decreases choices.len(),
{
    if choices.len() > 0 {
        lemma_one_of_scan_prefix(choices.drop_last(), rem);
        if one_of_scan(choices, rem) == choices.last() {
            assert(choices.contains(choices.last()));
        } else {
            let prev = one_of_scan(choices.drop_last(), rem);
            if !(prev =~= Seq::<char>::empty()) {
                let i = choose|i: int|
                    0 <= i < choices.drop_last().len() && choices.drop_last()[i] == prev;
                assert(choices[i] == prev);
            }
        }
    }
}

/// What matching one token against the remaining input `rem` yields:
/// `Some` holds the matched characters, which are always a prefix of
/// `rem`; `None` means the token fails there.
pub open spec fn token_matches(t: TokenModel, rem: Seq<char>) -> Option<Seq<char>> {
    match t {
        TokenModel::RawText(txt) => if is_prefix_of(txt, rem) {
            Some(txt)
        } else {
            None
        },
        TokenModel::OneOfText(cs) => {
            let w = one_of_scan(cs, rem);
            if utf8_len(w) > 0 {
                Some(w)
            } else {
                None
            }
        },
        TokenModel::WildCard => if rem.len() > 0 {
            Some(rem.take(1))
        } else {
            None
        },
    }
}

/// A successful token match consumes a prefix of the remaining input.
pub proof fn lemma_token_match_prefix(t: TokenModel, rem: Seq<char>)
    ensures
        token_matches(t, rem) matches Some(m) ==> is_prefix_of(m, rem),
{
    match t {
        TokenModel::RawText(txt) => {},
        TokenModel::OneOfText(cs) => {
            lemma_one_of_scan_prefix(cs, rem);
            let w = one_of_scan(cs, rem);
            if utf8_len(w) > 0 {
                assert(utf8_len(Seq::<char>::empty()) == 0);
                assert(!(w =~= Seq::<char>::empty()));
            }
        },
        TokenModel::WildCard => {
            if rem.len() > 0 {
                assert(rem.subrange(0, 1) =~= rem.take(1));
            }
        },
    }
}

impl<'s> MatcherToken<'s> {
    /// Attempts to match this token at the very start of `input`.
    /// Returns the matched leading slice of `input`, or `None`:
    /// literal text must be a prefix of `input`; of the alternatives of a
    /// group, the longest (in bytes) matching one wins, the earliest
    /// listed on a tie; a wildcard takes the first character of a
    /// non-empty input.
    pub fn match_string<'x>(&self, input: &'x str) -> (r: Option<&'x str>)
        ensures
            r is Some <==> token_matches(self@, input@) is Some,
            r matches Some(m) ==> token_matches(self@, input@) == Some(m@),
    {
        match self {
            MatcherToken::RawText(text) => {
                if str_starts_with(input, text) {
                    let k: usize = text.unicode_len();
                    let m = input.substring_char(0, k);
                    proof {
                        assert(m@ =~= text@);
                    }
                    Some(m)
                } else {
                    None
                }
            },
            MatcherToken::OneOfText(choices) => {
                let ghost cd: Seq<Seq<char>> = choices.deep_view();
                let mut longest: usize = 0;
                let mut best: &'s str = "";
                proof {
                    reveal_strlit("");
                    assert(best@ =~= one_of_scan(cd.take(0), input@));
                    assert(utf8_len(Seq::<char>::empty()) == 0);
                }
                let n: usize = choices.len();
                let mut j: usize = 0;
                while j < n
                    invariant
                        n == choices.len(),
                        cd == choices.deep_view(),
                        j <= n,
                        best@ == one_of_scan(cd.take(j as int), input@),
                        longest == utf8_len(best@),
                        longest > 0 ==> is_prefix_of(best@, input@),
                    decreases n - j,
                {
                    let ch: &'s str = choices[j];
                    proof {
                        assert(cd[j as int] == ch@);
                        assert(cd.take(j + 1).drop_last() =~= cd.take(j as int));
                        assert(cd.take(j + 1).last() == ch@);
                    }
                    if str_starts_with(input, ch) && ch.len() > longest {
                        longest = ch.len();
                        best = ch;
                    }
                    j += 1;
                }
                proof {
                    assert(cd.take(n as int) =~= cd);
                }
                if longest > 0 {
                    let k: usize = best.unicode_len();
                    let m = input.substring_char(0, k);
                    proof {
                        assert(m@ =~= best@);
                    }
                    Some(m)
                } else {
                    None
                }
            },
            MatcherToken::WildCard => {
                if !input.is_empty() {
                    let m = input.substring_char(0, 1);
                    proof {
                        assert(m@ =~= input@.take(1));
                    }
                    Some(m)
                } else {
                    None
                }
            },
        }
    }

    /// A fresh token with the same content; spans still borrow from the
    /// original pattern text.
    pub fn duplicate(&self) -> (r: MatcherToken<'s>)
        ensures
            r@ == self@,
    {
        match self {
            MatcherToken::RawText(t) => MatcherToken::RawText(t),
            MatcherToken::OneOfText(v) => {
                let mut out: Vec<&'s str> = Vec::new();
                let n: usize = v.len();
                let mut j: usize = 0;
                while j < n
                    invariant
                        n == v.len(),
                        out@ =~= v@.take(j as int),
                        j <= n,
                    decreases n - j,
                {
                    out.push(v[j]);
                    j += 1;
                }
                proof {
                    assert(out@ =~= v@);
                    assert(out.deep_view() =~= v.deep_view());
                }
                MatcherToken::OneOfText(out)
            },
            MatcherToken::WildCard => MatcherToken::WildCard,
        }
    }
}

} // verus!
