//! The matcher engine: walks a compiled token sequence over an input
//! string and reports how far it got.

use crate::parser::{spec_compile, tokens_model, PatternParser};
use crate::token::{lemma_token_match_prefix, token_matches, MatcherToken, TokenModel};
use vstd::prelude::*;
use vstd::string::StrSliceExecFns;

verus! {

/// The match trace that a token sequence produces on `rem`: one
/// (token, matched characters) pair per token, walked in order from the
/// front, each consuming its match from the remaining input; the trace
/// stops at the first token that fails.
pub open spec fn spec_trace(toks: Seq<TokenModel>, rem: Seq<char>) -> Seq<(TokenModel, Seq<char>)>
    decreases toks.len(),
{
    if toks.len() == 0 {
        Seq::empty()
    } else {
        match token_matches(toks[0], rem) {
            Some(m) => seq![(toks[0], m)] + spec_trace(
                toks.drop_first(),
                rem.skip(m.len() as int),
            ),
            None => Seq::empty(),
        }
    }
}

/// An exec match trace, with each entry replaced by its model.
pub open spec fn trace_model<'s, 'm>(r: Seq<(MatcherToken<'s>, &'m str)>) -> Seq<
    (TokenModel, Seq<char>),
> {
    r.map_values(|p: (MatcherToken<'s>, &'m str)| (p.0@, p.1@))
}

/// The number of characters a match trace consumes, over all its entries.
pub open spec fn trace_consumed(tr: Seq<(TokenModel, Seq<char>)>) -> nat
    decreases tr.len(),
{
    if tr.len() == 0 {
        0
    } else {
        tr[0].1.len() + trace_consumed(tr.drop_first())
    }
}

proof fn lemma_trace_consumed_take(tr: Seq<(TokenModel, Seq<char>)>, i: int)
    requires
        0 <= i <= tr.len(),
    ensures
        trace_consumed(tr.take(i)) <= trace_consumed(tr),
    decreases tr.len(),
{
    if i > 0 && tr.len() > 0 {
        lemma_trace_consumed_take(tr.drop_first(), i - 1);
        assert(tr.take(i).drop_first() =~= tr.drop_first().take(i - 1));
        assert(tr.take(i)[0] == tr[0]);
    }
}

/// Matching is prefix-bounded: the characters matched by the whole
/// trace, and by each of its prefixes, never outnumber the input's.
pub proof fn lemma_trace_prefix_bounded(toks: Seq<TokenModel>, input: Seq<char>)
    ensures
        trace_consumed(spec_trace(toks, input)) <= input.len(),
        forall|i: int|
            0 <= i <= spec_trace(toks, input).len() ==> trace_consumed(
                #[trigger] spec_trace(toks, input).take(i),
            ) <= input.len(),
    decreases toks.len(),
{
    if toks.len() > 0 {
        match token_matches(toks[0], input) {
            Some(m) => {
                lemma_token_match_prefix(toks[0], input);
                lemma_trace_prefix_bounded(toks.drop_first(), input.skip(m.len() as int));
                assert(spec_trace(toks, input).drop_first() =~= spec_trace(
                    toks.drop_first(),
                    input.skip(m.len() as int),
                ));
            },
            None => {},
        }
    }
    assert forall|i: int| 0 <= i <= spec_trace(toks, input).len() implies trace_consumed(
        #[trigger] spec_trace(toks, input).take(i),
    ) <= input.len() by {
        lemma_trace_consumed_take(spec_trace(toks, input), i);
    }
}

/// A compiled pattern: the original text, its token sequence, and a
/// high-water mark of the longest match trace this instance has ever
/// produced.
#[derive(Debug, PartialEq, Eq)]
pub struct Matcher<'s> {
    /// The pattern text this matcher was compiled from.
    pub text: &'s str,
    /// The compiled tokens, in pattern order.
    pub tokens: Vec<MatcherToken<'s>>,
    /// The most tokens any single match call on this instance has matched.
    pub most_tokens_matched: usize,
}

impl<'s> Matcher<'s> {
    /// Compiles `text`: a matcher over its token sequence, with the
    /// high-water mark at zero, or `None` when the pattern is malformed.
    pub fn new(text: &'s str) -> (r: Option<Matcher<'s>>)
        ensures
            r is Some <==> spec_compile(text@) is Ok,
            r matches Some(m) ==> m.text == text && tokens_model(m.tokens@) == spec_compile(
                text@,
            )->Ok_0 && m.most_tokens_matched == 0,
    {
        let pattern = PatternParser::new(text).parse_into();
        match pattern {
            Ok(tokens) => Some(Matcher { text, tokens, most_tokens_matched: 0 }),
            Err(_) => None,
        }
    }

    /// Walks the tokens in order over `string`, each consuming its match
    /// from the front of what remains; stops at the first failing token.
    /// Returns the (token, matched slice) trace and raises the high-water
    /// mark to its length when that is a record for this instance.
    pub fn match_string<'m>(&mut self, string: &'m str) -> (r: Vec<(MatcherToken<'s>, &'m str)>)
        ensures
            final(self).text == old(self).text,
            final(self).tokens == old(self).tokens,
            trace_model(r@) == spec_trace(tokens_model(old(self).tokens@), string@),
            final(self).most_tokens_matched >= old(self).most_tokens_matched,
            final(self).most_tokens_matched as int == (if old(self).most_tokens_matched as int
                >= r@.len() {
                old(self).most_tokens_matched as int
            } else {
                r@.len() as int
            }),
    {
        let ghost toks_m: Seq<TokenModel> = tokens_model(self.tokens@);
        let total: usize = string.unicode_len();
        let mut matched_till: usize = 0;
        let mut match_result: Vec<(MatcherToken<'s>, &'m str)> = Vec::new();
        let n: usize = self.tokens.len();
        let mut idx: usize = 0;
        let mut failed: bool = false;
        proof {
            assert(trace_model(match_result@) =~= Seq::<(TokenModel, Seq<char>)>::empty());
            assert(toks_m.skip(0) =~= toks_m);
            assert(string@.skip(0) =~= string@);
        }
        while idx < n && !failed
            invariant
                self.text == old(self).text,
                self.tokens == old(self).tokens,
                self.most_tokens_matched == old(self).most_tokens_matched,
                toks_m == tokens_model(self.tokens@),
                n == self.tokens@.len(),
                total == string@.len(),
                idx <= n,
                matched_till <= total,
                match_result@.len() == idx,
                spec_trace(toks_m, string@) == trace_model(match_result@) + (if failed {
                    Seq::<(TokenModel, Seq<char>)>::empty()
                } else {
                    spec_trace(toks_m.skip(idx as int), string@.skip(matched_till as int))
                }),
            decreases n - idx + (if failed {
                0int
            } else {
                1int
            }),
        {
            let rem = string.substring_char(matched_till, total);
            proof {
                assert(rem@ =~= string@.skip(matched_till as int));
            }
            let tok_ref = &self.tokens[idx];
            let ghost tm: TokenModel = tok_ref@;
            proof {
                assert(toks_m[idx as int] == tm);
                assert(toks_m.skip(idx as int)[0] == toks_m[idx as int]);
            }
            match tok_ref.match_string(rem) {
                Some(matched) => {
                    proof {
                        lemma_token_match_prefix(tm, rem@);
                    }
                    let k: usize = matched.unicode_len();
                    let ghost prev_res = match_result@;
                    match_result.push((tok_ref.duplicate(), matched));
                    proof {
                        assert(trace_model(match_result@) =~= trace_model(prev_res).push(
                            (tm, matched@),
                        ));
                        assert(toks_m.skip(idx as int).drop_first() =~= toks_m.skip(idx + 1));
                        assert(string@.skip(matched_till as int).skip(matched@.len() as int)
                            =~= string@.skip(matched_till + k));
                        assert(spec_trace(toks_m.skip(idx as int), rem@) == seq![(tm, matched@)]
                            + spec_trace(toks_m.skip(idx + 1), string@.skip(matched_till + k)));
                        assert(trace_model(prev_res) + spec_trace(
                            toks_m.skip(idx as int),
                            rem@,
                        ) =~= trace_model(match_result@) + spec_trace(
                            toks_m.skip(idx + 1),
                            string@.skip(matched_till + k),
                        ));
                    }
                    matched_till = matched_till + k;
                    idx += 1;
                },
                None => {
                    proof {
                        assert(spec_trace(toks_m.skip(idx as int), rem@) =~= Seq::<
                            (TokenModel, Seq<char>),
                        >::empty());
                    }
                    failed = true;
                },
            }
        }
        proof {
            if !failed {
                assert(toks_m.skip(n as int) =~= Seq::<TokenModel>::empty());
            }
            assert(spec_trace(toks_m, string@) =~= trace_model(match_result@));
        }
        let len_res: usize = match_result.len();
        if self.most_tokens_matched < len_res {
            self.most_tokens_matched = len_res;
        }
        match_result
    }

    /// Read accessor for the high-water mark of matched token counts.
    pub fn best_match_length(&self) -> (r: usize)
        ensures
            r == self.most_tokens_matched,
    {
        self.most_tokens_matched
    }
}

} // verus!
