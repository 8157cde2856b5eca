//! The pattern compiler: a single left-to-right scan that turns pattern
//! text into a token sequence or a parse error.

use crate::token::{MatcherToken, TokenModel};
use vstd::prelude::*;
use vstd::string::StrSliceExecFns;

verus! {

/// The five ways a pattern can be malformed.
#[derive(Debug, PartialEq, Eq)]
pub enum MatcherPatternParseError {
    /// A `.` inside a `(...)` group.
    WildcardInOneOf,
    /// A `(` inside an already open group.
    RecursiveOneOf,
    /// A `|` outside any group.
    PipeNotAllowedInStandalone,
    /// A `)` outside any group.
    ClosingParenInStandalone,
    /// The pattern ended while a group was still open.
    Incomplete,
}

/// Transient scan state: outside any group (`Standalone`) or inside an
/// unclosed `(...)` group (`OneOf`).
#[derive(PartialEq, Eq, Structural)]
pub enum ParseMode {
    Standalone,
    OneOf,
}

/// The scan's state between characters: the current mode, where the open
/// literal run began, the tokens emitted so far, and the alternatives
/// collected in the open group.
#[verifier::ext_equal]
pub struct ParseState {
    pub in_group: bool,
    pub run_start: Option<int>,
    pub toks: Seq<TokenModel>,
    pub choices: Seq<Seq<char>>,
}

/// The literal run that closes at character index `i`: the characters
/// from `run_start` up to `i`, or nothing when no run is open.
pub open spec fn flushed(p: Seq<char>, i: int, run_start: Option<int>) -> Option<Seq<char>> {
    if i == 0 {
        None
    } else {
        match run_start {
            Some(s) => Some(p.subrange(s, i)),
            None => None,
        }
    }
}

/// Appends a closed literal run, if any, to the emitted tokens.
pub open spec fn raw_flush(toks: Seq<TokenModel>, run: Option<Seq<char>>) -> Seq<TokenModel> {
    match run {
        Some(r) => toks.push(TokenModel::RawText(r)),
        None => toks,
    }
}

/// Appends a closed literal run, if any, to a group's alternatives.
pub open spec fn choice_flush(choices: Seq<Seq<char>>, run: Option<Seq<char>>) -> Seq<
    Seq<char>,
> {
    match run {
        Some(r) => choices.push(r),
        None => choices,
    }
}

/// One step of the scan: how the character `p[i]` transforms the state,
/// or which error it raises.
pub open spec fn parse_step(p: Seq<char>, i: int, st: ParseState) -> Result<
    ParseState,
    MatcherPatternParseError,
> {
    let c = p[i];
    let run = flushed(p, i, st.run_start);
    if c == '.' {
        if st.in_group {
            Err(MatcherPatternParseError::WildcardInOneOf)
        } else {
            Ok(ParseState {
                in_group: false,
                run_start: None,
                toks: raw_flush(st.toks, run).push(TokenModel::WildCard),
                choices: st.choices,
            })
        }
    } else if c == '(' {
        if st.in_group {
            Err(MatcherPatternParseError::RecursiveOneOf)
        } else {
            Ok(ParseState {
                in_group: true,
                run_start: None,
                toks: raw_flush(st.toks, run),
                choices: st.choices,
            })
        }
    } else if c == '|' {
        if !st.in_group {
            Err(MatcherPatternParseError::PipeNotAllowedInStandalone)
        } else {
            Ok(ParseState {
                in_group: true,
                run_start: None,
                toks: st.toks,
                choices: choice_flush(st.choices, run),
            })
        }
    } else if c == ')' {
        if !st.in_group {
            Err(MatcherPatternParseError::ClosingParenInStandalone)
        } else {
            Ok(ParseState {
                in_group: false,
                run_start: None,
                toks: st.toks.push(TokenModel::OneOfText(choice_flush(st.choices, run))),
                choices: Seq::empty(),
            })
        }
    } else {
        Ok(ParseState {
            in_group: st.in_group,
            run_start: if st.run_start is None {
                Some(i)
            } else {
                st.run_start
            },
            toks: st.toks,
            choices: st.choices,
        })
    }
}

/// Runs the scan from character index `i` to the end of the pattern.
pub open spec fn parse_from(p: Seq<char>, i: int, st: ParseState) -> Result<
    Seq<TokenModel>,
    MatcherPatternParseError,
>
    decreases p.len() - i,
{
    if i >= p.len() {
        if st.in_group {
            Err(MatcherPatternParseError::Incomplete)
        } else {
            Ok(raw_flush(st.toks, flushed(p, i, st.run_start)))
        }
    } else {
        match parse_step(p, i, st) {
            Ok(st2) => parse_from(p, i + 1, st2),
            Err(e) => Err(e),
        }
    }
}

/// The scan's starting state.
pub open spec fn init_state() -> ParseState {
    ParseState { in_group: false, run_start: None, toks: Seq::empty(), choices: Seq::empty() }
}

/// The whole pattern compiler, as a function of the pattern's characters.
pub open spec fn spec_compile(p: Seq<char>) -> Result<Seq<TokenModel>, MatcherPatternParseError> {
    parse_from(p, 0, init_state())
}

/// The token models of a compiled vector, in order.
pub open spec fn tokens_model<'a>(toks: Seq<MatcherToken<'a>>) -> Seq<TokenModel> {
    toks.map_values(|t: MatcherToken<'a>| t@)
}

/// A compilation outcome, with each token replaced by its model.
pub open spec fn parse_result_model<'a>(
    r: Result<Vec<MatcherToken<'a>>, MatcherPatternParseError>,
) -> Result<Seq<TokenModel>, MatcherPatternParseError> {
    match r {
        Ok(v) => Ok(tokens_model(v@)),
        Err(e) => Err(e),
    }
}

/// A character index, as the scan state records it.
pub open spec fn run_start_model(o: Option<usize>) -> Option<int> {
    match o {
        Some(s) => Some(s as int),
        None => None,
    }
}

/// The scan state that a parser's in-progress values stand for.
pub open spec fn state_of(
    mode: ParseMode,
    run: Option<usize>,
    toks: Seq<TokenModel>,
    choices: Seq<Seq<char>>,
) -> ParseState {
    ParseState {
        in_group: mode == ParseMode::OneOf,
        run_start: run_start_model(run),
        toks: toks,
        choices: choices,
    }
}

/// The scan, from character index `i` in mode `in_group`, meets no
/// misplaced delimiter: no `.` or `(` inside a group, no `|` or `)`
/// outside one.
pub open spec fn scan_survives(p: Seq<char>, i: int, in_group: bool) -> bool
    decreases p.len() - i,
{
    if i >= p.len() {
        true
    } else {
        let c = p[i];
        if c == '.' {
            !in_group && scan_survives(p, i + 1, false)
        } else if c == '(' {
            !in_group && scan_survives(p, i + 1, true)
        } else if c == '|' {
            in_group && scan_survives(p, i + 1, true)
        } else if c == ')' {
            in_group && scan_survives(p, i + 1, false)
        } else {
            scan_survives(p, i + 1, in_group)
        }
    }
}

/// Whether the scan, from character index `i` in mode `in_group`, is
/// still inside a group when the pattern ends.
pub open spec fn scan_ends_in_group(p: Seq<char>, i: int, in_group: bool) -> bool
    decreases p.len() - i,
{
    if i >= p.len() {
        in_group
    } else {
        let c = p[i];
        if c == '(' {
            scan_ends_in_group(p, i + 1, true)
        } else if c == ')' {
            scan_ends_in_group(p, i + 1, false)
        } else {
            scan_ends_in_group(p, i + 1, in_group)
        }
    }
}

/// Every group is opened and closed, groups do not nest, and no stray
/// `.`, `|` or `)` stands where the grammar forbids it.
pub open spec fn well_formed_pattern(p: Seq<char>) -> bool {
    scan_survives(p, 0, false) && !scan_ends_in_group(p, 0, false)
}

/// The pattern ends while a group is still open, with no earlier
/// misplaced delimiter.
pub open spec fn has_unterminated_group(p: Seq<char>) -> bool {
    scan_survives(p, 0, false) && scan_ends_in_group(p, 0, false)
}

/// How many tokens the scan will still emit from character index `i`:
/// one per literal run outside a group, one per group, one per wildcard.
/// `run_open` says whether a literal run is open as `i` is reached.
pub open spec fn token_count_from(p: Seq<char>, i: int, in_group: bool, run_open: bool) -> nat
    decreases p.len() - i,
{
    if i >= p.len() {
        if !in_group && run_open {
            1
        } else {
            0
        }
    } else {
        let c = p[i];
        if c == '.' {
            (if run_open {
                1nat
            } else {
                0nat
            }) + 1 + token_count_from(p, i + 1, in_group, false)
        } else if c == '(' {
            (if run_open {
                1nat
            } else {
                0nat
            }) + token_count_from(p, i + 1, true, false)
        } else if c == '|' {
            token_count_from(p, i + 1, in_group, false)
        } else if c == ')' {
            1 + token_count_from(p, i + 1, false, false)
        } else {
            token_count_from(p, i + 1, in_group, true)
        }
    }
}

/// The number of tokens a well-formed pattern compiles to: its literal
/// runs outside groups, plus its groups, plus its wildcards.
pub open spec fn pattern_token_count(p: Seq<char>) -> nat {
    token_count_from(p, 0, false, false)
}

proof fn lemma_parse_from_counts(p: Seq<char>, i: int, st: ParseState)
    requires
        0 <= i <= p.len(),
        scan_survives(p, i, st.in_group),
        !scan_ends_in_group(p, i, st.in_group),
        st.run_start is Some ==> i > 0,
    ensures
        parse_from(p, i, st) is Ok,
        parse_from(p, i, st)->Ok_0.len() == st.toks.len() + token_count_from(
            p,
            i,
            st.in_group,
            st.run_start is Some,
        ),
    decreases p.len() - i,
{
    if i < p.len() {
        match parse_step(p, i, st) {
            Ok(st2) => {
                lemma_parse_from_counts(p, i + 1, st2);
            },
            Err(e) => {
                assert(false);
            },
        }
    }
}

/// A pattern with balanced, non-nested groups and no stray delimiters
/// compiles, and the token sequence has exactly one token per literal
/// run outside a group, per group, and per wildcard, in pattern order.
pub proof fn lemma_well_formed_compiles(p: Seq<char>)
    requires
        well_formed_pattern(p),
    ensures
        spec_compile(p) is Ok,
        spec_compile(p)->Ok_0.len() == pattern_token_count(p),
{
    lemma_parse_from_counts(p, 0, init_state());
}

proof fn lemma_parse_from_incomplete(p: Seq<char>, i: int, st: ParseState)
    requires
        0 <= i <= p.len(),
    ensures
        parse_from(p, i, st) == Err::<Seq<TokenModel>, MatcherPatternParseError>(
            MatcherPatternParseError::Incomplete,
        ) <==> (scan_survives(p, i, st.in_group) && scan_ends_in_group(p, i, st.in_group)),
    decreases p.len() - i,
{
    if i < p.len() {
        match parse_step(p, i, st) {
            Ok(st2) => {
                lemma_parse_from_incomplete(p, i + 1, st2);
            },
            Err(e) => {},
        }
    }
}

/// Compilation fails with `Incomplete` exactly on the patterns whose
/// scan meets no misplaced delimiter but ends inside an open group.
pub proof fn lemma_incomplete_iff_unterminated(p: Seq<char>)
    ensures
        spec_compile(p) == Err::<Seq<TokenModel>, MatcherPatternParseError>(
            MatcherPatternParseError::Incomplete,
        ) <==> has_unterminated_group(p),
{
    lemma_parse_from_incomplete(p, 0, init_state());
}

/// Compilation is deterministic: the outcome is a function of the
/// pattern's characters alone, so compiling the same pattern twice
/// yields token sequences of identical structure and content.
pub proof fn lemma_compile_deterministic(p1: Seq<char>, p2: Seq<char>)
    requires
        p1 == p2,
    ensures
        spec_compile(p1) == spec_compile(p2),
{
}

/// A single left-to-right scan over a pattern's characters, tracking
/// the start of the literal run in progress.
pub struct PatternParser<'p> {
    /// The pattern text being scanned.
    pub pattern: &'p str,
    /// Character index where the open literal run began, if one is open.
    pub cur_tok_start: Option<usize>,
}

impl<'p> PatternParser<'p> {
    /// A parser at the start of `pattern`, with no run open.
    pub fn new(pattern: &'p str) -> (r: Self)
        ensures
            r.pattern == pattern,
            r.cur_tok_start is None,
    {
        PatternParser { pattern: pattern, cur_tok_start: None }
    }

    /// Closes the literal run in progress, if any, and hands back its
    /// span, which ends at character index `end_idx`.
    fn maybe_extract_token(&mut self, end_idx: usize) -> (r: Option<&'p str>)
        requires
            old(self).cur_tok_start matches Some(s) ==> s < end_idx,
            end_idx <= old(self).pattern@.len(),
        ensures
            final(self).pattern == old(self).pattern,
            final(self).cur_tok_start is None,
            match flushed(
                old(self).pattern@,
                end_idx as int,
                run_start_model(old(self).cur_tok_start),
            ) {
                Some(run) => r matches Some(t) && t@ == run,
                None => r is None,
            },
    {
        let res: Option<&'p str> = if end_idx == 0 {
            None
        } else {
            match self.cur_tok_start {
                Some(start_idx) => Some(self.pattern.substring_char(start_idx, end_idx)),
                None => None,
            }
        };
        self.cur_tok_start = None;
        res
    }

    /// Runs the scan over the whole pattern: the compiled token sequence,
    /// or the first parse error the scan meets.
    pub fn parse_into(self) -> (r: Result<Vec<MatcherToken<'p>>, MatcherPatternParseError>)
        requires
            self.cur_tok_start is None,
        ensures
            parse_result_model(r) == spec_compile(self.pattern@),
    {
        let mut this = self;
        let pattern: &'p str = this.pattern;
        let n: usize = pattern.unicode_len();
        let mut mat_toks: Vec<MatcherToken<'p>> = Vec::new();
        let mut oneof_choices: Vec<&'p str> = Vec::new();
        let mut parse_mode: ParseMode = ParseMode::Standalone;
        let mut i: usize = 0;
        proof {
            assert(state_of(
                parse_mode,
                this.cur_tok_start,
                tokens_model(mat_toks@),
                oneof_choices.deep_view(),
            ) =~= init_state());
        }
        while i < n
            invariant
                n == pattern@.len(),
                pattern == self.pattern,
                this.pattern == pattern,
                i <= n,
                this.cur_tok_start matches Some(s) ==> s < i,
                parse_from(
                    pattern@,
                    i as int,
                    state_of(
                        parse_mode,
                        this.cur_tok_start,
                        tokens_model(mat_toks@),
                        oneof_choices.deep_view(),
                    ),
                ) == spec_compile(pattern@),
            decreases n - i,
        {
            let ghost st: ParseState = state_of(
                parse_mode,
                this.cur_tok_start,
                tokens_model(mat_toks@),
                oneof_choices.deep_view(),
            );
            let ghost run: Option<Seq<char>> = flushed(pattern@, i as int, st.run_start);
            let c: char = pattern.get_char(i);
            if c == '.' {
                if parse_mode == ParseMode::OneOf {
                    proof {
                        assert(parse_from(pattern@, i as int, st) == Err::<
                            Seq<TokenModel>,
                            MatcherPatternParseError,
                        >(MatcherPatternParseError::WildcardInOneOf));
                    }
                    return Err(MatcherPatternParseError::WildcardInOneOf);
                }
                match this.maybe_extract_token(i) {
                    Some(tok) => {
                        mat_toks.push(MatcherToken::RawText(tok));
                        proof {
                            assert(tokens_model(mat_toks@) =~= raw_flush(st.toks, run));
                        }
                    },
                    None => {},
                }
                mat_toks.push(MatcherToken::WildCard);
                proof {
                    assert(tokens_model(mat_toks@) =~= raw_flush(st.toks, run).push(
                        TokenModel::WildCard,
                    ));
                    assert(state_of(
                        parse_mode,
                        this.cur_tok_start,
                        tokens_model(mat_toks@),
                        oneof_choices.deep_view(),
                    ) =~= parse_step(pattern@, i as int, st)->Ok_0);
                }
            } else if c == '(' {
                if parse_mode == ParseMode::OneOf {
                    proof {
                        assert(parse_from(pattern@, i as int, st) == Err::<
                            Seq<TokenModel>,
                            MatcherPatternParseError,
                        >(MatcherPatternParseError::RecursiveOneOf));
                    }
                    return Err(MatcherPatternParseError::RecursiveOneOf);
                }
                match this.maybe_extract_token(i) {
                    Some(tok) => {
                        mat_toks.push(MatcherToken::RawText(tok));
                        proof {
                            assert(tokens_model(mat_toks@) =~= raw_flush(st.toks, run));
                        }
                    },
                    None => {},
                }
                parse_mode = ParseMode::OneOf;
                proof {
                    assert(state_of(
                        parse_mode,
                        this.cur_tok_start,
                        tokens_model(mat_toks@),
                        oneof_choices.deep_view(),
                    ) =~= parse_step(pattern@, i as int, st)->Ok_0);
                }
            } else if c == '|' {
                if parse_mode == ParseMode::Standalone {
                    proof {
                        assert(parse_from(pattern@, i as int, st) == Err::<
                            Seq<TokenModel>,
                            MatcherPatternParseError,
                        >(MatcherPatternParseError::PipeNotAllowedInStandalone));
                    }
                    return Err(MatcherPatternParseError::PipeNotAllowedInStandalone);
                }
                match this.maybe_extract_token(i) {
                    Some(tok) => {
                        oneof_choices.push(tok);
                        proof {
                            assert(oneof_choices.deep_view() =~= choice_flush(st.choices, run));
                        }
                    },
                    None => {},
                }
                proof {
                    assert(state_of(
                        parse_mode,
                        this.cur_tok_start,
                        tokens_model(mat_toks@),
                        oneof_choices.deep_view(),
                    ) =~= parse_step(pattern@, i as int, st)->Ok_0);
                }
            } else if c == ')' {
                if parse_mode == ParseMode::Standalone {
                    proof {
                        assert(parse_from(pattern@, i as int, st) == Err::<
                            Seq<TokenModel>,
                            MatcherPatternParseError,
                        >(MatcherPatternParseError::ClosingParenInStandalone));
                    }
                    return Err(MatcherPatternParseError::ClosingParenInStandalone);
                }
                match this.maybe_extract_token(i) {
                    Some(tok) => {
                        oneof_choices.push(tok);
                        proof {
                            assert(oneof_choices.deep_view() =~= choice_flush(st.choices, run));
                        }
                    },
                    None => {},
                }
                parse_mode = ParseMode::Standalone;
                mat_toks.push(MatcherToken::OneOfText(oneof_choices));
                oneof_choices = Vec::new();
                proof {
                    assert(tokens_model(mat_toks@) =~= st.toks.push(
                        TokenModel::OneOfText(choice_flush(st.choices, run)),
                    ));
                    assert(state_of(
                        parse_mode,
                        this.cur_tok_start,
                        tokens_model(mat_toks@),
                        oneof_choices.deep_view(),
                    ) =~= parse_step(pattern@, i as int, st)->Ok_0);
                }
            } else {
                if this.cur_tok_start.is_none() {
                    this.cur_tok_start = Some(i);
                }
                proof {
                    assert(state_of(
                        parse_mode,
                        this.cur_tok_start,
                        tokens_model(mat_toks@),
                        oneof_choices.deep_view(),
                    ) =~= parse_step(pattern@, i as int, st)->Ok_0);
                }
            }
            i += 1;
        }
        if parse_mode == ParseMode::OneOf {
            return Err(MatcherPatternParseError::Incomplete);
        }
        let ghost st: ParseState = state_of(
            parse_mode,
            this.cur_tok_start,
            tokens_model(mat_toks@),
            oneof_choices.deep_view(),
        );
        let ghost run: Option<Seq<char>> = flushed(pattern@, n as int, st.run_start);
        match this.maybe_extract_token(n) {
            Some(tok) => {
                mat_toks.push(MatcherToken::RawText(tok));
                proof {
                    assert(tokens_model(mat_toks@) =~= raw_flush(st.toks, run));
                }
            },
            None => {},
        }
        Ok(mat_toks)
    }
}

} // verus!
