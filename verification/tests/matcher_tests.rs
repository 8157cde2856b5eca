use minimatch::matcher::Matcher;
use minimatch::parser::{MatcherPatternParseError, PatternParser};
use minimatch::token::MatcherToken;

#[test]
fn simple_test() {
    let match_string = "abc(d|e|f).".to_string();
    let mut matcher = Matcher::new(&match_string).unwrap();

    assert_eq!(matcher.most_tokens_matched, 0);

    {
        let candidate1 = "abcge".to_string();
        let result = matcher.match_string(&candidate1);
        assert_eq!(result, vec![(MatcherToken::RawText("abc"), "abc")]);
        assert_eq!(matcher.most_tokens_matched, 1);
    }

    {
        let candidate1 = "abcd💪".to_string();
        let result = matcher.match_string(&candidate1);
        assert_eq!(
            result,
            vec![
                (MatcherToken::RawText("abc"), "abc"),
                (MatcherToken::OneOfText(vec!["d", "e", "f"]), "d"),
                (MatcherToken::WildCard, "💪"),
            ]
        );
        assert_eq!(matcher.most_tokens_matched, 3);
    }
}

#[test]
fn broken_matcher() {
    let match_string = "abc(d|e|f.".to_string();
    let matcher = Matcher::new(&match_string);
    assert_eq!(matcher, None);
}

#[test]
fn unterminated_group_is_incomplete() {
    let r = PatternParser::new("(a").parse_into();
    assert!(matches!(r, Err(MatcherPatternParseError::Incomplete)));

    let r = PatternParser::new("abc(d|e|f").parse_into();
    assert!(matches!(r, Err(MatcherPatternParseError::Incomplete)));
}

#[test]
fn wildcard_inside_group_fails_before_the_group_can_end() {
    // The scan stops at the misplaced `.` inside the group, so the
    // still-open group is never reached.
    let r = PatternParser::new("abc(d|e|f.").parse_into();
    assert!(matches!(r, Err(MatcherPatternParseError::WildcardInOneOf)));
}

#[test]
fn each_parse_error_has_its_pattern() {
    let r = PatternParser::new("a)").parse_into();
    assert!(matches!(r, Err(MatcherPatternParseError::ClosingParenInStandalone)));

    let r = PatternParser::new("a|b").parse_into();
    assert!(matches!(r, Err(MatcherPatternParseError::PipeNotAllowedInStandalone)));

    let r = PatternParser::new("(a(b))").parse_into();
    assert!(matches!(r, Err(MatcherPatternParseError::RecursiveOneOf)));

    let r = PatternParser::new("(a.)").parse_into();
    assert!(matches!(r, Err(MatcherPatternParseError::WildcardInOneOf)));
}

#[test]
fn well_formed_patterns_compile_with_expected_tokens() {
    let tokens = PatternParser::new("abc(d|e|f).").parse_into().unwrap();
    assert_eq!(
        tokens,
        vec![
            MatcherToken::RawText("abc"),
            MatcherToken::OneOfText(vec!["d", "e", "f"]),
            MatcherToken::WildCard,
        ]
    );

    let tokens = PatternParser::new("").parse_into().unwrap();
    assert_eq!(tokens, vec![]);

    let tokens = PatternParser::new("(x)").parse_into().unwrap();
    assert_eq!(tokens, vec![MatcherToken::OneOfText(vec!["x"])]);

    let tokens = PatternParser::new(".a.").parse_into().unwrap();
    assert_eq!(
        tokens,
        vec![MatcherToken::WildCard, MatcherToken::RawText("a"), MatcherToken::WildCard]
    );
}

#[test]
fn compiling_twice_gives_identical_tokens() {
    let pattern = "ab(c|d).e";
    let first = PatternParser::new(pattern).parse_into().unwrap();
    let second = PatternParser::new(pattern).parse_into().unwrap();
    assert_eq!(first, second);
}

#[test]
fn longer_alternative_wins_regardless_of_listing_order() {
    let pattern = "(ab|a)".to_string();
    let mut matcher = Matcher::new(&pattern).unwrap();
    let input = "abx".to_string();
    let result = matcher.match_string(&input);
    assert_eq!(result, vec![(MatcherToken::OneOfText(vec!["ab", "a"]), "ab")]);

    let pattern = "(a|aa)".to_string();
    let mut matcher = Matcher::new(&pattern).unwrap();
    let input = "aaa".to_string();
    let result = matcher.match_string(&input);
    assert_eq!(result, vec![(MatcherToken::OneOfText(vec!["a", "aa"]), "aa")]);
}

#[test]
fn trace_never_consumes_more_than_the_input() {
    let pattern = "ab.".to_string();
    let mut matcher = Matcher::new(&pattern).unwrap();
    let input = "ab".to_string();
    let result = matcher.match_string(&input);
    assert_eq!(result, vec![(MatcherToken::RawText("ab"), "ab")]);
    let consumed: usize = result.iter().map(|p| p.1.len()).sum();
    assert!(consumed <= input.len());
}

#[test]
fn best_match_counter_never_decreases() {
    let pattern = "abc(d|e|f).".to_string();
    let mut matcher = Matcher::new(&pattern).unwrap();
    assert_eq!(matcher.best_match_length(), 0);

    let good = "abcd💪".to_string();
    matcher.match_string(&good);
    assert_eq!(matcher.best_match_length(), 3);

    let bad = "abcge".to_string();
    let result = matcher.match_string(&bad);
    assert_eq!(result.len(), 1);
    assert_eq!(matcher.best_match_length(), 3);

    let worse = "zzz".to_string();
    let result = matcher.match_string(&worse);
    assert_eq!(result.len(), 0);
    assert_eq!(matcher.best_match_length(), 3);
}

#[test]
fn wildcard_takes_one_whole_character() {
    let pattern = ".".to_string();
    let mut matcher = Matcher::new(&pattern).unwrap();
    let input = "💪x".to_string();
    let result = matcher.match_string(&input);
    assert_eq!(result, vec![(MatcherToken::WildCard, "💪")]);

    let empty = "".to_string();
    let result = matcher.match_string(&empty);
    assert_eq!(result, vec![]);
}

#[test]
fn empty_group_matches_nothing() {
    let pattern = "()".to_string();
    let mut matcher = Matcher::new(&pattern).unwrap();
    let input = "x".to_string();
    let result = matcher.match_string(&input);
    assert_eq!(result, vec![]);
}

#[test]
fn empty_pattern_matches_with_zero_tokens() {
    let pattern = "".to_string();
    let mut matcher = Matcher::new(&pattern).unwrap();
    let input = "anything".to_string();
    let result = matcher.match_string(&input);
    assert_eq!(result, vec![]);
    assert_eq!(matcher.best_match_length(), 0);
}

#[test]
fn multibyte_pattern_text_keeps_its_spans() {
    let pattern = "日本(語|語学).".to_string();
    let mut matcher = Matcher::new(&pattern).unwrap();
    let input = "日本語学X".to_string();
    let result = matcher.match_string(&input);
    assert_eq!(
        result,
        vec![
            (MatcherToken::RawText("日本"), "日本"),
            (MatcherToken::OneOfText(vec!["語", "語学"]), "語学"),
            (MatcherToken::WildCard, "X"),
        ]
    );
    assert_eq!(matcher.best_match_length(), 3);
}

#[test]
fn token_match_string_behaves_per_variant() {
    let raw = MatcherToken::RawText("ab");
    assert_eq!(raw.match_string("abc"), Some("ab"));
    assert_eq!(raw.match_string("a"), None);

    let one_of = MatcherToken::OneOfText(vec!["d", "e", "f"]);
    assert_eq!(one_of.match_string("eel"), Some("e"));
    assert_eq!(one_of.match_string("g"), None);

    let wild = MatcherToken::WildCard;
    assert_eq!(wild.match_string("xy"), Some("x"));
    assert_eq!(wild.match_string(""), None);
}
