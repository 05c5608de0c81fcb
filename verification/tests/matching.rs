use backtrack_regex::{fold_nfa_states, MatchError, Regex, NFA, RECURSION_LIMIT};

#[test]
fn test_regex_1() {
    let re = Regex::parse("a*").expect("Failed to parse regex");
    assert_eq!(re.test(""), true, r#"test to """#);
    assert_eq!(re.test("a"), true, r#"test to "a""#);
    assert_eq!(re.test("aaa"), true, r#"test to "aaa""#);
    assert_eq!(re.test(".a"), true, r#"test to ".a""#);
}

#[test]
fn test_regex_2() {
    let re = Regex::parse("x*x").expect("Failed to parse regex");
    assert_eq!(re.test("xxx"), true, r#"test to "xxx""#);
    assert_eq!(re.test("xyx"), true, r#"test to "xyx""#);
    assert_eq!(re.test("yyx"), false, r#"test to "yyx""#);
    assert_eq!(re.test("yyy"), false, r#"test to "yyy""#);
}

#[test]
fn test_regex_3() {
    let re = Regex::parse("aa*|bb*").expect("Failed to parse regex");
    assert_eq!(re.test("a"), true, r#"test to "a""#);
    assert_eq!(re.test("b"), true, r#"test to "b""#);
    assert_eq!(re.test("aaa"), true, r#"test to "aaa""#);
    assert_eq!(re.test("bbb"), true, r#"test to "bbb""#);
    assert_eq!(re.test(""), false, r#"test to """#);
}

#[test]
fn test_regex_4() {
    let re = Regex::parse("x..*").expect("Failed to parse regex");
    assert_eq!(re.test(""), false, r#"test to """#);
    assert_eq!(re.test("x"), false, r#"test to "x""#);
    assert_eq!(re.test("xx"), true, r#"test to "xx""#);
    assert_eq!(re.test("xxx"), true, r#"test to "xxx""#);
    assert_eq!(re.test("xxy"), true, r#"test to "xxy""#);
    assert_eq!(re.test("xxyy"), true, r#"test to "xxyy""#);
    assert_eq!(re.test("xxyyzz"), true, r#"test to "xxyyzz""#);
}

#[test]
fn test_complex_regex_3() {
    let re = Regex::parse(".*x(1(abc)*|2(def)*)x.*").expect("Failed to parse regex");
    assert_eq!(re.test("xxx1abcabcxxx"), true, r#"test to "xxx1abcabcxxx""#);
    assert_eq!(re.test("x2defdefx"), true, r#"test to "x2defdefx""#);
    assert_eq!(
        re.test("xxx1abcdefxxx"),
        false,
        r#"test to "xxx1abcdefxxx""#
    );
    assert_eq!(
        re.test("xxx2defabcxxx"),
        false,
        r#"test to "xxx2defabcxxx""#
    );
}

#[test]
fn plain_pattern_matches_its_own_text() {
    for p in ["a", "ab.ba", "....", "hello world", "x.y.z"] {
        let re = Regex::parse(p).expect("Failed to parse regex");
        assert_eq!(re.test(p), true, "{p}");
    }
}

#[test]
fn plain_pattern_matches_its_text_with_a_suffix() {
    for p in ["a", "ab.ba", "....", "x.y.z"] {
        let re = Regex::parse(p).expect("Failed to parse regex");
        for s in ["", "z", "more text", "|*()"] {
            let input = format!("{p}{s}");
            assert_eq!(re.test(&input), true, "{p} on {input}");
        }
    }
}

#[test]
fn plain_pattern_is_anchored_at_the_start() {
    let re = Regex::parse("ab").expect("Failed to parse regex");
    assert_eq!(re.test("xab"), false);
    assert_eq!(re.test("a"), false);
    assert_eq!(re.test("ba"), false);
}

#[test]
fn literal_pattern_rejects_the_empty_input() {
    for p in ["a", "ab", "hello"] {
        let re = Regex::parse(p).expect("Failed to parse regex");
        assert_eq!(re.test(""), false, "{p}");
    }
}

#[test]
fn walk_returns_the_position_behind_what_it_consumed() {
    let input: Vec<char> = "abcd".chars().collect();
    let re = Regex::parse("ab").expect("Failed to parse regex");
    assert_eq!(re.nfa.test(&input, 0, 16), Ok(Some(2)));
    assert_eq!(re.nfa.test(&input, 1, 16), Ok(None));
    let re = Regex::parse(".*").expect("Failed to parse regex");
    assert_eq!(re.nfa.test(&input, 1, 16), Ok(Some(4)));
    assert_eq!(re.nfa.test(&input, 4, 16), Ok(Some(4)));
    assert_eq!(NFA::accept().test(&input, 3, 1), Ok(Some(3)));
}

#[test]
fn unset_continuation_fails() {
    let input: Vec<char> = "a".chars().collect();
    assert_eq!(NFA::head().test(&input, 0, 8), Ok(None));
    assert_eq!(NFA::character('a').test(&input, 0, 8), Ok(None));
    assert_eq!(NFA::dot().test(&input, 0, 8), Ok(None));
    assert_eq!(NFA::repeat(fold_nfa_states(vec![NFA::dot()])).test(&input, 0, 8), Ok(None));
    assert_eq!(NFA::group(fold_nfa_states(vec![NFA::dot()])).test(&input, 0, 8), Ok(None));
    let both = vec![fold_nfa_states(vec![NFA::dot()]), fold_nfa_states(vec![NFA::dot()])];
    assert_eq!(NFA::choice(both).test(&input, 0, 8), Ok(None));
}

#[test]
fn choice_takes_the_first_alternative_that_completes() {
    let re = Regex::parse("(a|ab)c").expect("Failed to parse regex");
    assert_eq!(re.test("ac"), true);
    assert_eq!(re.test("abc"), false);
    let re = Regex::parse("(ab|a)c").expect("Failed to parse regex");
    assert_eq!(re.test("abc"), true);
    assert_eq!(re.test("ac"), true);
}

#[test]
fn group_is_not_entered_again_once_it_completed() {
    let re = Regex::parse("(a*)a").expect("Failed to parse regex");
    assert_eq!(re.test("aa"), false);
    let re = Regex::parse("a*a").expect("Failed to parse regex");
    assert_eq!(re.test("aa"), true);
}

#[test]
fn repeat_gives_back_one_application_at_a_time() {
    let input: Vec<char> = "aaab".chars().collect();
    let re = Regex::parse("a*ab").expect("Failed to parse regex");
    assert_eq!(re.nfa.test(&input, 0, 64), Ok(Some(4)));
    let re = Regex::parse("a*").expect("Failed to parse regex");
    assert_eq!(re.nfa.test(&input, 0, 64), Ok(Some(3)));
}

#[test]
fn budget_of_a_plain_pattern_is_its_length_and_two() {
    let re = Regex::parse("abc").expect("Failed to parse regex");
    assert_eq!(re.test_with_limit("abc", 5), Ok(true));
    assert_eq!(re.test_with_limit("abcdef", 5), Ok(true));
    assert_eq!(re.test_with_limit("abc", 4), Err(MatchError::RecursionLimitExceeded));
    assert_eq!(re.test_with_limit("abc", 0), Err(MatchError::RecursionLimitExceeded));
    assert_eq!(re.test_with_limit("abx", 4), Ok(false));
    assert_eq!(re.test_with_limit("abx", 3), Err(MatchError::RecursionLimitExceeded));
    assert_eq!(re.test_with_limit("xbc", 2), Ok(false));
    assert_eq!(re.test_with_limit("", 2), Ok(false));
    assert_eq!(re.test_with_limit("", 1), Err(MatchError::RecursionLimitExceeded));
}

#[test]
fn repetition_of_an_empty_match_exceeds_the_budget() {
    let re = Regex::parse("(a*)*").expect("Failed to parse regex");
    assert_eq!(re.test_with_limit("b", 64), Err(MatchError::RecursionLimitExceeded));
    assert_eq!(
        re.test_with_limit("b", RECURSION_LIMIT),
        Err(MatchError::RecursionLimitExceeded)
    );
    assert_eq!(re.test("b"), false);
}

#[test]
fn long_input_exceeds_the_budget_of_test() {
    let re = Regex::parse("a*").expect("Failed to parse regex");
    let short = "a".repeat(100);
    assert_eq!(re.test(&short), true);
    let long = "a".repeat(4 * RECURSION_LIMIT);
    assert_eq!(
        re.test_with_limit(&long, RECURSION_LIMIT),
        Err(MatchError::RecursionLimitExceeded)
    );
    assert_eq!(re.test(&long), false);
}

#[test]
fn larger_budget_gives_the_same_answer() {
    let re = Regex::parse(".*x(1(abc)*|2(def)*)x.*").expect("Failed to parse regex");
    for input in ["xxx1abcabcxxx", "x2defdefx", "xxx1abcdefxxx", "", "x1x"] {
        let mut answered: Option<bool> = None;
        for depth in 0..200usize {
            match (re.test_with_limit(input, depth), answered) {
                (Ok(found), None) => answered = Some(found),
                (Ok(found), Some(before)) => assert_eq!(found, before, "{input} at {depth}"),
                (Err(e), None) => assert_eq!(e, MatchError::RecursionLimitExceeded),
                (Err(_), Some(_)) => panic!("{input} lost its answer at {depth}"),
            }
        }
        assert_eq!(answered, Some(re.test(input)), "{input}");
    }
}

#[test]
fn walk_ends_behind_a_text_of_the_pattern() {
    let input: Vec<char> = "abababx".chars().collect();
    let re = Regex::parse("(ab)*").expect("Failed to parse regex");
    assert_eq!(re.nfa.test(&input, 0, 64), Ok(Some(6)));
    assert_eq!(re.nfa.test(&input, 1, 64), Ok(Some(1)));
    let re = Regex::parse("a(b|c)*.").expect("Failed to parse regex");
    let input: Vec<char> = "abcbcd!".chars().collect();
    assert_eq!(re.nfa.test(&input, 0, 64), Ok(Some(6)));
}

#[test]
fn walk_from_behind_the_input_consumes_nothing() {
    let input: Vec<char> = "ab".chars().collect();
    let re = Regex::parse("a*").expect("Failed to parse regex");
    assert_eq!(re.nfa.test(&input, 5, 64), Ok(Some(5)));
    let re = Regex::parse("a").expect("Failed to parse regex");
    assert_eq!(re.nfa.test(&input, 5, 64), Ok(None));
}
