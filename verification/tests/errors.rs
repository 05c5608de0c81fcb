use backtrack_regex::{ParseError, Regex};

fn error_of(pattern: &str) -> ParseError {
    match Regex::parse(pattern) {
        Ok(re) => panic!("{pattern} compiled to {re:?}"),
        Err(e) => e,
    }
}

#[test]
fn unclosed_group_is_unbalanced() {
    assert_eq!(error_of("(a"), ParseError::UnbalancedGroup);
    assert_eq!(error_of("("), ParseError::UnbalancedGroup);
    assert_eq!(error_of("(a|"), ParseError::UnbalancedGroup);
    assert_eq!(error_of("((a)"), ParseError::UnbalancedGroup);
    assert_eq!(error_of("a(b"), ParseError::UnbalancedGroup);
}

#[test]
fn closing_parenthesis_behind_a_pattern_is_trailing_input() {
    assert_eq!(error_of("a)"), ParseError::TrailingInput);
    assert_eq!(error_of("(a))"), ParseError::TrailingInput);
}

#[test]
fn closing_parenthesis_in_place_of_an_atom_is_unbalanced() {
    assert_eq!(error_of(")"), ParseError::UnbalancedGroup);
    assert_eq!(error_of("a|)"), ParseError::UnbalancedGroup);
}

#[test]
fn alternative_without_an_atom_is_empty() {
    assert_eq!(error_of("|a"), ParseError::EmptyAlternative);
    assert_eq!(error_of("a|"), ParseError::EmptyAlternative);
    assert_eq!(error_of("a||b"), ParseError::EmptyAlternative);
    assert_eq!(error_of(""), ParseError::EmptyAlternative);
    assert_eq!(error_of("()"), ParseError::EmptyAlternative);
    assert_eq!(error_of("(a|)"), ParseError::EmptyAlternative);
    assert_eq!(error_of("*a"), ParseError::EmptyAlternative);
}

#[test]
fn second_star_is_trailing_input() {
    assert_eq!(error_of("a**"), ParseError::TrailingInput);
    assert_eq!(error_of("a*b**c"), ParseError::TrailingInput);
}

#[test]
fn second_star_inside_a_group_leaves_the_group_unclosed() {
    assert_eq!(error_of("(a**)"), ParseError::UnbalancedGroup);
}

#[test]
fn first_failure_decides_the_error() {
    assert_eq!(error_of("|a)"), ParseError::EmptyAlternative);
    assert_eq!(error_of("(a**"), ParseError::UnbalancedGroup);
    assert_eq!(error_of("a)|"), ParseError::TrailingInput);
}

#[test]
fn star_binds_to_the_atom_before_it() {
    let re = Regex::parse("ab*").expect("Failed to parse regex");
    assert_eq!(re.test("a"), true);
    assert_eq!(re.test("abbb"), true);
    assert_eq!(re.test("b"), false);
    let re = Regex::parse("(ab)*c").expect("Failed to parse regex");
    assert_eq!(re.test("ababc"), true);
    assert_eq!(re.test("abbc"), false);
    assert_eq!(re.test("c"), true);
}
