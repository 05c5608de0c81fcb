use backtrack_regex::{fold_nfa_states, Regex, NFA};

#[test]
fn test_parse_word_or_dot() {
    let re = Regex::parse("ab.ba").expect("Failed to parse regex");

    let expect = Regex {
        nfa: fold_nfa_states(vec![
            NFA::character('a'),
            NFA::character('b'),
            NFA::dot(),
            NFA::character('b'),
            NFA::character('a'),
        ]),
    };

    assert_eq!(format!("{re:?}"), format!("{expect:?}"));
}

#[test]
fn test_parse_choice_1() {
    let re = Regex::parse("a|b").expect("Failed to parse regex");

    let expect = Regex {
        nfa: fold_nfa_states(vec![NFA::choice(vec![
            fold_nfa_states(vec![NFA::character('a')]),
            fold_nfa_states(vec![NFA::character('b')]),
        ])]),
    };

    assert_eq!(format!("{re:?}"), format!("{expect:?}"));
}

#[test]
fn test_parse_choice_2() {
    let re = Regex::parse("a.|.b").expect("Failed to parse regex");

    let expect = Regex {
        nfa: fold_nfa_states(vec![NFA::choice(vec![
            fold_nfa_states(vec![NFA::character('a'), NFA::dot()]),
            fold_nfa_states(vec![NFA::dot(), NFA::character('b')]),
        ])]),
    };

    assert_eq!(format!("{re:?}"), format!("{expect:?}"));
}

#[test]
fn test_parse_group_1() {
    let re = Regex::parse("(a|b)").expect("Failed to parse regex");

    let expect = Regex {
        nfa: fold_nfa_states(vec![NFA::group(fold_nfa_states(vec![NFA::choice(vec![
            fold_nfa_states(vec![NFA::character('a')]),
            fold_nfa_states(vec![NFA::character('b')]),
        ])]))]),
    };

    assert_eq!(format!("{re:?}"), format!("{expect:?}"));
}

#[test]
fn test_parse_group_2() {
    let re = Regex::parse(".(a.|b).|.(c|.d).").expect("Failed to parse regex");

    let expect = Regex {
        nfa: fold_nfa_states(vec![NFA::choice(vec![
            fold_nfa_states(vec![
                NFA::dot(),
                NFA::group(fold_nfa_states(vec![NFA::choice(vec![
                    fold_nfa_states(vec![NFA::character('a'), NFA::dot()]),
                    fold_nfa_states(vec![NFA::character('b')]),
                ])])),
                NFA::dot(),
            ]),
            fold_nfa_states(vec![
                NFA::dot(),
                NFA::group(fold_nfa_states(vec![NFA::choice(vec![
                    fold_nfa_states(vec![NFA::character('c')]),
                    fold_nfa_states(vec![NFA::dot(), NFA::character('d')]),
                ])])),
                NFA::dot(),
            ]),
        ])]),
    };

    assert_eq!(format!("{re:?}"), format!("{expect:?}"));
}

#[test]
fn test_parse_repeat_1() {
    let re = Regex::parse("aa*b").expect("Failed to parse regex");

    let expect = Regex {
        nfa: fold_nfa_states(vec![
            NFA::character('a'),
            NFA::repeat(fold_nfa_states(vec![NFA::character('a')])),
            NFA::character('b'),
        ]),
    };

    assert_eq!(format!("{re:?}"), format!("{expect:?}"));
}

#[test]
fn test_parse_complex_regex_1() {
    let re = Regex::parse("..*(abc|ab.*)*ab|(cba)*").expect("Failed to parse regex");

    let expect = Regex {
        nfa: fold_nfa_states(vec![NFA::choice(vec![
            fold_nfa_states(vec![
                NFA::dot(),
                NFA::repeat(fold_nfa_states(vec![NFA::dot()])),
                NFA::repeat(fold_nfa_states(vec![NFA::group(fold_nfa_states(vec![
                    NFA::choice(vec![
                        fold_nfa_states(vec![
                            NFA::character('a'),
                            NFA::character('b'),
                            NFA::character('c'),
                        ]),
                        fold_nfa_states(vec![
                            NFA::character('a'),
                            NFA::character('b'),
                            NFA::repeat(fold_nfa_states(vec![NFA::dot()])),
                        ]),
                    ]),
                ]))])),
                NFA::character('a'),
                NFA::character('b'),
            ]),
            fold_nfa_states(vec![NFA::repeat(fold_nfa_states(vec![NFA::group(
                fold_nfa_states(vec![
                    NFA::character('c'),
                    NFA::character('b'),
                    NFA::character('a'),
                ]),
            )]))]),
        ])]),
    };

    assert_eq!(format!("{re:?}"), format!("{expect:?}"));
}

#[test]
fn parse_same_pattern_twice_gives_equal_graphs() {
    let a = Regex::parse(".*x(1(abc)*|2(def)*)x.*").expect("Failed to parse regex");
    let b = Regex::parse(".*x(1(abc)*|2(def)*)x.*").expect("Failed to parse regex");
    assert_eq!(format!("{a:?}"), format!("{b:?}"));
}

#[test]
fn parse_different_patterns_gives_different_graphs() {
    let a = Regex::parse("ab").expect("Failed to parse regex");
    let b = Regex::parse("a.").expect("Failed to parse regex");
    assert_ne!(format!("{a:?}"), format!("{b:?}"));
}

#[test]
fn parse_single_alternative_allocates_no_choice() {
    let re = Regex::parse("ab").expect("Failed to parse regex");
    assert!(!format!("{re:?}").contains("Choice"));
    let re = Regex::parse("a|b").expect("Failed to parse regex");
    assert!(format!("{re:?}").contains("Choice"));
}

#[test]
fn parse_reads_characters_not_bytes() {
    let re = Regex::parse("é.ü").expect("Failed to parse regex");
    let expect = Regex {
        nfa: fold_nfa_states(vec![NFA::character('é'), NFA::dot(), NFA::character('ü')]),
    };
    assert_eq!(format!("{re:?}"), format!("{expect:?}"));
    assert_eq!(re.test("éxü"), true);
    assert_eq!(re.test("exu"), false);
}

#[test]
fn fold_of_nothing_is_head_then_accept() {
    let nfa = fold_nfa_states(vec![]);
    assert_eq!(format!("{nfa:?}"), "Head(Head { next: Some(Accept) })");
}

#[test]
fn fold_links_each_state_to_the_next() {
    let nfa = fold_nfa_states(vec![NFA::character('a'), NFA::dot()]);
    assert_eq!(
        format!("{nfa:?}"),
        "Head(Head { next: Some(Character(Character { character: 'a', next: Some(Dot(Dot { next: Some(Accept) })) })) })"
    );
}

#[test]
fn concatnate_fills_the_first_unset_continuation() {
    let mut nfa = NFA::character('a');
    nfa.concatnate(NFA::dot());
    nfa.concatnate(NFA::character('b'));
    assert_eq!(
        format!("{nfa:?}"),
        "Character(Character { character: 'a', next: Some(Dot(Dot { next: Some(Character(Character { character: 'b', next: None })) })) })"
    );
}

#[test]
fn concatnate_leaves_an_accept_alone() {
    let mut nfa = NFA::accept();
    nfa.concatnate(NFA::dot());
    assert_eq!(format!("{nfa:?}"), "Accept");
    let mut chain = fold_nfa_states(vec![NFA::dot()]);
    let before = format!("{chain:?}");
    chain.concatnate(NFA::character('z'));
    assert_eq!(format!("{chain:?}"), before);
}

#[test]
fn concatnate_stays_out_of_alternatives_and_inner_chains() {
    let mut nfa = NFA::group(fold_nfa_states(vec![NFA::dot()]));
    nfa.concatnate(NFA::accept());
    assert_eq!(
        format!("{nfa:?}"),
        "Group(Group { nfa: Head(Head { next: Some(Dot(Dot { next: Some(Accept) })) }), next: Some(Accept) })"
    );
}
