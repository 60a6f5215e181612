use rust_llm::decoder::{create_code_grammar, create_json_grammar, Grammar};

#[test]
fn grammar_without_rules_is_an_error() {
    match Grammar::from_ggnf("# only a comment\n\n") {
        Err(e) => assert_eq!(e, "No rules found in grammar"),
        Ok(_) => panic!("expected an error"),
    }
}

#[test]
fn grammar_allows_nothing_before_any_token() {
    let g = Grammar::from_ggnf("a ::= \"xy\" | [5, 7]").ok().unwrap();
    assert_eq!(g.get_allowed_tokens(&[]), Vec::<usize>::new());
}

#[test]
fn grammar_allowed_tokens_after_literal_start() {
    // rule 0 is active after 'x' (120): its literal allows 'x' and 'y', its class 5 and 7.
    let g = Grammar::from_ggnf("a ::= \"xy\" | [5, 7]").ok().unwrap();
    assert_eq!(g.get_allowed_tokens(&[120]), vec![5, 7, 120, 121]);
    // nothing starts with token 3
    assert_eq!(g.get_allowed_tokens(&[3]), Vec::<usize>::new());
}

#[test]
fn grammar_rule_reference_activates_rule() {
    // rule 1 refers to rule 0, so it is active after token 0.
    let g = Grammar::from_ggnf("a ::= [9]\nb ::= a | [4, 2, 4]").ok().unwrap();
    assert_eq!(g.get_allowed_tokens(&[0]), vec![0, 2, 4]);
}

#[test]
fn grammar_uses_earliest_of_last_ten_tokens() {
    let g = Grammar::from_ggnf("a ::= \"q\" | [1]").ok().unwrap();
    // 12 tokens; the deciding one is the third (index 2), 'q' = 113.
    let prev = vec![0, 0, 113, 1, 1, 1, 1, 1, 1, 1, 1, 1];
    assert_eq!(g.get_allowed_tokens(&prev), vec![1, 113]);
    let prev2 = vec![113, 0, 1, 1, 1, 1, 1, 1, 1, 1, 1, 1];
    assert_eq!(g.get_allowed_tokens(&prev2), Vec::<usize>::new());
}

#[test]
fn grammar_class_skips_non_numbers() {
    let g = Grammar::from_ggnf("a ::= \"z\" | [3, x, +8]").ok().unwrap();
    assert_eq!(g.get_allowed_tokens(&[122]), vec![3, 8, 122]);
}

#[test]
fn builtin_grammars_parse() {
    let json = create_json_grammar();
    let code = create_code_grammar();
    // `null ::= "null"` is the only rule active after 'n' (110): it allows 'n', 'u', 'l'.
    assert_eq!(json.get_allowed_tokens(&[110]), vec![108, 110, 117]);
    // `term` holds the literal "/" (47) and two references to names not yet defined (rule 0).
    assert_eq!(code.get_allowed_tokens(&[47]), vec![0, 47]);
    assert!(Grammar::default().get_allowed_tokens(&[1]).is_empty());
    assert!(Grammar::new().get_allowed_tokens(&[1]).is_empty());
}
