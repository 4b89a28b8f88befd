use red_peg::code_tokenizer::CodeTokenizer;
use red_peg::expression::{
    ChoiceParsingExpression, NonTerminalParsingExpression, SequenceParsingExpression,
    TerminalParsingExpression,
};
use red_peg::parser::{
    GrammarError, MatchStep, NoAction, ParseError, Parser, ParsingResult, SemanticAction,
};

#[test]
fn match_restores_cursor_and_stack() {
    let mut p: Parser<(), NoAction> = Parser::new();
    p.add_rule_str("Start", "'a' 'b'", None).unwrap();
    let expr = NonTerminalParsingExpression::new("Start");

    let mut t = CodeTokenizer::new("a c");
    match p.matches(&expr, &mut t, 1000) {
        MatchStep::NoMatch => {}
        _ => panic!("expected no match"),
    }
    assert_eq!(t.get_state(), 0);
    assert!(t.only_one_state_left());

    let mut t = CodeTokenizer::new("a b c");
    match p.matches(&expr, &mut t, 1000) {
        MatchStep::Found(res) => {
            assert_eq!(res.parsed_string_start, 0);
            assert_eq!(res.parsed_string_end, t.get_state());
            assert!(res.parsed_string_start <= res.parsed_string_end);
        }
        _ => panic!("expected a match"),
    }
    assert!(t.only_one_state_left());
}

#[test]
fn choice_index_identifies_rerunnable_alternative() {
    let mut p: Parser<(), NoAction> = Parser::new();
    p.add_rule_str("Start", "'aa' | 'a'", None).unwrap();
    let expr = NonTerminalParsingExpression::new("Start");
    let mut t = CodeTokenizer::new("a");
    let (idx, end) = match p.matches(&expr, &mut t, 1000) {
        MatchStep::Found(res) => {
            let choice = &res.sub_results[0];
            (
                choice.selected_choice.unwrap(),
                choice.parsed_string_end,
            )
        }
        _ => panic!("expected a match"),
    };
    assert_eq!(idx, 1);
    let alone = TerminalParsingExpression::new("a");
    let mut t2 = CodeTokenizer::new("a");
    match p.matches(&alone, &mut t2, 1000) {
        MatchStep::Found(res) => {
            assert_eq!(res.parsed_string_start, 0);
            assert_eq!(res.parsed_string_end, end);
        }
        _ => panic!("the chosen alternative must match alone as well"),
    }
}

#[test]
fn repetition_children_tile_the_span() {
    let mut p: Parser<(), NoAction> = Parser::new();
    p.add_rule_str("Start", "'ab'+", None).unwrap();
    let expr = NonTerminalParsingExpression::new("Start");
    let mut t = CodeTokenizer::new("ab ab ab");
    match p.matches(&expr, &mut t, 1000) {
        MatchStep::Found(res) => {
            let plus = &res.sub_results[0];
            assert_eq!(plus.sub_results.len(), 3);
            let mut prev_end = plus.parsed_string_start;
            for child in &plus.sub_results {
                assert_eq!(child.parsed_string_start, prev_end);
                assert!(child.parsed_string_start < child.parsed_string_end);
                prev_end = child.parsed_string_end;
            }
            assert_eq!(prev_end, plus.parsed_string_end);
        }
        _ => panic!("expected a match"),
    }
}

#[test]
fn dump_round_trips_to_identical_dump() {
    let bodies = [
        "'A' 'B' 'C' | 'D'",
        "(A+ | 'B' | C*)? 'D'",
        "[a-z]+ (X | 'y')",
        "'a'? 'b'* 'c'+",
    ];
    for body in bodies {
        let mut p: Parser<(), NoAction> = Parser::new();
        p.add_rule_str("Start", body, None).unwrap();
        let d1 = p.dump();
        let rendered = d1.strip_prefix("Start -> ").unwrap();
        let mut p2: Parser<(), NoAction> = Parser::new();
        p2.add_rule_str("Start", rendered, None).unwrap();
        assert_eq!(p2.dump(), d1);
    }
}

#[test]
fn programmatic_and_string_grammars_agree() {
    let mut p1: Parser<(), NoAction> = Parser::new();
    p1.add_rule(
        "Start",
        SequenceParsingExpression::new(vec![
            ChoiceParsingExpression::new(vec![
                TerminalParsingExpression::new("a"),
                NonTerminalParsingExpression::new("Second"),
            ]),
            TerminalParsingExpression::new("c"),
        ]),
        None,
    )
    .unwrap();
    p1.add_rule(
        "Second",
        ChoiceParsingExpression::new(vec![
            SequenceParsingExpression::new(vec![
                TerminalParsingExpression::new("c"),
                TerminalParsingExpression::new("d"),
            ]),
            TerminalParsingExpression::new("b"),
        ]),
        None,
    )
    .unwrap();
    let mut p2: Parser<(), NoAction> = Parser::new();
    p2.add_rule_str("Start", "('a' | Second) 'c'", None).unwrap();
    p2.add_rule_str("Second", "('c' 'd') | 'b'", None).unwrap();
    let inputs = ["a c", "b c", "c d c", "c d b c ", "", "a", "c c", "ac"];
    for input in inputs {
        assert_eq!(
            p1.validate("Start", input),
            p2.validate("Start", input),
            "inputs must agree"
        );
    }
    assert_eq!(p1.dump(), p2.dump());
}

#[test]
fn empty_input_fails_a_required_terminal() {
    let mut p: Parser<(), NoAction> = Parser::new();
    p.add_rule_str("Start", "'a'", None).unwrap();
    assert!(p.validate("Start", "a"));
    assert!(!p.validate("Start", "b"));
    assert!(!p.validate("Start", ""));
}

#[test]
fn whitespace_insensitive_between_tokens() {
    let mut parser: Parser<(), NoAction> = Parser::new();
    parser.add_rule_str("Start", "'a' 'b'", None).unwrap();
    assert!(parser.validate("Start", "a b"));
    assert!(parser.validate("Start", "ab"));
    assert!(parser.validate("Start", "  a   b  "));
    assert!(!parser.validate("Start", "a a"));
}

#[test]
fn registration_errors() {
    let mut p: Parser<(), NoAction> = Parser::new();
    p.add_rule_str("Start", "'a'", None).unwrap();
    assert_eq!(
        p.add_rule_str("Start", "'b'", None),
        Err(GrammarError::DuplicateRule)
    );
    assert_eq!(
        p.add_rule_str("R1", "", None),
        Err(GrammarError::EmptyExpression)
    );
    assert_eq!(
        p.add_rule_str("R2", "'a' | | 'b'", None),
        Err(GrammarError::EmptyExpression)
    );
    assert_eq!(
        p.add_rule_str("R3", "+ 'a'", None),
        Err(GrammarError::QuantifierWithoutAtom)
    );
    assert_eq!(
        p.add_rule_str("R4", "&", None),
        Err(GrammarError::PredicateWithoutAtom)
    );
    assert_eq!(
        p.add_rule_str("R5", "('a' 'b'", None),
        Err(GrammarError::UnmatchedGroup)
    );
    assert_eq!(
        p.add_rule_str("R6", "'a')", None),
        Err(GrammarError::UnmatchedGroup)
    );
    assert_eq!(
        p.add_rule_str("R7", "'abc", None),
        Err(GrammarError::UnterminatedTerminal)
    );
    assert_eq!(
        p.add_rule_str("R8", "[z-a]", None),
        Err(GrammarError::InvalidRegex)
    );
    assert!(p.add_rule_str("R9", "'a' 'b' | 'c'", None).is_ok());
}

struct ConstSeven;

impl SemanticAction<i32> for ConstSeven {
    fn apply(&self, _result: &ParsingResult<i32>, _tokenizer: &CodeTokenizer) -> i32 {
        7
    }
}

#[test]
fn parse_errors() {
    let mut p: Parser<i32, ConstSeven> = Parser::new();
    p.add_rule_str("Start", "'a'", Some(ConstSeven)).unwrap();
    p.add_rule_str("Bare", "'a'", None).unwrap();
    p.add_rule_str("Broken", "Undefined 'x'", None).unwrap();
    assert_eq!(p.parse("Start", "a").unwrap(), 7);
    assert_eq!(p.parse("Start", "b"), Err(ParseError::NoResult));
    assert_eq!(p.parse("Start", "a b"), Err(ParseError::TrailingInput));
    assert_eq!(p.parse("Bare", "a"), Err(ParseError::NoCallback));
    assert_eq!(p.parse("Missing", "a"), Err(ParseError::Aborted));
    assert_eq!(p.parse("Broken", "y x"), Err(ParseError::Aborted));
    assert!(!p.validate("Missing", "a"));
    assert!(!p.validate("Broken", "y x"));
}

#[test]
fn predicates_do_not_consume() {
    let mut p: Parser<(), NoAction> = Parser::new();
    p.add_rule_str("Start", "&'a' [a-z]+", None).unwrap();
    assert!(p.validate("Start", "abc"));
    assert!(!p.validate("Start", "xbc"));
    let mut p: Parser<(), NoAction> = Parser::new();
    p.add_rule_str("Start", "!'x' [a-z]+", None).unwrap();
    assert!(p.validate("Start", "abc"));
    assert!(!p.validate("Start", "xbc"));
}

#[test]
fn exhausted_budget_aborts() {
    let mut p: Parser<(), NoAction> = Parser::new();
    p.add_rule_str("Start", "'a'", None).unwrap();
    let expr = NonTerminalParsingExpression::new("Start");
    let mut t = CodeTokenizer::new("a");
    assert!(matches!(p.matches(&expr, &mut t, 0), MatchStep::Aborted));

    let mut p2: Parser<(), NoAction> = Parser::new();
    p2.add_rule_str("Loop", "Loop 'a'", None).unwrap();
    let expr2 = NonTerminalParsingExpression::new("Loop");
    let mut t2 = CodeTokenizer::new("a");
    assert!(matches!(p2.matches(&expr2, &mut t2, 200), MatchStep::Aborted));
}

#[test]
fn flatten_lifts_children() {
    let leaf = |s: usize, e: usize| ParsingResult::<i32> {
        parsed_string_start: s,
        parsed_string_end: e,
        sub_results: Vec::new(),
        selected_choice: None,
        rule_result: None,
    };
    // a node with no children flattens to nothing
    let flat = leaf(0, 1).flatten();
    assert_eq!(flat.len(), 0);
    // a plain node keeps only its children
    let node = ParsingResult::<i32> {
        parsed_string_start: 0,
        parsed_string_end: 2,
        sub_results: vec![leaf(0, 1), leaf(1, 2)],
        selected_choice: None,
        rule_result: None,
    };
    let flat = node.flatten();
    assert_eq!(flat.len(), 2);
    assert_eq!(flat[0].parsed_string_end, 1);
    assert_eq!(flat[1].parsed_string_end, 2);
    // a choice node keeps a childless shell of itself in front
    let node = ParsingResult::<i32> {
        parsed_string_start: 0,
        parsed_string_end: 2,
        sub_results: vec![leaf(0, 2)],
        selected_choice: Some(1),
        rule_result: None,
    };
    let flat = node.flatten();
    assert_eq!(flat.len(), 2);
    assert_eq!(flat[0].selected_choice, Some(1));
    assert_eq!(flat[0].sub_results.len(), 0);
    assert_eq!(flat[1].parsed_string_end, 2);
}
