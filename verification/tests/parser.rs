use red_peg::expression::{
    ChoiceParsingExpression, NonTerminalParsingExpression, SequenceParsingExpression,
    TerminalParsingExpression,
};
use red_peg::parser::{NoAction, Parser};

#[test]
fn parser_stringify_choice_sequence_terminal() {
    let mut p: Parser<(), NoAction> = Parser::new();
    p.add_rule(
        "Start",
        ChoiceParsingExpression::new(vec![
            SequenceParsingExpression::new(vec![
                TerminalParsingExpression::new("A"),
                TerminalParsingExpression::new("B"),
                TerminalParsingExpression::new("C"),
            ]),
            TerminalParsingExpression::new("D"),
        ]),
        None,
    )
    .unwrap();
    assert_eq!(p.dump(), "Start -> ('A' 'B' 'C' | 'D')");
    let mut p: Parser<(), NoAction> = Parser::new();
    p.add_rule(
        "XYZ",
        SequenceParsingExpression::new(vec![
            ChoiceParsingExpression::new(vec![
                TerminalParsingExpression::new("A"),
                TerminalParsingExpression::new("B"),
                TerminalParsingExpression::new("C"),
            ]),
            TerminalParsingExpression::new("D"),
        ]),
        None,
    )
    .unwrap();
    assert_eq!(p.dump(), "XYZ -> ('A' | 'B' | 'C') 'D'");
}

#[test]
fn parser_stringify_non_terminal() {
    let mut p: Parser<(), NoAction> = Parser::new();
    p.add_rule(
        "XYZ",
        SequenceParsingExpression::new(vec![
            ChoiceParsingExpression::new(vec![
                NonTerminalParsingExpression::new("A"),
                TerminalParsingExpression::new("B"),
                NonTerminalParsingExpression::new("C"),
            ]),
            TerminalParsingExpression::new("D"),
        ]),
        None,
    )
    .unwrap();
    assert_eq!(p.dump(), "XYZ -> (A | 'B' | C) 'D'");
}

#[test]
fn parser_validate() {
    let mut parser: Parser<(), NoAction> = Parser::new();
    parser
        .add_rule("Start", TerminalParsingExpression::new("a"), None)
        .unwrap();
    assert!(parser.validate("Start", "a"));
}
