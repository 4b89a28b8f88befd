use red_peg::expression_tokenizer::{ExpressionToken, ExpressionTokenizer};

#[test]
fn test_expression_tokenizer_tokenize() {
    let mut tok = ExpressionTokenizer::new("Test ABC [a-zA-Z]+ ((A/B) C)");
    assert_eq!(tok.tokens_len(), 12);
    assert_eq!(
        tok.next_token().unwrap(),
        ExpressionToken::Expression("Test".to_string())
    );
    assert_eq!(
        tok.next_token().unwrap(),
        ExpressionToken::Expression("ABC".to_string())
    );
    assert_eq!(
        tok.next_token().unwrap(),
        ExpressionToken::TerminalRegexExpression("[a-zA-Z]".to_string())
    );
    assert_eq!(tok.next_token().unwrap(), ExpressionToken::OneOrMore);
    assert_eq!(tok.next_token().unwrap(), ExpressionToken::GroupBegin);
    assert_eq!(tok.next_token().unwrap(), ExpressionToken::GroupBegin);
    assert_eq!(
        tok.next_token().unwrap(),
        ExpressionToken::Expression("A".to_string())
    );
    assert_eq!(tok.next_token().unwrap(), ExpressionToken::Choice);
    assert_eq!(
        tok.next_token().unwrap(),
        ExpressionToken::Expression("B".to_string())
    );
    assert_eq!(tok.next_token().unwrap(), ExpressionToken::GroupEnd);
    assert_eq!(
        tok.next_token().unwrap(),
        ExpressionToken::Expression("C".to_string())
    );
    assert_eq!(tok.next_token().unwrap(), ExpressionToken::GroupEnd);
}

#[test]
fn test_expression_tokenizer_tokenize2() {
    let mut tok = ExpressionTokenizer::new("Test ABC [a-z/A-Z]+ ((A/B) C)");
    assert_eq!(tok.tokens_len(), 12);
    assert_eq!(
        tok.next_token().unwrap(),
        ExpressionToken::Expression("Test".to_string())
    );
    assert_eq!(
        tok.next_token().unwrap(),
        ExpressionToken::Expression("ABC".to_string())
    );
    assert_eq!(
        tok.next_token().unwrap(),
        ExpressionToken::TerminalRegexExpression("[a-z/A-Z]".to_string())
    );
    assert_eq!(tok.next_token().unwrap(), ExpressionToken::OneOrMore);
    assert_eq!(tok.next_token().unwrap(), ExpressionToken::GroupBegin);
    assert_eq!(tok.next_token().unwrap(), ExpressionToken::GroupBegin);
    assert_eq!(
        tok.next_token().unwrap(),
        ExpressionToken::Expression("A".to_string())
    );
    assert_eq!(tok.next_token().unwrap(), ExpressionToken::Choice);
    assert_eq!(
        tok.next_token().unwrap(),
        ExpressionToken::Expression("B".to_string())
    );
    assert_eq!(tok.next_token().unwrap(), ExpressionToken::GroupEnd);
    assert_eq!(
        tok.next_token().unwrap(),
        ExpressionToken::Expression("C".to_string())
    );
    assert_eq!(tok.next_token().unwrap(), ExpressionToken::GroupEnd);
}

#[test]
fn quoted_literals_lose_their_quotes() {
    let mut tok = ExpressionTokenizer::new("'ab' \"cd\"");
    assert_eq!(tok.tokens_len(), 2);
    assert_eq!(
        tok.next_token().unwrap(),
        ExpressionToken::TerminalExpression("ab".to_string())
    );
    assert_eq!(
        tok.next_token().unwrap(),
        ExpressionToken::TerminalExpression("cd".to_string())
    );
    assert!(tok.next_token().is_none());
}

#[test]
fn escaped_bracket_stays_in_class() {
    let mut tok = ExpressionTokenizer::new(r"[\]] x");
    assert_eq!(tok.tokens_len(), 2);
    assert_eq!(
        tok.next_token().unwrap(),
        ExpressionToken::TerminalRegexExpression(r"[\]]".to_string())
    );
    assert_eq!(
        tok.next_token().unwrap(),
        ExpressionToken::Expression("x".to_string())
    );
}

#[test]
fn double_backslash_closes_class() {
    let mut tok = ExpressionTokenizer::new(r"[\\] x");
    assert_eq!(tok.tokens_len(), 2);
    assert_eq!(
        tok.next_token().unwrap(),
        ExpressionToken::TerminalRegexExpression(r"[\\]".to_string())
    );
    assert_eq!(
        tok.next_token().unwrap(),
        ExpressionToken::Expression("x".to_string())
    );
}

#[test]
fn predicates_and_quantifiers_tokenize() {
    let mut tok = ExpressionTokenizer::new("&A !B C? D*");
    assert_eq!(tok.tokens_len(), 8);
    assert_eq!(tok.next_token().unwrap(), ExpressionToken::AndPredicate);
    assert_eq!(
        tok.next_token().unwrap(),
        ExpressionToken::Expression("A".to_string())
    );
    assert_eq!(tok.next_token().unwrap(), ExpressionToken::NotPredicate);
    assert_eq!(
        tok.next_token().unwrap(),
        ExpressionToken::Expression("B".to_string())
    );
    assert_eq!(
        tok.next_token().unwrap(),
        ExpressionToken::Expression("C".to_string())
    );
    assert_eq!(tok.next_token().unwrap(), ExpressionToken::Optional);
    assert_eq!(
        tok.next_token().unwrap(),
        ExpressionToken::Expression("D".to_string())
    );
    assert_eq!(tok.next_token().unwrap(), ExpressionToken::ZeroOrMore);
}

#[test]
fn peek_does_not_consume() {
    let mut tok = ExpressionTokenizer::new("A B");
    assert_eq!(
        *tok.peek_token().unwrap(),
        ExpressionToken::Expression("A".to_string())
    );
    assert_eq!(
        tok.next_token().unwrap(),
        ExpressionToken::Expression("A".to_string())
    );
    assert_eq!(
        *tok.peek_token().unwrap(),
        ExpressionToken::Expression("B".to_string())
    );
    assert_eq!(
        tok.next_token().unwrap(),
        ExpressionToken::Expression("B".to_string())
    );
    assert!(tok.peek_token().is_none());
    assert!(tok.next_token().is_none());
}

#[test]
fn unterminated_terminal_is_reported() {
    let tok = ExpressionTokenizer::new("'abc");
    assert!(!tok.is_complete());
    let tok = ExpressionTokenizer::new("[abc");
    assert!(!tok.is_complete());
    let tok = ExpressionTokenizer::new("'abc'");
    assert!(tok.is_complete());
}
