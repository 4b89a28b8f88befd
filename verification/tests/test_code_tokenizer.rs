use red_peg::code_tokenizer::CodeTokenizer;

#[test]
fn tokenize1() {
    let mut t = CodeTokenizer::new("Hallo Welt!");
    t.push_state();
    assert!(t.match_string("Hallo"));
    t.pop_state();
    assert!(t.match_string("Hallo"));
    assert!(t.match_string("Welt!"));
}

#[test]
fn test_code_tokenizer_tokenize2() {
    let mut t = CodeTokenizer::new("52 Number");
    t.push_state();
    assert!(t.match_regex(r"[\d]"));
    assert!(t.match_regex(r"[\d]"));
    t.push_state();
    assert!(t.match_string("Number"));
    t.pop_state();
    assert!(t.match_string("Number"));
    t.pop_state();
    assert!(!t.match_regex(r"[a-z]"));
    assert!(t.match_regex(r"[\d]"));
    assert!(t.match_regex(r"[\d]"));
}

#[test]
fn match_string_failure_keeps_position() {
    let mut t = CodeTokenizer::new("abc");
    assert!(!t.match_string("b"));
    assert_eq!(t.get_state(), 0);
    assert!(t.match_string("ab"));
    assert_eq!(t.get_state(), 2);
}

#[test]
fn match_string_eats_whitespace() {
    let mut t = CodeTokenizer::new("  a   b");
    assert!(t.match_string("a"));
    assert!(t.match_string("b"));
    assert!(t.is_empty());
}

#[test]
fn match_regex_is_anchored() {
    let mut t = CodeTokenizer::new("xa");
    assert!(!t.match_regex(r"[a]"));
    assert_eq!(t.get_state(), 0);
    assert!(t.match_regex(r"[x]"));
    assert!(t.match_regex(r"[a]"));
    assert!(t.is_empty());
}

#[test]
fn match_regex_advances_by_match_length() {
    let mut t = CodeTokenizer::new("abc123");
    assert!(t.match_regex(r"[a-c]+"));
    assert_eq!(t.get_state(), 3);
    assert!(!t.match_regex(r"[a-c]"));
    assert!(t.match_regex(r"[0-9]+"));
    assert!(t.is_empty());
}

#[test]
fn invalid_pattern_matches_nothing() {
    let mut t = CodeTokenizer::new("abc");
    assert!(!t.match_regex(r"[z-a]"));
    assert_eq!(t.get_state(), 0);
}

#[test]
fn state_stack_commit_and_rollback() {
    let mut t = CodeTokenizer::new("one two");
    assert!(t.only_one_state_left());
    t.push_state();
    assert!(t.match_string("one"));
    let committed = t.update_state();
    assert_eq!(committed, t.get_state());
    assert!(t.only_one_state_left());
    t.push_state();
    assert!(t.match_string("two"));
    t.pop_state();
    assert_eq!(t.get_state(), committed);
    assert!(!t.is_empty());
}

#[test]
fn get_substr_recovers_text() {
    let t = CodeTokenizer::new("hello world");
    assert_eq!(t.get_substr(0, 5), "hello");
    assert_eq!(t.get_substr(6, 11), "world");
}
