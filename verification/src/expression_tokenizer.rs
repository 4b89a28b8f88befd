//! The grammar lexer: turns a rule-body string into a flat sequence of
//! grammar tokens.
//!
//! `(` and `)` group, `'...'` and `"..."` delimit literals, `[...]` delimits a
//! regex class kept verbatim, `?` `+` `*` are postfix quantifiers, `/` and `|`
//! both mean choice, `&` and `!` are prefix predicates, whitespace separates
//! tokens, and any other run of characters is an identifier. Inside a literal
//! or a class, a closing delimiter preceded by an odd number of backslashes is
//! taken verbatim instead of closing.

use vstd::prelude::*;
use crate::code_tokenizer::whitespace_char;

verus! {

/// Relies on `String::push`: appends one character.
pub assume_specification[ String::push ](s: &mut String, c: char)
    ensures
        final(s)@ == old(s)@.push(c),
;

#[derive(Debug)]
pub enum ExpressionToken {
    /// A non-terminal reference.
    Expression(String),
    /// An exact-match terminal, quotes stripped.
    TerminalExpression(String),
    /// A regex-class terminal, brackets kept.
    TerminalRegexExpression(String),
    GroupBegin,
    GroupEnd,
    ZeroOrMore,
    OneOrMore,
    Optional,
    Choice,
    AndPredicate,
    NotPredicate,
}

/// The spec-level form of a grammar token, with text as character sequences.
pub enum SpecToken {
    Expression(Seq<char>),
    TerminalExpression(Seq<char>),
    TerminalRegexExpression(Seq<char>),
    GroupBegin,
    GroupEnd,
    ZeroOrMore,
    OneOrMore,
    Optional,
    Choice,
    AndPredicate,
    NotPredicate,
}

impl View for ExpressionToken {
    type V = SpecToken;

    open spec fn view(&self) -> SpecToken {
        match self {
            ExpressionToken::Expression(s) => SpecToken::Expression(s@),
            ExpressionToken::TerminalExpression(s) => SpecToken::TerminalExpression(s@),
            ExpressionToken::TerminalRegexExpression(s) => SpecToken::TerminalRegexExpression(s@),
            ExpressionToken::GroupBegin => SpecToken::GroupBegin,
            ExpressionToken::GroupEnd => SpecToken::GroupEnd,
            ExpressionToken::ZeroOrMore => SpecToken::ZeroOrMore,
            ExpressionToken::OneOrMore => SpecToken::OneOrMore,
            ExpressionToken::Optional => SpecToken::Optional,
            ExpressionToken::Choice => SpecToken::Choice,
            ExpressionToken::AndPredicate => SpecToken::AndPredicate,
            ExpressionToken::NotPredicate => SpecToken::NotPredicate,
        }
    }
}

impl PartialEq for ExpressionToken {
    fn eq(&self, other: &ExpressionToken) -> (r: bool) {
        match (self, other) {
            (ExpressionToken::Expression(a), ExpressionToken::Expression(b)) => *a == *b,
            (ExpressionToken::TerminalExpression(a), ExpressionToken::TerminalExpression(b)) => *a
                == *b,
            (
                ExpressionToken::TerminalRegexExpression(a),
                ExpressionToken::TerminalRegexExpression(b),
            ) => *a == *b,
            (ExpressionToken::GroupBegin, ExpressionToken::GroupBegin) => true,
            (ExpressionToken::GroupEnd, ExpressionToken::GroupEnd) => true,
            (ExpressionToken::ZeroOrMore, ExpressionToken::ZeroOrMore) => true,
            (ExpressionToken::OneOrMore, ExpressionToken::OneOrMore) => true,
            (ExpressionToken::Optional, ExpressionToken::Optional) => true,
            (ExpressionToken::Choice, ExpressionToken::Choice) => true,
            (ExpressionToken::AndPredicate, ExpressionToken::AndPredicate) => true,
            (ExpressionToken::NotPredicate, ExpressionToken::NotPredicate) => true,
            _ => false,
        }
    }
}

impl vstd::std_specs::cmp::PartialEqSpecImpl for ExpressionToken {
    open spec fn obeys_eq_spec() -> bool {
        true
    }

    open spec fn eq_spec(&self, other: &ExpressionToken) -> bool {
        self@ == other@
    }
}

impl Eq for ExpressionToken {

}

/// The lexer's state after reading a prefix of the rule body.
pub struct LexState {
    /// Tokens emitted so far.
    pub toks: Seq<SpecToken>,
    /// Characters accumulated since the last token boundary.
    pub pending: Seq<char>,
    /// Whether a literal or a regex class is being scanned.
    pub in_terminal: bool,
    /// The delimiter that would close the current terminal.
    pub close: char,
    /// Whether the previous character was an escaping backslash.
    pub escaped: bool,
}

/// Emit the pending run as an identifier token, if it is non-empty.
pub open spec fn flush_pending(toks: Seq<SpecToken>, pending: Seq<char>) -> Seq<SpecToken> {
    if pending.len() == 0 {
        toks
    } else {
        toks.push(SpecToken::Expression(pending))
    }
}

/// The token for a completed terminal run `p`, delimiters included: a regex
/// class is kept verbatim, a literal loses its quotes.
pub open spec fn terminal_token(p: Seq<char>) -> SpecToken {
    if p[0] == '[' {
        SpecToken::TerminalRegexExpression(p)
    } else {
        SpecToken::TerminalExpression(p.subrange(1, p.len() - 1))
    }
}

pub open spec fn lex_init() -> LexState {
    LexState {
        toks: Seq::empty(),
        pending: Seq::empty(),
        in_terminal: false,
        close: '\0',
        escaped: false,
    }
}

/// Flush the pending run and emit one fixed token.
pub open spec fn lex_emit(st: LexState, t: SpecToken) -> LexState {
    LexState {
        toks: flush_pending(st.toks, st.pending).push(t),
        pending: Seq::empty(),
        in_terminal: false,
        close: st.close,
        escaped: false,
    }
}

/// One step of the lexer on character `c`.
pub open spec fn lex_step(st: LexState, c: char) -> LexState {
    if st.in_terminal {
        let pending2 = st.pending.push(c);
        if c == st.close && !st.escaped {
            LexState {
                toks: st.toks.push(terminal_token(pending2)),
                pending: Seq::empty(),
                in_terminal: false,
                close: st.close,
                escaped: false,
            }
        } else {
            LexState {
                toks: st.toks,
                pending: pending2,
                in_terminal: true,
                close: st.close,
                escaped: c == '\\' && !st.escaped,
            }
        }
    } else if c == '(' {
        lex_emit(st, SpecToken::GroupBegin)
    } else if c == ')' {
        lex_emit(st, SpecToken::GroupEnd)
    } else if c == '?' {
        lex_emit(st, SpecToken::Optional)
    } else if c == '+' {
        lex_emit(st, SpecToken::OneOrMore)
    } else if c == '*' {
        lex_emit(st, SpecToken::ZeroOrMore)
    } else if c == '/' || c == '|' {
        lex_emit(st, SpecToken::Choice)
    } else if c == '&' {
        lex_emit(st, SpecToken::AndPredicate)
    } else if c == '!' {
        lex_emit(st, SpecToken::NotPredicate)
    } else if c == '\'' || c == '"' || c == '[' {
        LexState {
            toks: flush_pending(st.toks, st.pending),
            pending: seq![c],
            in_terminal: true,
            close: if c == '[' {
                ']'
            } else {
                c
            },
            escaped: false,
        }
    } else if whitespace_char(c) {
        LexState {
            toks: flush_pending(st.toks, st.pending),
            pending: Seq::empty(),
            in_terminal: false,
            close: st.close,
            escaped: false,
        }
    } else {
        LexState {
            toks: st.toks,
            pending: st.pending.push(c),
            in_terminal: false,
            close: st.close,
            escaped: false,
        }
    }
}

/// The lexer's state after reading the first `i` characters of `s`.
pub open spec fn lex_run(s: Seq<char>, i: int) -> LexState
    decreases i,
{
    if i <= 0 {
        lex_init()
    } else {
        lex_step(lex_run(s, i - 1), s[i - 1])
    }
}

/// The lexer's state after folding all of `s` from state `st`.
pub open spec fn lex_fold(s: Seq<char>, st: LexState) -> LexState
    decreases s.len(),
{
    if s.len() == 0 {
        st
    } else {
        lex_fold(s.drop_first(), lex_step(st, s[0]))
    }
}

pub proof fn lemma_lex_fold_snoc(t: Seq<char>, c: char, st: LexState)
    ensures
        lex_fold(t.push(c), st) == lex_step(lex_fold(t, st), c),
    decreases t.len(),
{
    if t.len() == 0 {
        assert(t.push(c) =~= seq![c]);
        assert(seq![c].drop_first() =~= Seq::<char>::empty());
        assert(lex_fold(seq![c].drop_first(), lex_step(st, c)) == lex_step(st, c));
        assert(lex_fold(seq![c], st) == lex_step(st, c));
    } else {
        assert(t.push(c).drop_first() =~= t.drop_first().push(c));
        lemma_lex_fold_snoc(t.drop_first(), c, lex_step(st, t[0]));
    }
}

pub proof fn lemma_lex_fold_append(s1: Seq<char>, s2: Seq<char>, st: LexState)
    ensures
        lex_fold(s1 + s2, st) == lex_fold(s2, lex_fold(s1, st)),
    decreases s1.len(),
{
    if s1.len() == 0 {
        assert(s1 + s2 =~= s2);
    } else {
        assert((s1 + s2).drop_first() =~= s1.drop_first() + s2);
        assert((s1 + s2)[0] == s1[0]);
        lemma_lex_fold_append(s1.drop_first(), s2, lex_step(st, s1[0]));
    }
}

/// Reading the first `i` characters is folding the prefix of length `i`.
pub proof fn lemma_lex_run_fold(s: Seq<char>, i: int)
    requires
        0 <= i <= s.len(),
    ensures
        lex_run(s, i) == lex_fold(s.take(i), lex_init()),
    decreases i,
{
    if i == 0 {
        assert(s.take(0) =~= Seq::<char>::empty());
    } else {
        lemma_lex_run_fold(s, i - 1);
        assert(s.take(i) =~= s.take(i - 1).push(s[i - 1]));
        lemma_lex_fold_snoc(s.take(i - 1), s[i - 1], lex_init());
    }
}

/// The tokens of the whole rule body. A trailing unterminated literal or
/// class contributes nothing; `spec_lex_complete` reports it.
pub open spec fn spec_lex(s: Seq<char>) -> Seq<SpecToken> {
    let st = lex_run(s, s.len() as int);
    if st.in_terminal {
        st.toks
    } else {
        flush_pending(st.toks, st.pending)
    }
}

/// Whether every literal and regex class in `s` was closed.
pub open spec fn spec_lex_complete(s: Seq<char>) -> bool {
    !lex_run(s, s.len() as int).in_terminal
}

/// The spec-level form of a token vector.
pub open spec fn tokens_view(s: Seq<ExpressionToken>) -> Seq<SpecToken> {
    Seq::new(s.len(), |i: int| s[i]@)
}

proof fn lemma_tokens_view_push(s: Seq<ExpressionToken>, t: ExpressionToken)
    ensures
        tokens_view(s.push(t)) == tokens_view(s).push(t@),
{
    assert(tokens_view(s.push(t)) =~= tokens_view(s).push(t@));
}

/// Emit the pending run as an identifier token, if it is non-empty.
fn flush_ident(tokens: &mut Vec<ExpressionToken>, pending: String)
    ensures
        tokens_view(final(tokens)@) == flush_pending(tokens_view(old(tokens)@), pending@),
{
    if !pending.as_str().is_empty() {
        proof {
            lemma_tokens_view_push(tokens@, ExpressionToken::Expression(pending));
        }
        tokens.push(ExpressionToken::Expression(pending));
    }
}

/// The token for a completed terminal run, delimiters included.
fn make_terminal_token(p: String) -> (t: ExpressionToken)
    requires
        p@.len() >= 2,
    ensures
        t@ == terminal_token(p@),
{
    if p.as_str().get_char(0) == '[' {
        ExpressionToken::TerminalRegexExpression(p)
    } else {
        let n = p.as_str().unicode_len();
        let inner = p.as_str().substring_char(1, n - 1);
        ExpressionToken::TerminalExpression(String::from_str(inner))
    }
}

pub struct ExpressionTokenizer {
    tokens: Vec<ExpressionToken>,
    current: usize,
    complete: bool,
}

impl ExpressionTokenizer {
    /// The token sequence.
    pub closed spec fn spec_tokens(&self) -> Seq<SpecToken> {
        Seq::new(self.tokens@.len(), |i: int| self.tokens@[i]@)
    }

    /// The read position within the token sequence.
    pub closed spec fn spec_current(&self) -> int {
        self.current as int
    }

    /// Whether every literal and regex class was closed.
    pub closed spec fn spec_complete(&self) -> bool {
        self.complete
    }

    pub fn new(tokenstring: &str) -> (r: Self)
        ensures
            r.spec_tokens() == spec_lex(tokenstring@),
            r.spec_current() == 0,
            r.spec_complete() == spec_lex_complete(tokenstring@),
    {
        let n = tokenstring.unicode_len();
        let mut tokens: Vec<ExpressionToken> = Vec::new();
        let mut pending = String::new();
        let mut in_terminal = false;
        let mut close: char = '\0';
        let mut escaped = false;
        let mut i: usize = 0;
        while i < n
            invariant
                n == tokenstring@.len(),
                0 <= i <= n,
                ({
                    let st = lex_run(tokenstring@, i as int);
                    &&& tokens_view(tokens@) == st.toks
                    &&& pending@ == st.pending
                    &&& in_terminal == st.in_terminal
                    &&& close == st.close
                    &&& escaped == st.escaped
                    &&& st.in_terminal ==> st.pending.len() >= 1
                }),
            decreases n - i,
        {
            let ghost st = lex_run(tokenstring@, i as int);
            let c = tokenstring.get_char(i);
            proof {
                assert(lex_run(tokenstring@, i as int + 1) == lex_step(st, c));
            }
            if in_terminal {
                pending.push(c);
                if c == close && !escaped {
                    let t = make_terminal_token(pending);
                    proof {
                        lemma_tokens_view_push(tokens@, t);
                    }
                    tokens.push(t);
                    pending = String::new();
                    in_terminal = false;
                    escaped = false;
                } else {
                    escaped = c == '\\' && !escaped;
                }
            } else if c == '(' {
                flush_ident(&mut tokens, pending);
                pending = String::new();
                proof {
                    lemma_tokens_view_push(tokens@, ExpressionToken::GroupBegin);
                }
                tokens.push(ExpressionToken::GroupBegin);
                escaped = false;
            } else if c == ')' {
                flush_ident(&mut tokens, pending);
                pending = String::new();
                proof {
                    lemma_tokens_view_push(tokens@, ExpressionToken::GroupEnd);
                }
                tokens.push(ExpressionToken::GroupEnd);
                escaped = false;
            } else if c == '?' {
                flush_ident(&mut tokens, pending);
                pending = String::new();
                proof {
                    lemma_tokens_view_push(tokens@, ExpressionToken::Optional);
                }
                tokens.push(ExpressionToken::Optional);
                escaped = false;
            } else if c == '+' {
                flush_ident(&mut tokens, pending);
                pending = String::new();
                proof {
                    lemma_tokens_view_push(tokens@, ExpressionToken::OneOrMore);
                }
                tokens.push(ExpressionToken::OneOrMore);
                escaped = false;
            } else if c == '*' {
                flush_ident(&mut tokens, pending);
                pending = String::new();
                proof {
                    lemma_tokens_view_push(tokens@, ExpressionToken::ZeroOrMore);
                }
                tokens.push(ExpressionToken::ZeroOrMore);
                escaped = false;
            } else if c == '/' || c == '|' {
                flush_ident(&mut tokens, pending);
                pending = String::new();
                proof {
                    lemma_tokens_view_push(tokens@, ExpressionToken::Choice);
                }
                tokens.push(ExpressionToken::Choice);
                escaped = false;
            } else if c == '&' {
                flush_ident(&mut tokens, pending);
                pending = String::new();
                proof {
                    lemma_tokens_view_push(tokens@, ExpressionToken::AndPredicate);
                }
                tokens.push(ExpressionToken::AndPredicate);
                escaped = false;
            } else if c == '!' {
                flush_ident(&mut tokens, pending);
                pending = String::new();
                proof {
                    lemma_tokens_view_push(tokens@, ExpressionToken::NotPredicate);
                }
                tokens.push(ExpressionToken::NotPredicate);
                escaped = false;
            } else if c == '\'' || c == '"' || c == '[' {
                flush_ident(&mut tokens, pending);
                pending = String::new();
                pending.push(c);
                in_terminal = true;
                close = if c == '[' {
                    ']'
                } else {
                    c
                };
                escaped = false;
                assert(pending@ =~= seq![c]);
            } else if c.is_whitespace() {
                flush_ident(&mut tokens, pending);
                pending = String::new();
                escaped = false;
            } else {
                pending.push(c);
                escaped = false;
            }
            i = i + 1;
        }
        let complete = !in_terminal;
        if complete {
            flush_ident(&mut tokens, pending);
        }
        ExpressionTokenizer { tokens, current: 0, complete }
    }

    /// The number of tokens produced.
    pub fn tokens_len(&self) -> (r: usize)
        ensures
            r == self.spec_tokens().len(),
    {
        self.tokens.len()
    }

    /// The next token, consuming it, or `None` at the end of the sequence.
    pub fn next_token(&mut self) -> (r: Option<ExpressionToken>)
        ensures
            final(self).spec_tokens() == old(self).spec_tokens(),
            final(self).spec_complete() == old(self).spec_complete(),
            if old(self).spec_current() < old(self).spec_tokens().len() {
                &&& final(self).spec_current() == old(self).spec_current() + 1
                &&& r matches Some(t) && t@ == old(self).spec_tokens()[old(self).spec_current()]
            } else {
                &&& r is None
                &&& final(self).spec_current() == old(self).spec_current()
            },
    {
        if self.current < self.tokens.len() {
            self.current = self.current + 1;
            Some(duplicate_token(&self.tokens[self.current - 1]))
        } else {
            None
        }
    }

    /// The next token without consuming it, or `None` at the end.
    pub fn peek_token(&mut self) -> (r: Option<&ExpressionToken>)
        ensures
            *final(self) == *old(self),
            if old(self).spec_current() < old(self).spec_tokens().len() {
                r matches Some(t) && t@ == old(self).spec_tokens()[old(self).spec_current()]
            } else {
                r is None
            },
    {
        if self.current < self.tokens.len() {
            Some(&self.tokens[self.current])
        } else {
            None
        }
    }

    /// Whether every literal and regex class in the rule body was closed;
    /// an unterminated one is a registration error.
    pub fn is_complete(&self) -> (r: bool)
        ensures
            r == self.spec_complete(),
    {
        self.complete
    }
}

/// An owned copy of a token.
fn duplicate_token(t: &ExpressionToken) -> (r: ExpressionToken)
    ensures
        r == *t,
{
    match t {
        ExpressionToken::Expression(s) => ExpressionToken::Expression(s.clone()),
        ExpressionToken::TerminalExpression(s) => ExpressionToken::TerminalExpression(s.clone()),
        ExpressionToken::TerminalRegexExpression(s) => ExpressionToken::TerminalRegexExpression(
            s.clone(),
        ),
        ExpressionToken::GroupBegin => ExpressionToken::GroupBegin,
        ExpressionToken::GroupEnd => ExpressionToken::GroupEnd,
        ExpressionToken::ZeroOrMore => ExpressionToken::ZeroOrMore,
        ExpressionToken::OneOrMore => ExpressionToken::OneOrMore,
        ExpressionToken::Optional => ExpressionToken::Optional,
        ExpressionToken::Choice => ExpressionToken::Choice,
        ExpressionToken::AndPredicate => ExpressionToken::AndPredicate,
        ExpressionToken::NotPredicate => ExpressionToken::NotPredicate,
    }
}

} // verus!
