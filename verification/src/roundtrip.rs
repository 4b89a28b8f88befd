//! The dump / parse round trip: lexing the canonical dump of an expression
//! yields its canonical token sequence, and compiling that sequence yields an
//! expression whose dump is the same text.
//!
//! The law holds for expressions whose leaves survive the trip: a literal
//! must not contain an unescaped quote (or end in the middle of an escape), a
//! regex class must be a bracketed run of the same shape, a rule name must be
//! a non-empty run of ordinary characters, a sequence must have an operand, a
//! choice must have two — a parenthesized single alternative reads back as
//! plain grouping — and a predicate must stand before an atom, since that is
//! all the grammar compiler wraps.

use vstd::prelude::*;
use crate::code_tokenizer::whitespace_char;
use crate::expression::{SpecExpr, spec_dump, spec_dump_list};
use crate::parser::{spec_compile_run, spec_compile_body, spec_reduce, wrap_predicate, GrammarError};
use crate::expression_tokenizer::{
    SpecToken,
    LexState,
    lex_init,
    lex_step,
    lex_fold,
    lemma_lex_fold_append,
    lemma_lex_run_fold,
    flush_pending,
    spec_lex,
    spec_lex_complete,
};

verus! {

/// A character that neither delimits nor separates anything in a rule body:
/// it lands in the identifier run the lexer is accumulating.
pub open spec fn ordinary_char(c: char) -> bool {
    c != '(' && c != ')' && c != '?' && c != '+' && c != '*' && c != '/' && c != '|' && c != '&'
        && c != '!' && c != '\'' && c != '"' && c != '[' && !whitespace_char(c)
}

/// Scanning `s` inside a literal or class closed by `close`, with `escaped`
/// saying whether the previous character was an escaping backslash:
/// `Some(esc)` means the scan never closes and ends with escape flag `esc`;
/// `None` means an unescaped `close` appears somewhere in `s`.
pub open spec fn terminal_scan(s: Seq<char>, close: char, escaped: bool) -> Option<bool>
    decreases s.len(),
{
    if s.len() == 0 {
        Some(escaped)
    } else if s[0] == close && !escaped {
        None
    } else {
        terminal_scan(s.drop_first(), close, s[0] == '\\' && !escaped)
    }
}

/// The canonical token sequence of an expression: what the lexer produces
/// from its dump.
pub open spec fn toks_of(e: SpecExpr) -> Seq<SpecToken>
    decreases e,
{
    match e {
        SpecExpr::TerminalLiteral(s) => seq![SpecToken::TerminalExpression(s)],
        SpecExpr::TerminalRegex(p) => seq![SpecToken::TerminalRegexExpression(p)],
        SpecExpr::NonTerminal(n) => seq![SpecToken::Expression(n)],
        SpecExpr::Sequence(cs) => toks_of_list(cs, Seq::empty()),
        SpecExpr::Choice(cs) => seq![SpecToken::GroupBegin] + toks_of_list(
            cs,
            seq![SpecToken::Choice],
        ) + seq![SpecToken::GroupEnd],
        SpecExpr::ZeroOrMore(c) => toks_of(*c) + seq![SpecToken::ZeroOrMore],
        SpecExpr::OneOrMore(c) => toks_of(*c) + seq![SpecToken::OneOrMore],
        SpecExpr::Optional(c) => toks_of(*c) + seq![SpecToken::Optional],
        SpecExpr::AndPredicate(c) => seq![SpecToken::AndPredicate] + toks_of(*c),
        SpecExpr::NotPredicate(c) => seq![SpecToken::NotPredicate] + toks_of(*c),
    }
}

/// The canonical tokens of a list of expressions, `sep` between them.
pub open spec fn toks_of_list(cs: Seq<SpecExpr>, sep: Seq<SpecToken>) -> Seq<SpecToken>
    decreases cs,
{
    if cs.len() == 0 {
        Seq::empty()
    } else if cs.len() == 1 {
        toks_of(cs[0])
    } else {
        toks_of(cs[0]) + sep + toks_of_list(cs.drop_first(), sep)
    }
}

/// An expression the grammar compiler's prefix predicates can wrap: a
/// terminal, a rule reference, or a parenthesized choice.
pub open spec fn atomic(e: SpecExpr) -> bool {
    e is TerminalLiteral || e is TerminalRegex || e is NonTerminal || e is Choice
}

/// An expression whose dump reads back: see the module comment.
pub open spec fn dumpable(e: SpecExpr) -> bool
    decreases e,
{
    match e {
        SpecExpr::TerminalLiteral(s) => terminal_scan(s, '\'', false) == Some(false),
        SpecExpr::TerminalRegex(p) => p.len() >= 2 && p[0] == '[' && p.last() == ']'
            && terminal_scan(p.subrange(1, p.len() - 1), ']', false) == Some(false),
        SpecExpr::NonTerminal(n) => n.len() >= 1 && (forall|k: int|
            0 <= k < n.len() ==> ordinary_char(#[trigger] n[k])),
        SpecExpr::Sequence(cs) => cs.len() >= 1 && dumpable_list(cs),
        SpecExpr::Choice(cs) => cs.len() >= 2 && dumpable_list(cs),
        SpecExpr::ZeroOrMore(c) => dumpable(*c),
        SpecExpr::OneOrMore(c) => dumpable(*c),
        SpecExpr::Optional(c) => dumpable(*c),
        SpecExpr::AndPredicate(c) => dumpable(*c) && atomic(*c),
        SpecExpr::NotPredicate(c) => dumpable(*c) && atomic(*c),
    }
}

pub open spec fn dumpable_list(cs: Seq<SpecExpr>) -> bool
    decreases cs,
{
    cs.len() == 0 || (dumpable(cs[0]) && dumpable_list(cs.drop_first()))
}

/// Folding the inside of a literal or class only accumulates characters, as
/// long as the scan says no unescaped delimiter appears.
proof fn lemma_lex_fold_terminal(s: Seq<char>, st: LexState)
    requires
        st.in_terminal,
        terminal_scan(s, st.close, st.escaped) is Some,
    ensures
        lex_fold(s, st) == (LexState {
            toks: st.toks,
            pending: st.pending + s,
            in_terminal: true,
            close: st.close,
            escaped: terminal_scan(s, st.close, st.escaped)->0,
        }),
    decreases s.len(),
{
    if s.len() == 0 {
        assert(st.pending + s =~= st.pending);
        assert(lex_fold(s, st) =~= (LexState {
            toks: st.toks,
            pending: st.pending + s,
            in_terminal: true,
            close: st.close,
            escaped: st.escaped,
        }));
    } else {
        let st1 = lex_step(st, s[0]);
        lemma_lex_fold_terminal(s.drop_first(), st1);
        assert(st1.pending + s.drop_first() =~= st.pending + s);
    }
}

/// Folding a run of ordinary characters only grows the pending identifier.
proof fn lemma_lex_fold_ident(s: Seq<char>, st: LexState)
    requires
        !st.in_terminal,
        !st.escaped,
        forall|k: int| 0 <= k < s.len() ==> ordinary_char(#[trigger] s[k]),
    ensures
        lex_fold(s, st) == (LexState {
            toks: st.toks,
            pending: st.pending + s,
            in_terminal: false,
            close: st.close,
            escaped: false,
        }),
    decreases s.len(),
{
    if s.len() == 0 {
        assert(st.pending + s =~= st.pending);
        assert(lex_fold(s, st) =~= (LexState {
            toks: st.toks,
            pending: st.pending + s,
            in_terminal: false,
            close: st.close,
            escaped: false,
        }));
    } else {
        let st1 = lex_step(st, s[0]);
        lemma_lex_fold_ident(s.drop_first(), st1);
        assert(st1.pending + s.drop_first() =~= st.pending + s);
    }
}

proof fn lemma_lex_fold_one(c: char, st: LexState)
    ensures
        lex_fold(seq![c], st) == lex_step(st, c),
{
    assert(seq![c].drop_first() =~= Seq::<char>::empty());
    assert(lex_fold(seq![c].drop_first(), lex_step(st, c)) == lex_step(st, c));
}

/// Folding the dump of a dumpable expression from a clean state emits
/// exactly its canonical tokens (the trailing identifier, if the dump ends in
/// one, still sits in the pending run).
proof fn lemma_lex_dump_expr(e: SpecExpr, st: LexState)
    requires
        dumpable(e),
        !st.in_terminal,
        !st.escaped,
        st.pending.len() == 0,
    ensures
        ({
            let r = lex_fold(spec_dump(e), st);
            &&& !r.in_terminal
            &&& !r.escaped
            &&& flush_pending(r.toks, r.pending) == st.toks + toks_of(e)
        }),
    decreases e,
{
    match e {
        SpecExpr::TerminalLiteral(s) => {
            let d = spec_dump(e);
            assert(d =~= seq!['\''] + (s + seq!['\'']));
            lemma_lex_fold_append(seq!['\''], s + seq!['\''], st);
            lemma_lex_fold_one('\'', st);
            let st1 = lex_step(st, '\'');
            lemma_lex_fold_append(s, seq!['\''], st1);
            lemma_lex_fold_terminal(s, st1);
            let st2 = lex_fold(s, st1);
            lemma_lex_fold_one('\'', st2);
            let p = st2.pending.push('\'');
            assert(p =~= seq!['\''] + s + seq!['\'']);
            assert(p.subrange(1, p.len() - 1) =~= s);
            let r = lex_fold(d, st);
            assert(r.toks == st.toks.push(SpecToken::TerminalExpression(s)));
            assert(flush_pending(r.toks, r.pending) =~= st.toks + toks_of(e));
        },
        SpecExpr::TerminalRegex(p) => {
            let d = spec_dump(e);
            let inner = p.subrange(1, p.len() - 1);
            assert(d == p);
            assert(d =~= seq!['['] + (inner + seq![']']));
            lemma_lex_fold_append(seq!['['], inner + seq![']'], st);
            lemma_lex_fold_one('[', st);
            let st1 = lex_step(st, '[');
            lemma_lex_fold_append(inner, seq![']'], st1);
            lemma_lex_fold_terminal(inner, st1);
            let st2 = lex_fold(inner, st1);
            lemma_lex_fold_one(']', st2);
            let p2 = st2.pending.push(']');
            assert(p2 =~= p);
            let r = lex_fold(d, st);
            assert(r.toks == st.toks.push(SpecToken::TerminalRegexExpression(p)));
            assert(flush_pending(r.toks, r.pending) =~= st.toks + toks_of(e));
        },
        SpecExpr::NonTerminal(n) => {
            lemma_lex_fold_ident(n, st);
            let r = lex_fold(spec_dump(e), st);
            assert(r.pending =~= n);
            assert(flush_pending(r.toks, r.pending) =~= st.toks + toks_of(e));
        },
        SpecExpr::Sequence(cs) => {
            lemma_lex_dump_list(cs, st, false);
        },
        SpecExpr::Choice(cs) => {
            let d = spec_dump(e);
            let x = spec_dump_list(cs, seq![' ', '|', ' ']);
            assert(d =~= seq!['('] + (x + seq![')']));
            lemma_lex_fold_append(seq!['('], x + seq![')'], st);
            lemma_lex_fold_one('(', st);
            let st1 = lex_step(st, '(');
            lemma_lex_fold_append(x, seq![')'], st1);
            lemma_lex_dump_list(cs, st1, true);
            let r1 = lex_fold(x, st1);
            lemma_lex_fold_one(')', r1);
            let r = lex_fold(d, st);
            assert(r.toks == flush_pending(r1.toks, r1.pending).push(SpecToken::GroupEnd));
            assert(flush_pending(r.toks, r.pending) =~= st.toks + toks_of(e));
        },
        SpecExpr::ZeroOrMore(c) => {
            let d = spec_dump(e);
            lemma_lex_fold_append(spec_dump(*c), seq!['*'], st);
            lemma_lex_dump_expr(*c, st);
            let r1 = lex_fold(spec_dump(*c), st);
            lemma_lex_fold_one('*', r1);
            let r = lex_fold(d, st);
            assert(r.toks == flush_pending(r1.toks, r1.pending).push(SpecToken::ZeroOrMore));
            assert(flush_pending(r.toks, r.pending) =~= st.toks + toks_of(e));
        },
        SpecExpr::OneOrMore(c) => {
            let d = spec_dump(e);
            lemma_lex_fold_append(spec_dump(*c), seq!['+'], st);
            lemma_lex_dump_expr(*c, st);
            let r1 = lex_fold(spec_dump(*c), st);
            lemma_lex_fold_one('+', r1);
            let r = lex_fold(d, st);
            assert(r.toks == flush_pending(r1.toks, r1.pending).push(SpecToken::OneOrMore));
            assert(flush_pending(r.toks, r.pending) =~= st.toks + toks_of(e));
        },
        SpecExpr::Optional(c) => {
            let d = spec_dump(e);
            lemma_lex_fold_append(spec_dump(*c), seq!['?'], st);
            lemma_lex_dump_expr(*c, st);
            let r1 = lex_fold(spec_dump(*c), st);
            lemma_lex_fold_one('?', r1);
            let r = lex_fold(d, st);
            assert(r.toks == flush_pending(r1.toks, r1.pending).push(SpecToken::Optional));
            assert(flush_pending(r.toks, r.pending) =~= st.toks + toks_of(e));
        },
        SpecExpr::AndPredicate(c) => {
            let d = spec_dump(e);
            assert(d =~= seq!['&'] + spec_dump(*c));
            lemma_lex_fold_append(seq!['&'], spec_dump(*c), st);
            lemma_lex_fold_one('&', st);
            let st1 = lex_step(st, '&');
            lemma_lex_dump_expr(*c, st1);
            let r = lex_fold(d, st);
            assert(flush_pending(r.toks, r.pending) =~= st.toks + toks_of(e));
        },
        SpecExpr::NotPredicate(c) => {
            let d = spec_dump(e);
            assert(d =~= seq!['!'] + spec_dump(*c));
            lemma_lex_fold_append(seq!['!'], spec_dump(*c), st);
            lemma_lex_fold_one('!', st);
            let st1 = lex_step(st, '!');
            lemma_lex_dump_expr(*c, st1);
            let r = lex_fold(d, st);
            assert(flush_pending(r.toks, r.pending) =~= st.toks + toks_of(e));
        },
    }
}

/// Folding the dumps of a list of expressions, ` ` or ` | ` between them.
proof fn lemma_lex_dump_list(cs: Seq<SpecExpr>, st: LexState, alt_sep: bool)
    requires
        cs.len() >= 1,
        dumpable_list(cs),
        !st.in_terminal,
        !st.escaped,
        st.pending.len() == 0,
    ensures
        ({
            let sep: Seq<char> = if alt_sep {
                seq![' ', '|', ' ']
            } else {
                seq![' ']
            };
            let tsep: Seq<SpecToken> = if alt_sep {
                seq![SpecToken::Choice]
            } else {
                Seq::empty()
            };
            let r = lex_fold(spec_dump_list(cs, sep), st);
            &&& !r.in_terminal
            &&& !r.escaped
            &&& flush_pending(r.toks, r.pending) == st.toks + toks_of_list(cs, tsep)
        }),
    decreases cs,
{
    let sep: Seq<char> = if alt_sep {
        seq![' ', '|', ' ']
    } else {
        seq![' ']
    };
    let tsep: Seq<SpecToken> = if alt_sep {
        seq![SpecToken::Choice]
    } else {
        Seq::empty()
    };
    if cs.len() == 1 {
        lemma_lex_dump_expr(cs[0], st);
    } else {
        let rest = spec_dump_list(cs.drop_first(), sep);
        assert(spec_dump_list(cs, sep) =~= spec_dump(cs[0]) + (sep + rest));
        lemma_lex_fold_append(spec_dump(cs[0]), sep + rest, st);
        lemma_lex_dump_expr(cs[0], st);
        let r1 = lex_fold(spec_dump(cs[0]), st);
        lemma_lex_fold_append(sep, rest, r1);
        let a1 = lex_step(r1, ' ');
        assert(whitespace_char(' '));
        let st2: LexState = if alt_sep {
            assert(sep =~= seq![' '] + (seq!['|'] + seq![' ']));
            lemma_lex_fold_append(seq![' '], seq!['|'] + seq![' '], r1);
            lemma_lex_fold_one(' ', r1);
            lemma_lex_fold_append(seq!['|'], seq![' '], a1);
            lemma_lex_fold_one('|', a1);
            let a2 = lex_step(a1, '|');
            lemma_lex_fold_one(' ', a2);
            let a3 = lex_step(a2, ' ');
            a3
        } else {
            lemma_lex_fold_one(' ', r1);
            a1
        };
        assert(lex_fold(sep, r1) == st2);
        assert(st2.toks == flush_pending(r1.toks, r1.pending) + tsep) by {
            if alt_sep {
                assert(flush_pending(r1.toks, r1.pending).push(SpecToken::Choice) =~= flush_pending(
                    r1.toks,
                    r1.pending,
                ) + tsep);
            } else {
                assert(flush_pending(r1.toks, r1.pending) + tsep =~= flush_pending(
                    r1.toks,
                    r1.pending,
                ));
            }
        }
        lemma_lex_dump_list(cs.drop_first(), st2, alt_sep);
        let r = lex_fold(rest, st2);
        assert(flush_pending(r.toks, r.pending) == st2.toks + toks_of_list(cs.drop_first(), tsep));
        assert(st.toks + toks_of(cs[0]) + tsep + toks_of_list(cs.drop_first(), tsep) =~= st.toks
            + toks_of_list(cs, tsep));
        assert(flush_pending(r.toks, r.pending) =~= st.toks + toks_of_list(cs, tsep));
    }
}

/// Law, lexer half: the dump of a dumpable expression lexes back to exactly
/// its canonical token sequence, with every literal and class closed.
pub proof fn lemma_lex_of_dump(e: SpecExpr)
    requires
        dumpable(e),
    ensures
        spec_lex(spec_dump(e)) == toks_of(e),
        spec_lex_complete(spec_dump(e)),
{
    let d = spec_dump(e);
    lemma_lex_run_fold(d, d.len() as int);
    assert(d.take(d.len() as int) =~= d);
    lemma_lex_dump_expr(e, lex_init());
    let r = lex_fold(d, lex_init());
    assert(lex_init().toks + toks_of(e) =~= toks_of(e));
}

/// A non-empty list of expressions reduced to one, as the compiler does it.
pub open spec fn reduce_nonempty(d: Seq<SpecExpr>) -> SpecExpr {
    if d.len() == 1 {
        d[0]
    } else {
        SpecExpr::Sequence(d)
    }
}

/// What consuming the canonical tokens of `e` appends to the compiler's
/// pending sequence. A sequence contributes one entry per child (nesting
/// flattens), a quantifier re-wraps the last contributed entry, everything
/// else contributes itself in rebuilt form.
pub open spec fn delta_of(e: SpecExpr) -> Seq<SpecExpr>
    decreases e,
{
    match e {
        SpecExpr::TerminalLiteral(_) => seq![e],
        SpecExpr::TerminalRegex(_) => seq![e],
        SpecExpr::NonTerminal(_) => seq![e],
        SpecExpr::Sequence(cs) => delta_of_list(cs),
        SpecExpr::Choice(cs) => seq![SpecExpr::Choice(alts_of(cs))],
        SpecExpr::ZeroOrMore(c) => delta_of(*c).drop_last().push(
            SpecExpr::ZeroOrMore(Box::new(delta_of(*c).last())),
        ),
        SpecExpr::OneOrMore(c) => delta_of(*c).drop_last().push(
            SpecExpr::OneOrMore(Box::new(delta_of(*c).last())),
        ),
        SpecExpr::Optional(c) => delta_of(*c).drop_last().push(
            SpecExpr::Optional(Box::new(delta_of(*c).last())),
        ),
        SpecExpr::AndPredicate(c) => seq![
            SpecExpr::AndPredicate(Box::new(reduce_nonempty(delta_of(*c)))),
        ],
        SpecExpr::NotPredicate(c) => seq![
            SpecExpr::NotPredicate(Box::new(reduce_nonempty(delta_of(*c)))),
        ],
    }
}

pub open spec fn delta_of_list(cs: Seq<SpecExpr>) -> Seq<SpecExpr>
    decreases cs,
{
    if cs.len() == 0 {
        Seq::empty()
    } else {
        delta_of(cs[0]) + delta_of_list(cs.drop_first())
    }
}

/// What the alternatives of a choice become: each alternative's contribution,
/// reduced.
pub open spec fn alts_of(cs: Seq<SpecExpr>) -> Seq<SpecExpr>
    decreases cs,
{
    if cs.len() == 0 {
        Seq::empty()
    } else {
        seq![reduce_nonempty(delta_of(cs[0]))] + alts_of(cs.drop_first())
    }
}

/// Joining two non-empty dump lists concatenates their texts around one
/// separator.
proof fn lemma_dump_list_concat(d1: Seq<SpecExpr>, d2: Seq<SpecExpr>, sep: Seq<char>)
    requires
        d1.len() >= 1,
        d2.len() >= 1,
    ensures
        spec_dump_list(d1 + d2, sep) == spec_dump_list(d1, sep) + sep + spec_dump_list(d2, sep),
    decreases d1.len(),
{
    if d1.len() == 1 {
        assert((d1 + d2).drop_first() =~= d2);
        assert((d1 + d2)[0] == d1[0]);
        assert((d1 + d2).len() >= 2);
    } else {
        lemma_dump_list_concat(d1.drop_first(), d2, sep);
        assert((d1 + d2).drop_first() =~= d1.drop_first() + d2);
        assert((d1 + d2)[0] == d1[0]);
        assert(spec_dump(d1[0]) + sep + (spec_dump_list(d1.drop_first(), sep) + sep
            + spec_dump_list(d2, sep)) =~= (spec_dump(d1[0]) + sep + spec_dump_list(
            d1.drop_first(),
            sep,
        )) + sep + spec_dump_list(d2, sep));
    }
}

/// The contribution of a dumpable expression is non-empty and dumps back to
/// the expression's own text.
proof fn lemma_delta_facts(e: SpecExpr)
    requires
        dumpable(e),
    ensures
        delta_of(e).len() >= 1,
        spec_dump_list(delta_of(e), seq![' ']) == spec_dump(e),
    decreases e,
{
    match e {
        SpecExpr::TerminalLiteral(_) => {
            assert(delta_of(e) == seq![e]);
            assert(spec_dump_list(delta_of(e), seq![' ']) == spec_dump(e));
        },
        SpecExpr::TerminalRegex(_) => {
            assert(delta_of(e) == seq![e]);
            assert(spec_dump_list(delta_of(e), seq![' ']) == spec_dump(e));
        },
        SpecExpr::NonTerminal(_) => {
            assert(delta_of(e) == seq![e]);
            assert(spec_dump_list(delta_of(e), seq![' ']) == spec_dump(e));
        },
        SpecExpr::Sequence(cs) => {
            lemma_delta_list_facts(cs);
            assert(delta_of(e) == delta_of_list(cs));
            assert(spec_dump_list(delta_of(e), seq![' ']) == spec_dump(e));
        },
        SpecExpr::Choice(cs) => {
            lemma_alts_facts(cs);
            let x = SpecExpr::Choice(alts_of(cs));
            assert(delta_of(e) == seq![x]);
            assert(spec_dump_list(seq![x], seq![' ']) == spec_dump(x));
            assert(spec_dump(x) == spec_dump(e));
            assert(spec_dump_list(delta_of(e), seq![' ']) == spec_dump(e));
        },
        SpecExpr::ZeroOrMore(c) => {
            lemma_delta_facts(*c);
            lemma_delta_quantifier(delta_of(*c), e, spec_dump(*c));
            assert(spec_dump_list(delta_of(e), seq![' ']) == spec_dump(e));
        },
        SpecExpr::OneOrMore(c) => {
            lemma_delta_facts(*c);
            lemma_delta_quantifier(delta_of(*c), e, spec_dump(*c));
            assert(spec_dump_list(delta_of(e), seq![' ']) == spec_dump(e));
        },
        SpecExpr::Optional(c) => {
            lemma_delta_facts(*c);
            lemma_delta_quantifier(delta_of(*c), e, spec_dump(*c));
            assert(spec_dump_list(delta_of(e), seq![' ']) == spec_dump(e));
        },
        SpecExpr::AndPredicate(c) => {
            lemma_delta_facts(*c);
            lemma_reduce_dump(delta_of(*c));
            let x = SpecExpr::AndPredicate(Box::new(reduce_nonempty(delta_of(*c))));
            assert(delta_of(e) == seq![x]);
            assert(spec_dump(x) == seq!['&'] + spec_dump(*c));
            assert(spec_dump_list(delta_of(e), seq![' ']) == spec_dump(e));
        },
        SpecExpr::NotPredicate(c) => {
            lemma_delta_facts(*c);
            lemma_reduce_dump(delta_of(*c));
            let x = SpecExpr::NotPredicate(Box::new(reduce_nonempty(delta_of(*c))));
            assert(delta_of(e) == seq![x]);
            assert(spec_dump(x) == seq!['!'] + spec_dump(*c));
            assert(spec_dump_list(delta_of(e), seq![' ']) == spec_dump(e));
        },
    }
}

/// The dump of a reduced non-empty list is the list's joined dump.
proof fn lemma_reduce_dump(d: Seq<SpecExpr>)
    requires
        d.len() >= 1,
    ensures
        spec_dump(reduce_nonempty(d)) == spec_dump_list(d, seq![' ']),
{
}

/// Re-wrapping the last contribution with a postfix quantifier appends the
/// quantifier character to the joined dump.
proof fn lemma_delta_quantifier(d: Seq<SpecExpr>, wrapped: SpecExpr, child_dump: Seq<char>)
    requires
        d.len() >= 1,
        spec_dump_list(d, seq![' ']) == child_dump,
        delta_of(wrapped) == d.drop_last().push(quantify(wrapped, d.last())),
        spec_dump(quantify(wrapped, d.last())) == spec_dump(d.last()) + quantifier_mark(wrapped),
        spec_dump(wrapped) == child_dump + quantifier_mark(wrapped),
    ensures
        delta_of(wrapped).len() >= 1,
        spec_dump_list(delta_of(wrapped), seq![' ']) == spec_dump(wrapped),
{
    let q = quantify(wrapped, d.last());
    crate::expression::lemma_dump_list_push(d.drop_last(), q, seq![' ']);
    if d.len() == 1 {
        assert(d.drop_last().len() == 0);
        assert(spec_dump_list(d, seq![' ']) == spec_dump(d[0]));
        assert(d.last() == d[0]);
    } else {
        crate::expression::lemma_dump_list_push(d.drop_last(), d.last(), seq![' ']);
        assert(d.drop_last().push(d.last()) =~= d);
        assert(spec_dump_list(d.drop_last(), seq![' ']) + seq![' '] + (spec_dump(d.last())
            + quantifier_mark(wrapped)) =~= (spec_dump_list(d.drop_last(), seq![' ']) + seq![' ']
            + spec_dump(d.last())) + quantifier_mark(wrapped));
    }
}

/// The node a quantifier builds around the last contribution.
pub open spec fn quantify(wrapped: SpecExpr, last: SpecExpr) -> SpecExpr {
    match wrapped {
        SpecExpr::ZeroOrMore(_) => SpecExpr::ZeroOrMore(Box::new(last)),
        SpecExpr::OneOrMore(_) => SpecExpr::OneOrMore(Box::new(last)),
        _ => SpecExpr::Optional(Box::new(last)),
    }
}

/// The character a quantifier appends.
pub open spec fn quantifier_mark(wrapped: SpecExpr) -> Seq<char> {
    match wrapped {
        SpecExpr::ZeroOrMore(_) => seq!['*'],
        SpecExpr::OneOrMore(_) => seq!['+'],
        _ => seq!['?'],
    }
}

proof fn lemma_delta_list_facts(cs: Seq<SpecExpr>)
    requires
        cs.len() >= 1,
        dumpable_list(cs),
    ensures
        delta_of_list(cs).len() >= 1,
        spec_dump_list(delta_of_list(cs), seq![' ']) == spec_dump_list(cs, seq![' ']),
    decreases cs,
{
    lemma_delta_facts(cs[0]);
    if cs.len() == 1 {
        assert(delta_of_list(cs.drop_first()) =~= Seq::<SpecExpr>::empty());
        assert(delta_of(cs[0]) + Seq::<SpecExpr>::empty() =~= delta_of(cs[0]));
    } else {
        lemma_delta_list_facts(cs.drop_first());
        lemma_dump_list_concat(delta_of(cs[0]), delta_of_list(cs.drop_first()), seq![' ']);
    }
}

proof fn lemma_alts_facts(cs: Seq<SpecExpr>)
    requires
        cs.len() >= 1,
        dumpable_list(cs),
    ensures
        alts_of(cs).len() == cs.len(),
        spec_dump_list(alts_of(cs), seq![' ', '|', ' ']) == spec_dump_list(
            cs,
            seq![' ', '|', ' '],
        ),
    decreases cs,
{
    lemma_delta_facts(cs[0]);
    lemma_reduce_dump(delta_of(cs[0]));
    if cs.len() == 1 {
        assert(alts_of(cs) =~= seq![reduce_nonempty(delta_of(cs[0]))]);
    } else {
        lemma_alts_facts(cs.drop_first());
        assert(alts_of(cs).drop_first() =~= alts_of(cs.drop_first()));
        assert(alts_of(cs)[0] == reduce_nonempty(delta_of(cs[0])));
    }
}

/// Indexing inside a window of `toks` known to equal `full`.
proof fn lemma_window_at(toks: Seq<SpecToken>, i: int, m: int, full: Seq<SpecToken>)
    requires
        0 <= i,
        i + full.len() <= toks.len(),
        toks.subrange(i, i + full.len()) == full,
        0 <= m < full.len(),
    ensures
        toks[i + m] == full[m],
{
    assert(full[m] == toks.subrange(i, i + full.len() as int)[m]);
}

/// A sub-window of a window of `toks` known to equal `full`.
proof fn lemma_window_sub(toks: Seq<SpecToken>, i: int, a: int, b: int, full: Seq<SpecToken>)
    requires
        0 <= i,
        i + full.len() <= toks.len(),
        toks.subrange(i, i + full.len()) == full,
        0 <= a <= b <= full.len(),
    ensures
        toks.subrange(i + a, i + b) == full.subrange(a, b),
{
    assert forall|k: int| 0 <= k < b - a implies toks.subrange(i + a, i + b)[k] == full.subrange(
        a,
        b,
    )[k] by {
        assert(full[a + k] == toks.subrange(i, i + full.len() as int)[a + k]);
    }
    assert(toks.subrange(i + a, i + b) =~= full.subrange(a, b));
}

proof fn lemma_toks_nonempty(e: SpecExpr)
    requires
        dumpable(e),
    ensures
        toks_of(e).len() >= 1,
    decreases e,
{
    match e {
        SpecExpr::Sequence(cs) => {
            lemma_toks_list_nonempty(cs);
        },
        _ => {},
    }
}

proof fn lemma_toks_list_nonempty(cs: Seq<SpecExpr>)
    requires
        cs.len() >= 1,
        dumpable_list(cs),
    ensures
        toks_of_list(cs, Seq::empty()).len() >= 1,
        toks_of_list(cs, seq![SpecToken::Choice]).len() >= 1,
    decreases cs,
{
    lemma_toks_nonempty(cs[0]);
}

/// What a parenthesized group compiles to, given the alternatives collected
/// so far and the alternatives still to come.
pub open spec fn group_result(alts0: Seq<SpecExpr>, cs: Seq<SpecExpr>) -> SpecExpr
    decreases cs.len(),
{
    if cs.len() <= 1 {
        let red = reduce_nonempty(delta_of(cs[0]));
        if alts0.len() > 0 {
            SpecExpr::Choice(alts0.push(red))
        } else {
            red
        }
    } else {
        group_result(alts0.push(reduce_nonempty(delta_of(cs[0]))), cs.drop_first())
    }
}

proof fn lemma_group_result_alts(alts0: Seq<SpecExpr>, cs: Seq<SpecExpr>)
    requires
        cs.len() >= 1,
    ensures
        group_result(alts0, cs) == if alts0.len() == 0 && cs.len() == 1 {
            reduce_nonempty(delta_of(cs[0]))
        } else {
            SpecExpr::Choice(alts0 + alts_of(cs))
        },
    decreases cs.len(),
{
    let r0 = reduce_nonempty(delta_of(cs[0]));
    if cs.len() == 1 {
        if alts0.len() > 0 {
            assert(alts_of(cs.drop_first()) =~= Seq::<SpecExpr>::empty());
            assert(seq![r0] + alts_of(cs.drop_first()) =~= seq![r0]);
            assert(alts0.push(r0) =~= alts0 + seq![r0]);
        }
    } else {
        lemma_group_result_alts(alts0.push(r0), cs.drop_first());
        assert(alts0.push(r0) + alts_of(cs.drop_first()) =~= alts0 + (seq![r0] + alts_of(
            cs.drop_first(),
        )));
    }
}

/// Consuming the canonical tokens of `e` from any compiler state appends
/// exactly `delta_of(e)` to the pending sequence and moves on.
proof fn lemma_compile_consume(
    e: SpecExpr,
    toks: Seq<SpecToken>,
    i: int,
    seqacc: Seq<SpecExpr>,
    alts: Seq<SpecExpr>,
    in_group: bool,
)
    requires
        dumpable(e),
        0 <= i,
        i + toks_of(e).len() <= toks.len(),
        toks.subrange(i, i + toks_of(e).len()) == toks_of(e),
    ensures
        spec_compile_run(toks, i, seqacc, alts, in_group) == spec_compile_run(
            toks,
            i + toks_of(e).len(),
            seqacc + delta_of(e),
            alts,
            in_group,
        ),
    decreases e,
{
    match e {
        SpecExpr::TerminalLiteral(s) => {
            assert(toks[i] == toks_of(e)[0]);
            assert(seqacc.push(e) =~= seqacc + delta_of(e));
        },
        SpecExpr::TerminalRegex(_) => {
            assert(toks[i] == toks_of(e)[0]);
            assert(seqacc.push(e) =~= seqacc + delta_of(e));
        },
        SpecExpr::NonTerminal(_) => {
            assert(toks[i] == toks_of(e)[0]);
            assert(seqacc.push(e) =~= seqacc + delta_of(e));
        },
        SpecExpr::Sequence(cs) => {
            lemma_compile_consume_list(cs, toks, i, seqacc, alts, in_group);
        },
        SpecExpr::Choice(cs) => {
            let inner = toks_of_list(cs, seq![SpecToken::Choice]);
            let lin = inner.len() as int;
            assert(toks_of(e) =~= seq![SpecToken::GroupBegin] + (inner + seq![
                SpecToken::GroupEnd,
            ]));
            lemma_window_at(toks, i, 0, toks_of(e));
            lemma_window_sub(toks, i, 1, 1 + lin, toks_of(e));
            assert(toks_of(e).subrange(1, 1 + lin) =~= inner);
            lemma_window_at(toks, i, 1 + lin, toks_of(e));
            lemma_compile_group(cs, toks, i + 1, Seq::empty());
            lemma_group_result_alts(Seq::empty(), cs);
            let g = group_result(Seq::empty(), cs);
            assert(Seq::<SpecExpr>::empty() + alts_of(cs) =~= alts_of(cs));
            assert(g == SpecExpr::Choice(alts_of(cs)));
            assert(seqacc.push(g) =~= seqacc + delta_of(e));
        },
        SpecExpr::ZeroOrMore(c) => {
            let dc = delta_of(*c);
            let lc = toks_of(*c).len() as int;
            assert(toks_of(e) =~= toks_of(*c) + seq![SpecToken::ZeroOrMore]);
            lemma_window_sub(toks, i, 0, lc, toks_of(e));
            assert(toks_of(e).subrange(0, lc) =~= toks_of(*c));
            lemma_compile_consume(*c, toks, i, seqacc, alts, in_group);
            lemma_delta_facts(*c);
            lemma_window_at(toks, i, lc, toks_of(e));
            assert((seqacc + dc).drop_last() =~= seqacc + dc.drop_last());
            assert((seqacc + dc).last() == dc.last());
            assert((seqacc + dc.drop_last()).push(
                SpecExpr::ZeroOrMore(Box::new(dc.last())),
            ) =~= seqacc + delta_of(e));
        },
        SpecExpr::OneOrMore(c) => {
            let dc = delta_of(*c);
            let lc = toks_of(*c).len() as int;
            assert(toks_of(e) =~= toks_of(*c) + seq![SpecToken::OneOrMore]);
            lemma_window_sub(toks, i, 0, lc, toks_of(e));
            assert(toks_of(e).subrange(0, lc) =~= toks_of(*c));
            lemma_compile_consume(*c, toks, i, seqacc, alts, in_group);
            lemma_delta_facts(*c);
            lemma_window_at(toks, i, lc, toks_of(e));
            assert((seqacc + dc).drop_last() =~= seqacc + dc.drop_last());
            assert((seqacc + dc).last() == dc.last());
            assert((seqacc + dc.drop_last()).push(
                SpecExpr::OneOrMore(Box::new(dc.last())),
            ) =~= seqacc + delta_of(e));
        },
        SpecExpr::Optional(c) => {
            let dc = delta_of(*c);
            let lc = toks_of(*c).len() as int;
            assert(toks_of(e) =~= toks_of(*c) + seq![SpecToken::Optional]);
            lemma_window_sub(toks, i, 0, lc, toks_of(e));
            assert(toks_of(e).subrange(0, lc) =~= toks_of(*c));
            lemma_compile_consume(*c, toks, i, seqacc, alts, in_group);
            lemma_delta_facts(*c);
            lemma_window_at(toks, i, lc, toks_of(e));
            assert((seqacc + dc).drop_last() =~= seqacc + dc.drop_last());
            assert((seqacc + dc).last() == dc.last());
            assert((seqacc + dc.drop_last()).push(
                SpecExpr::Optional(Box::new(dc.last())),
            ) =~= seqacc + delta_of(e));
        },
        SpecExpr::AndPredicate(c) => {
            lemma_compile_consume_predicate(e, *c, toks, i, seqacc, alts, in_group);
        },
        SpecExpr::NotPredicate(c) => {
            lemma_compile_consume_predicate(e, *c, toks, i, seqacc, alts, in_group);
        },
    }
}

/// The predicate cases of `lemma_compile_consume`: the compiler wraps the
/// single atom that follows the predicate mark.
#[verifier::rlimit(30)]
proof fn lemma_compile_consume_predicate(
    e: SpecExpr,
    c: SpecExpr,
    toks: Seq<SpecToken>,
    i: int,
    seqacc: Seq<SpecExpr>,
    alts: Seq<SpecExpr>,
    in_group: bool,
)
    requires
        dumpable(e),
        e == SpecExpr::AndPredicate(Box::new(c)) || e == SpecExpr::NotPredicate(Box::new(c)),
        0 <= i,
        i + toks_of(e).len() <= toks.len(),
        toks.subrange(i, i + toks_of(e).len()) == toks_of(e),
    ensures
        spec_compile_run(toks, i, seqacc, alts, in_group) == spec_compile_run(
            toks,
            i + toks_of(e).len(),
            seqacc + delta_of(e),
            alts,
            in_group,
        ),
    decreases e, 0int,
{
    let neg = e is NotPredicate;
    let mark: SpecToken = if neg {
        SpecToken::NotPredicate
    } else {
        SpecToken::AndPredicate
    };
    assert(dumpable(c) && atomic(c));
    assert(toks_of(e) =~= seq![mark] + toks_of(c));
    lemma_toks_nonempty(c);
    lemma_window_at(toks, i, 0, toks_of(e));
    lemma_window_at(toks, i, 1, toks_of(e));
    match c {
        SpecExpr::TerminalLiteral(s) => {
            assert(toks[i + 1] == SpecToken::TerminalExpression(s));
            assert(seqacc.push(wrap_predicate(neg, c)) =~= seqacc + delta_of(e));
        },
        SpecExpr::TerminalRegex(p) => {
            assert(toks[i + 1] == SpecToken::TerminalRegexExpression(p));
            assert(seqacc.push(wrap_predicate(neg, c)) =~= seqacc + delta_of(e));
        },
        SpecExpr::NonTerminal(n) => {
            assert(toks[i + 1] == SpecToken::Expression(n));
            assert(seqacc.push(wrap_predicate(neg, c)) =~= seqacc + delta_of(e));
        },
        SpecExpr::Choice(cs) => {
            let inner = toks_of_list(cs, seq![SpecToken::Choice]);
            let lin = inner.len() as int;
            assert(toks_of(c) =~= seq![SpecToken::GroupBegin] + (inner + seq![
                SpecToken::GroupEnd,
            ]));
            assert(toks[i + 1] == SpecToken::GroupBegin);
            lemma_window_sub(toks, i, 2, 2 + lin, toks_of(e));
            assert(toks_of(e).subrange(2, 2 + lin) =~= inner);
            lemma_window_at(toks, i, 2 + lin, toks_of(e));
            lemma_compile_group(cs, toks, i + 2, Seq::empty());
            lemma_group_result_alts(Seq::empty(), cs);
            let g = group_result(Seq::empty(), cs);
            assert(Seq::<SpecExpr>::empty() + alts_of(cs) =~= alts_of(cs));
            assert(g == SpecExpr::Choice(alts_of(cs)));
            assert(reduce_nonempty(delta_of(c)) == g);
            assert(seqacc.push(wrap_predicate(neg, g)) =~= seqacc + delta_of(e));
        },
        _ => {
            assert(false);
        },
    }
}

proof fn lemma_compile_consume_list(
    cs: Seq<SpecExpr>,
    toks: Seq<SpecToken>,
    i: int,
    seqacc: Seq<SpecExpr>,
    alts: Seq<SpecExpr>,
    in_group: bool,
)
    requires
        cs.len() >= 1,
        dumpable_list(cs),
        0 <= i,
        i + toks_of_list(cs, Seq::empty()).len() <= toks.len(),
        toks.subrange(i, i + toks_of_list(cs, Seq::empty()).len()) == toks_of_list(
            cs,
            Seq::empty(),
        ),
    ensures
        spec_compile_run(toks, i, seqacc, alts, in_group) == spec_compile_run(
            toks,
            i + toks_of_list(cs, Seq::empty()).len(),
            seqacc + delta_of_list(cs),
            alts,
            in_group,
        ),
    decreases cs,
{
    let l0 = toks_of(cs[0]).len() as int;
    if cs.len() == 1 {
        lemma_compile_consume(cs[0], toks, i, seqacc, alts, in_group);
        assert(delta_of_list(cs.drop_first()) =~= Seq::<SpecExpr>::empty());
        assert(delta_of(cs[0]) + Seq::<SpecExpr>::empty() =~= delta_of(cs[0]));
    } else {
        let ltot = toks_of_list(cs, Seq::empty()).len() as int;
        assert(toks_of_list(cs, Seq::empty()) =~= toks_of(cs[0]) + toks_of_list(
            cs.drop_first(),
            Seq::empty(),
        ));
        let full = toks_of_list(cs, Seq::empty());
        lemma_window_sub(toks, i, 0, l0, full);
        assert(full.subrange(0, l0) =~= toks_of(cs[0]));
        lemma_window_sub(toks, i, l0, ltot, full);
        assert(full.subrange(l0, ltot) =~= toks_of_list(cs.drop_first(), Seq::empty()));
        lemma_compile_consume(cs[0], toks, i, seqacc, alts, in_group);
        lemma_compile_consume_list(
            cs.drop_first(),
            toks,
            i + l0,
            seqacc + delta_of(cs[0]),
            alts,
            in_group,
        );
        assert(seqacc + delta_of(cs[0]) + delta_of_list(cs.drop_first()) =~= seqacc
            + delta_of_list(cs));
    }
}

/// Consuming the alternatives of a group, `Choice` tokens between them and a
/// closing `)` after them, returns the group's compiled expression.
proof fn lemma_compile_group(
    cs: Seq<SpecExpr>,
    toks: Seq<SpecToken>,
    i: int,
    alts0: Seq<SpecExpr>,
)
    requires
        cs.len() >= 1,
        dumpable_list(cs),
        0 <= i,
        i + toks_of_list(cs, seq![SpecToken::Choice]).len() < toks.len(),
        toks.subrange(i, i + toks_of_list(cs, seq![SpecToken::Choice]).len()) == toks_of_list(
            cs,
            seq![SpecToken::Choice],
        ),
        toks[i + toks_of_list(cs, seq![SpecToken::Choice]).len()] == SpecToken::GroupEnd,
    ensures
        spec_compile_run(toks, i, Seq::empty(), alts0, true) == Ok::<
            (SpecExpr, int),
            GrammarError,
        >((group_result(alts0, cs), i + toks_of_list(cs, seq![SpecToken::Choice]).len() + 1)),
    decreases cs,
{
    let l0 = toks_of(cs[0]).len() as int;
    let d0 = delta_of(cs[0]);
    lemma_delta_facts(cs[0]);
    if cs.len() == 1 {
        lemma_compile_consume(cs[0], toks, i, Seq::empty(), alts0, true);
        assert(Seq::<SpecExpr>::empty() + d0 =~= d0);
        assert(spec_reduce(d0) == Some(reduce_nonempty(d0)));
    } else {
        let ltot = toks_of_list(cs, seq![SpecToken::Choice]).len() as int;
        assert(toks_of_list(cs, seq![SpecToken::Choice]) =~= toks_of(cs[0]) + (seq![
            SpecToken::Choice,
        ] + toks_of_list(cs.drop_first(), seq![SpecToken::Choice])));
        let full = toks_of_list(cs, seq![SpecToken::Choice]);
        lemma_window_sub(toks, i, 0, l0, full);
        assert(full.subrange(0, l0) =~= toks_of(cs[0]));
        lemma_window_at(toks, i, l0, full);
        lemma_window_sub(toks, i, l0 + 1, ltot, full);
        assert(full.subrange(l0 + 1, ltot) =~= toks_of_list(
            cs.drop_first(),
            seq![SpecToken::Choice],
        ));
        lemma_compile_consume(cs[0], toks, i, Seq::empty(), alts0, true);
        assert(Seq::<SpecExpr>::empty() + d0 =~= d0);
        assert(spec_reduce(d0) == Some(reduce_nonempty(d0)));
        lemma_compile_group(cs.drop_first(), toks, i + l0 + 1, alts0.push(reduce_nonempty(d0)));
    }
}

/// Law: parsing the canonical dump of an expression back yields an
/// expression whose own dump is byte-identical. `dumpable` names the inputs
/// the trip cannot preserve and leaves them out; see the module comment.
pub proof fn lemma_dump_round_trip(e: SpecExpr)
    requires
        dumpable(e),
    ensures
        spec_lex_complete(spec_dump(e)),
        spec_compile_body(spec_dump(e)) matches Ok(e2) && spec_dump(e2) == spec_dump(e),
{
    lemma_lex_of_dump(e);
    let toks = toks_of(e);
    assert(toks.subrange(0, toks.len() as int) =~= toks);
    lemma_compile_consume(e, toks, 0, Seq::empty(), Seq::empty(), false);
    assert(Seq::<SpecExpr>::empty() + delta_of(e) =~= delta_of(e));
    lemma_delta_facts(e);
    assert(spec_reduce(delta_of(e)) == Some(reduce_nonempty(delta_of(e))));
    lemma_reduce_dump(delta_of(e));
}

} // verus!

