//! The expression tree: parsing combinators forming the right-hand side of a
//! rule.
//!
//! A tagged enum with one matching routine (in the parser module) keeps the
//! dispatch in one place; semantic values attach to rules, not to nodes.

use vstd::prelude::*;

verus! {

/// The spec-level form of an expression tree, with text as character
/// sequences.
pub enum SpecExpr {
    TerminalLiteral(Seq<char>),
    TerminalRegex(Seq<char>),
    NonTerminal(Seq<char>),
    Sequence(Seq<SpecExpr>),
    Choice(Seq<SpecExpr>),
    ZeroOrMore(Box<SpecExpr>),
    OneOrMore(Box<SpecExpr>),
    Optional(Box<SpecExpr>),
    AndPredicate(Box<SpecExpr>),
    NotPredicate(Box<SpecExpr>),
}

/// An expression tree node.
///
/// `TerminalLiteral` consumes exactly its text; `TerminalRegex` consumes the
/// anchored match of its pattern; `NonTerminal` invokes the named rule;
/// `Sequence` matches each child in order; `Choice` commits to its first
/// matching alternative; the quantifiers repeat their child greedily; the
/// predicates test their child without consuming input.
pub enum Expression {
    TerminalLiteral(String),
    TerminalRegex(String),
    NonTerminal(String),
    Sequence(Vec<Expression>),
    Choice(Vec<Expression>),
    ZeroOrMore(Box<Expression>),
    OneOrMore(Box<Expression>),
    Optional(Box<Expression>),
    AndPredicate(Box<Expression>),
    NotPredicate(Box<Expression>),
}

/// The spec-level form of a vector of expressions.
pub open spec fn exprs_view(s: Seq<Expression>) -> Seq<SpecExpr>
    decreases s,
{
    Seq::new(
        s.len(),
        |i: int|
            if 0 <= i < s.len() {
                s[i]@
            } else {
                SpecExpr::Sequence(Seq::empty())
            },
    )
}

impl View for Expression {
    type V = SpecExpr;

    open spec fn view(&self) -> SpecExpr
        decreases self,
    {
        match self {
            Expression::TerminalLiteral(s) => SpecExpr::TerminalLiteral(s@),
            Expression::TerminalRegex(s) => SpecExpr::TerminalRegex(s@),
            Expression::NonTerminal(s) => SpecExpr::NonTerminal(s@),
            Expression::Sequence(cs) => SpecExpr::Sequence(exprs_view(cs@)),
            Expression::Choice(cs) => SpecExpr::Choice(exprs_view(cs@)),
            Expression::ZeroOrMore(c) => SpecExpr::ZeroOrMore(Box::new((**c)@)),
            Expression::OneOrMore(c) => SpecExpr::OneOrMore(Box::new((**c)@)),
            Expression::Optional(c) => SpecExpr::Optional(Box::new((**c)@)),
            Expression::AndPredicate(c) => SpecExpr::AndPredicate(Box::new((**c)@)),
            Expression::NotPredicate(c) => SpecExpr::NotPredicate(Box::new((**c)@)),
        }
    }
}

/// The canonical textual form of an expression: literals quoted, regex
/// classes verbatim, sequences space-separated, choices parenthesized with
/// `|` between alternatives, quantifiers postfix, predicates prefix.
pub open spec fn spec_dump(e: SpecExpr) -> Seq<char>
    decreases e,
{
    match e {
        SpecExpr::TerminalLiteral(s) => seq!['\''] + s + seq!['\''],
        SpecExpr::TerminalRegex(s) => s,
        SpecExpr::NonTerminal(s) => s,
        SpecExpr::Sequence(cs) => spec_dump_list(cs, seq![' ']),
        SpecExpr::Choice(cs) => seq!['('] + spec_dump_list(cs, seq![' ', '|', ' ']) + seq![')'],
        SpecExpr::ZeroOrMore(c) => spec_dump(*c) + seq!['*'],
        SpecExpr::OneOrMore(c) => spec_dump(*c) + seq!['+'],
        SpecExpr::Optional(c) => spec_dump(*c) + seq!['?'],
        SpecExpr::AndPredicate(c) => seq!['&'] + spec_dump(*c),
        SpecExpr::NotPredicate(c) => seq!['!'] + spec_dump(*c),
    }
}

/// The dumps of `es` joined by `sep`.
pub open spec fn spec_dump_list(es: Seq<SpecExpr>, sep: Seq<char>) -> Seq<char>
    decreases es,
{
    if es.len() == 0 {
        Seq::empty()
    } else if es.len() == 1 {
        spec_dump(es[0])
    } else {
        spec_dump(es[0]) + sep + spec_dump_list(es.drop_first(), sep)
    }
}

pub(crate) proof fn lemma_dump_list_push(es: Seq<SpecExpr>, x: SpecExpr, sep: Seq<char>)
    ensures
        spec_dump_list(es.push(x), sep) == if es.len() == 0 {
            spec_dump(x)
        } else {
            spec_dump_list(es, sep) + sep + spec_dump(x)
        },
    decreases es.len(),
{
    if es.len() == 0 {
        assert(es.push(x) =~= seq![x]);
    } else {
        lemma_dump_list_push(es.drop_first(), x, sep);
        assert(es.push(x).drop_first() =~= es.drop_first().push(x));
        if es.len() == 1 {
            assert(es.drop_first().len() == 0);
        } else {
            assert(spec_dump_list(es, sep) + sep + spec_dump(x) =~= spec_dump(es[0]) + sep + (
            spec_dump_list(es.drop_first(), sep) + sep + spec_dump(x)));
        }
    }
}

impl Expression {
    /// The canonical textual form of this expression.
    pub fn dump(&self) -> (r: String)
        ensures
            r@ == spec_dump(self@),
        decreases self,
    {
        match self {
            Expression::TerminalLiteral(s) => {
                let mut r = String::new();
                r.push('\'');
                r.append(s.as_str());
                r.push('\'');
                proof {
                    assert(r@ =~= seq!['\''] + s@ + seq!['\'']);
                }
                r
            },
            Expression::TerminalRegex(s) => s.clone(),
            Expression::NonTerminal(s) => s.clone(),
            Expression::Sequence(cs) => {
                let r = dump_list(cs, " ");
                proof {
                    reveal_strlit(" ");
                    assert(" "@ =~= seq![' ']);
                }
                r
            },
            Expression::Choice(cs) => {
                let mut r = String::new();
                r.push('(');
                let inner = dump_list(cs, " | ");
                r.append(inner.as_str());
                r.push(')');
                proof {
                    reveal_strlit(" | ");
                    assert(" | "@ =~= seq![' ', '|', ' ']);
                    assert(r@ =~= seq!['('] + spec_dump_list(exprs_view(cs@), seq![' ', '|', ' '])
                        + seq![')']);
                }
                r
            },
            Expression::ZeroOrMore(c) => {
                let mut r = c.dump();
                r.push('*');
                proof {
                    assert(r@ =~= spec_dump((**c)@) + seq!['*']);
                }
                r
            },
            Expression::OneOrMore(c) => {
                let mut r = c.dump();
                r.push('+');
                proof {
                    assert(r@ =~= spec_dump((**c)@) + seq!['+']);
                }
                r
            },
            Expression::Optional(c) => {
                let mut r = c.dump();
                r.push('?');
                proof {
                    assert(r@ =~= spec_dump((**c)@) + seq!['?']);
                }
                r
            },
            Expression::AndPredicate(c) => {
                let mut r = String::new();
                r.push('&');
                let inner = c.dump();
                r.append(inner.as_str());
                proof {
                    assert(r@ =~= seq!['&'] + spec_dump((**c)@));
                }
                r
            },
            Expression::NotPredicate(c) => {
                let mut r = String::new();
                r.push('!');
                let inner = c.dump();
                r.append(inner.as_str());
                proof {
                    assert(r@ =~= seq!['!'] + spec_dump((**c)@));
                }
                r
            },
        }
    }
}

/// The dumps of `es` joined by `sep`.
fn dump_list(es: &Vec<Expression>, sep: &str) -> (r: String)
    ensures
        r@ == spec_dump_list(exprs_view(es@), sep@),
    decreases es,
{
    let mut r = String::new();
    let mut i: usize = 0;
    while i < es.len()
        invariant
            0 <= i <= es@.len(),
            r@ == spec_dump_list(exprs_view(es@).take(i as int), sep@),
        decreases es@.len() - i,
    {
        if i > 0 {
            r.append(sep);
        }
        let d = es[i].dump();
        r.append(d.as_str());
        proof {
            let full = exprs_view(es@);
            assert(full.take(i as int).push(full[i as int]) =~= full.take(i as int + 1));
            lemma_dump_list_push(full.take(i as int), full[i as int], sep@);
        }
        i = i + 1;
    }
    proof {
        assert(exprs_view(es@).take(es@.len() as int) =~= exprs_view(es@));
    }
    r
}

/// Factory for exact-match and regex-class terminals.
pub struct TerminalParsingExpression;

impl TerminalParsingExpression {
    pub fn new(p_name: &str) -> (r: Expression)
        ensures
            r@ == SpecExpr::TerminalLiteral(p_name@),
    {
        Expression::TerminalLiteral(String::from_str(p_name))
    }

    pub fn new_from_regex(p_name: &str) -> (r: Expression)
        ensures
            r@ == SpecExpr::TerminalRegex(p_name@),
    {
        Expression::TerminalRegex(String::from_str(p_name))
    }
}

/// Factory for references to named rules.
pub struct NonTerminalParsingExpression;

impl NonTerminalParsingExpression {
    pub fn new(p_name: &str) -> (r: Expression)
        ensures
            r@ == SpecExpr::NonTerminal(p_name@),
    {
        Expression::NonTerminal(String::from_str(p_name))
    }
}

/// Factory for ordered sequences.
pub struct SequenceParsingExpression;

impl SequenceParsingExpression {
    pub fn new(p_children: Vec<Expression>) -> (r: Expression)
        ensures
            r@ == SpecExpr::Sequence(exprs_view(p_children@)),
    {
        Expression::Sequence(p_children)
    }
}

/// Factory for ordered choices.
pub struct ChoiceParsingExpression;

impl ChoiceParsingExpression {
    pub fn new(p_children: Vec<Expression>) -> (r: Expression)
        ensures
            r@ == SpecExpr::Choice(exprs_view(p_children@)),
    {
        Expression::Choice(p_children)
    }
}

/// Factory for greedy one-or-more repetitions.
pub struct OneOrMoreParsingExpression;

impl OneOrMoreParsingExpression {
    pub fn new(child: Expression) -> (r: Expression)
        ensures
            r@ == SpecExpr::OneOrMore(Box::new(child@)),
    {
        Expression::OneOrMore(Box::new(child))
    }
}

/// Factory for greedy zero-or-more repetitions.
pub struct ZeroOrMoreParsingExpression;

impl ZeroOrMoreParsingExpression {
    pub fn new(child: Expression) -> (r: Expression)
        ensures
            r@ == SpecExpr::ZeroOrMore(Box::new(child@)),
    {
        Expression::ZeroOrMore(Box::new(child))
    }
}

/// Factory for optional matches.
pub struct OptionalParsingExpression;

impl OptionalParsingExpression {
    pub fn new(child: Expression) -> (r: Expression)
        ensures
            r@ == SpecExpr::Optional(Box::new(child@)),
    {
        Expression::Optional(Box::new(child))
    }
}

} // verus!
