//! The rule registry, the matcher that drives an expression tree over the
//! input cursor, and the `validate` / `parse` entry points.

use vstd::prelude::*;
use core::marker::PhantomData;
use crate::code_tokenizer::{CodeTokenizer, regex_is_valid, regex_compiles};
use crate::expression::{Expression, SpecExpr, exprs_view, spec_dump};
use crate::expression_tokenizer::{
    ExpressionTokenizer,
    ExpressionToken,
    SpecToken,
    spec_lex,
    spec_lex_complete,
};
use crate::semantics::{
    SpecResult,
    SpecRule,
    SpecStep,
    SpecChildrenStep,
    SpecAltStep,
    SpecStarStep,
    spec_lookup,
    spec_match_expr,
    spec_match_children,
    spec_match_alternatives,
    spec_match_repeat,
    zero_width,
    rem,
    lemma_match_spans,
};

verus! {

/// One node of the match result tree: the matched span (character positions
/// into the input), the results of the sub-expressions, the index of the
/// alternative a choice committed to, and the value a rule callback produced.
pub struct ParsingResult<T> {
    pub parsed_string_start: usize,
    pub parsed_string_end: usize,
    pub sub_results: Vec<ParsingResult<T>>,
    pub selected_choice: Option<usize>,
    pub rule_result: Option<T>,
}

/// The spec-level form of a vector of results.
pub open spec fn results_view<T>(s: Seq<ParsingResult<T>>) -> Seq<SpecResult>
    decreases s,
{
    Seq::new(
        s.len(),
        |i: int|
            if 0 <= i < s.len() {
                s[i]@
            } else {
                zero_width(0)
            },
    )
}

impl<T> View for ParsingResult<T> {
    type V = SpecResult;

    open spec fn view(&self) -> SpecResult
        decreases self,
    {
        SpecResult {
            start: self.parsed_string_start as int,
            end: self.parsed_string_end as int,
            children: results_view(self.sub_results@),
            choice: match self.selected_choice {
                Some(i) => Some(i as int),
                None => None,
            },
            has_value: self.rule_result is Some,
        }
    }
}

proof fn lemma_results_view_push<T>(s: Seq<ParsingResult<T>>, r: ParsingResult<T>)
    ensures
        results_view(s.push(r)) == results_view(s).push(r@),
{
    assert(results_view(s.push(r)) =~= results_view(s).push(r@));
}

/// What `flatten` leaves of a node: a node without children flattens to
/// nothing; one with children flattens to itself stripped of its children —
/// kept only when it carries a choice index or a value — followed by its
/// direct children.
pub open spec fn spec_flatten(n: SpecResult) -> Seq<SpecResult> {
    if n.children.len() == 0 {
        Seq::empty()
    } else {
        let shell = SpecResult { children: Seq::empty(), ..n };
        if n.choice is Some || n.has_value {
            seq![shell] + n.children
        } else {
            n.children
        }
    }
}

impl<T> ParsingResult<T> {
    /// Flatten one level of the result tree; see `spec_flatten`.
    pub fn flatten(self) -> (r: Vec<ParsingResult<T>>)
        ensures
            results_view(r@) == spec_flatten(self@),
    {
        let ghost n = self@;
        proof {
            assert(n.children == results_view(self.sub_results@));
            assert(n.children.len() == self.sub_results@.len());
        }
        let ParsingResult {
            parsed_string_start,
            parsed_string_end,
            sub_results,
            selected_choice,
            rule_result,
        } = self;
        let mut v: Vec<ParsingResult<T>> = Vec::new();
        if sub_results.len() == 0 {
            assert(results_view(v@) =~= spec_flatten(n));
            return v;
        }
        if selected_choice.is_some() || rule_result.is_some() {
            let shell = ParsingResult {
                parsed_string_start,
                parsed_string_end,
                sub_results: Vec::new(),
                selected_choice,
                rule_result,
            };
            proof {
                assert(shell@.children =~= Seq::<SpecResult>::empty());
                assert(shell@ =~= (SpecResult { children: Seq::empty(), ..n }));
            }
            v.push(shell);
        }
        let mut rest = sub_results;
        let ghost head = results_view(v@);
        let ghost all = n.children;
        proof {
            assert(n.children.len() > 0);
            if n.choice is Some || n.has_value {
                assert(head =~= seq![SpecResult { children: Seq::empty(), ..n }]);
                assert(spec_flatten(n) == seq![SpecResult { children: Seq::empty(), ..n }]
                    + n.children);
            } else {
                assert(head =~= Seq::<SpecResult>::empty());
                assert(spec_flatten(n) == n.children);
            }
            assert(head + all =~= spec_flatten(n));
            assert(results_view(rest@) == all);
        }
        while rest.len() > 0
            invariant
                head + all == spec_flatten(n),
                results_view(v@) + results_view(rest@) == head + all,
            decreases rest.len(),
        {
            proof {
                assert(results_view(rest@)[0] == rest@[0]@);
                assert(results_view(rest@.drop_first()) =~= results_view(rest@).drop_first());
                lemma_results_view_push(v@, rest@[0]);
                assert(results_view(v@).push(rest@[0]@) + results_view(rest@).drop_first() =~=
                results_view(v@) + results_view(rest@));
            }
            let x = rest.remove(0);
            v.push(x);
        }
        proof {
            assert(results_view(rest@) =~= Seq::<SpecResult>::empty());
            assert(results_view(v@) + results_view(rest@) =~= results_view(v@));
        }
        v
    }
}

/// The outcome of one matching step: a result, a plain failure, or an abort
/// (an unregistered rule was reached, or the recursion budget ran out).
pub enum MatchStep<T> {
    Found(ParsingResult<T>),
    NoMatch,
    Aborted,
}

impl<T> View for MatchStep<T> {
    type V = SpecStep;

    open spec fn view(&self) -> SpecStep {
        match self {
            MatchStep::Found(r) => SpecStep::Found(r@),
            MatchStep::NoMatch => SpecStep::NoMatch,
            MatchStep::Aborted => SpecStep::Aborted,
        }
    }
}

/// A semantic action attached to a rule. When the rule matches, the engine
/// hands the action the rule's match result and the cursor, and stores the
/// returned value in the result node. What an action computes is the host's
/// business: nothing is specified about it.
pub trait SemanticAction<T> {
    fn apply(&self, result: &ParsingResult<T>, tokenizer: &CodeTokenizer) -> T;
}

/// An action for grammars that compute nothing; `validate`-only parsers use
/// it as their action type.
pub struct NoAction;

impl SemanticAction<()> for NoAction {
    fn apply(&self, _result: &ParsingResult<()>, _tokenizer: &CodeTokenizer) {
    }
}

/// A named rule: an owned expression tree and an optional semantic action.
pub struct Rule<A> {
    name: String,
    expression: Expression,
    callback: Option<A>,
}

impl<A> View for Rule<A> {
    type V = SpecRule;

    closed spec fn view(&self) -> SpecRule {
        SpecRule {
            name: self.name@,
            expr: self.expression@,
            has_callback: self.callback is Some,
        }
    }
}

/// The spec-level form of the registry.
pub open spec fn rules_view<A>(s: Seq<Rule<A>>) -> Seq<SpecRule> {
    Seq::new(s.len(), |i: int| s[i]@)
}

/// The first registered rule of the given name, as an index.
fn find_rule<A>(rules: &Vec<Rule<A>>, name: &String) -> (r: Option<usize>)
    ensures
        match r {
            Some(i) => 0 <= i < rules@.len() && spec_lookup(rules_view(rules@), name@) == Some(
                rules@[i as int]@,
            ),
            None => spec_lookup(rules_view(rules@), name@) is None,
        },
{
    let ghost full = rules_view(rules@);
    proof {
        assert(full.skip(0) =~= full);
    }
    let mut i: usize = 0;
    while i < rules.len()
        invariant
            0 <= i <= rules@.len(),
            full == rules_view(rules@),
            spec_lookup(full, name@) == spec_lookup(full.skip(i as int), name@),
        decreases rules@.len() - i,
    {
        proof {
            assert(full.skip(i as int)[0] == rules@[i as int]@);
            assert(full.skip(i as int).drop_first() =~= full.skip(i as int + 1));
        }
        if rules[i].name == *name {
            return Some(i);
        }
        i = i + 1;
    }
    proof {
        assert(full.skip(rules@.len() as int).len() == 0);
    }
    None
}

/// A result node without children or value.
fn leaf_result<T>(start: usize, end: usize) -> (r: ParsingResult<T>)
    ensures
        r@ == (SpecResult {
            start: start as int,
            end: end as int,
            children: Seq::empty(),
            choice: None,
            has_value: false,
        }),
{
    let r = ParsingResult {
        parsed_string_start: start,
        parsed_string_end: end,
        sub_results: Vec::new(),
        selected_choice: None,
        rule_result: None,
    };
    proof {
        assert(results_view(r.sub_results@) =~= Seq::<SpecResult>::empty());
        assert(r@ =~= SpecResult {
            start: start as int,
            end: end as int,
            children: Seq::empty(),
            choice: None,
            has_value: false,
        });
    }
    r
}

/// Repeat `child` greedily from the current position, collecting one result
/// per iteration; see `spec_match_repeat`. `Some(kids)` leaves the cursor
/// after the last recorded iteration; `None` reports an abort.
#[verifier::loop_isolation(false)]
fn match_repeat<T, A: SemanticAction<T>>(
    rules: &Vec<Rule<A>>,
    child: &Expression,
    tok: &mut CodeTokenizer,
    fuel: u64,
) -> (r: Option<Vec<ParsingResult<T>>>)
    requires
        old(tok).wf(),
        fuel >= 1,
    ensures
        final(tok).wf(),
        final(tok).text() == old(tok).text(),
        final(tok).stack().len() == old(tok).stack().len(),
        final(tok).stack().drop_last() == old(tok).stack().drop_last(),
        match r {
            Some(kids) => spec_match_repeat(
                rules_view(rules@),
                child@,
                old(tok).text(),
                old(tok).pos(),
                fuel as nat,
            ) == SpecStarStep::Matched(results_view(kids@), final(tok).pos()) && old(tok).pos()
                <= final(tok).pos() <= old(tok).text().len(),
            None => spec_match_repeat(
                rules_view(rules@),
                child@,
                old(tok).text(),
                old(tok).pos(),
                fuel as nat,
            ) == SpecStarStep::Aborted,
        },
    decreases fuel, rem(old(tok).text(), old(tok).pos()), 1int,
{
    let ghost rv = rules_view(rules@);
    let ghost childv = child@;
    let ghost text = old(tok).text();
    let ghost pos0 = old(tok).pos();
    let ghost fnat = fuel as nat;
    let mut kids: Vec<ParsingResult<T>> = Vec::new();
    proof {
        assert(results_view(kids@) =~= Seq::<SpecResult>::empty());
    }
    loop
        invariant
            tok.wf(),
            tok.text() == text,
            tok.stack().len() == old(tok).stack().len(),
            tok.stack().drop_last() == old(tok).stack().drop_last(),
            0 <= pos0 <= tok.pos() <= text.len(),
            fuel >= 1,
            rv == rules_view(rules@),
            childv == child@,
            fnat == fuel as nat,
            spec_match_repeat(rv, childv, text, pos0, fnat) == (match spec_match_repeat(
                rv,
                childv,
                text,
                tok.pos(),
                fnat,
            ) {
                SpecStarStep::Matched(k2, e2) => SpecStarStep::Matched(
                    results_view(kids@) + k2,
                    e2,
                ),
                SpecStarStep::Aborted => SpecStarStep::Aborted,
            }),
        decreases rem(text, tok.pos()),
    {
        let cur = tok.get_state();
        let step = match_expr(rules, child, tok, fuel - 1);
        proof {
            lemma_match_spans(rv, childv, text, cur as int, (fuel - 1) as nat);
        }
        match step {
            MatchStep::Found(r) => {
                if r.parsed_string_end > cur {
                    proof {
                        let sub = spec_match_repeat(rv, childv, text, r@.end, fnat);
                        match sub {
                            SpecStarStep::Matched(k2, e2) => {
                                lemma_results_view_push(kids@, r);
                                assert(results_view(kids@) + (seq![r@] + k2) =~= results_view(
                                    kids@,
                                ).push(r@) + k2);
                            },
                            SpecStarStep::Aborted => {},
                        }
                    }
                    kids.push(r);
                } else {
                    proof {
                        assert(spec_match_repeat(rv, childv, text, cur as int, fnat)
                            == SpecStarStep::Matched(Seq::empty(), cur as int));
                        assert(results_view(kids@) + Seq::<SpecResult>::empty() =~= results_view(
                            kids@,
                        ));
                    }
                    return Some(kids);
                }
            },
            MatchStep::NoMatch => {
                proof {
                    assert(spec_match_repeat(rv, childv, text, cur as int, fnat)
                        == SpecStarStep::Matched(Seq::empty(), cur as int));
                    assert(results_view(kids@) + Seq::<SpecResult>::empty() =~= results_view(
                        kids@,
                    ));
                }
                return Some(kids);
            },
            MatchStep::Aborted => {
                return None;
            },
        }
    }
}

/// Match `e` against the cursor. On `Found`, the result spans from the entry
/// position to the cursor's final position; otherwise the cursor is restored
/// to where it was. The speculative stack always comes back at its entry
/// depth, with everything below the top untouched.
#[verifier::loop_isolation(false)]
fn match_expr<T, A: SemanticAction<T>>(
    rules: &Vec<Rule<A>>,
    e: &Expression,
    tok: &mut CodeTokenizer,
    fuel: u64,
) -> (r: MatchStep<T>)
    requires
        old(tok).wf(),
    ensures
        final(tok).wf(),
        final(tok).text() == old(tok).text(),
        final(tok).stack().len() == old(tok).stack().len(),
        final(tok).stack().drop_last() == old(tok).stack().drop_last(),
        r@ == spec_match_expr(
            rules_view(rules@),
            e@,
            old(tok).text(),
            old(tok).pos(),
            fuel as nat,
        ),
        r matches MatchStep::Found(res) ==> final(tok).stack() == old(tok).stack().update(
            old(tok).stack().len() - 1,
            res.parsed_string_end,
        ) && final(tok).pos() == res@.end,
        !(r matches MatchStep::Found(..)) ==> final(tok).stack() == old(tok).stack(),
    decreases fuel, rem(old(tok).text(), old(tok).pos()), 2int,
{
    if fuel == 0 {
        return MatchStep::Aborted;
    }
    let ghost rv = rules_view(rules@);
    let ghost text = old(tok).text();
    let ghost pos0 = old(tok).pos();
    let ghost fnat = fuel as nat;
    proof {
        assert(0 <= pos0 <= text.len());
        lemma_match_spans(rv, e@, text, pos0, fnat);
    }
    let start = tok.push_state();
    match e {
        Expression::TerminalLiteral(s) => {
            if tok.match_string(s.as_str()) {
                let end = tok.get_state();
                let res = leaf_result::<T>(start, end);
                tok.update_state();
                MatchStep::Found(res)
            } else {
                tok.pop_state();
                MatchStep::NoMatch
            }
        },
        Expression::TerminalRegex(s) => {
            if tok.match_regex(s.as_str()) {
                let end = tok.get_state();
                let res = leaf_result::<T>(start, end);
                tok.update_state();
                MatchStep::Found(res)
            } else {
                tok.pop_state();
                MatchStep::NoMatch
            }
        },
        Expression::NonTerminal(name) => {
            match find_rule(rules, name) {
                None => {
                    tok.pop_state();
                    MatchStep::Aborted
                },
                Some(idx) => {
                    let rule = &rules[idx];
                    match match_expr(rules, &rule.expression, tok, fuel - 1) {
                        MatchStep::Found(res) => {
                            let value: Option<T> = match &rule.callback {
                                Some(cb) => Some(cb.apply(&res, &*tok)),
                                None => None,
                            };
                            let ghost resv = res@;
                            let rs = res.parsed_string_start;
                            let re = res.parsed_string_end;
                            let mut kids: Vec<ParsingResult<T>> = Vec::new();
                            kids.push(res);
                            let node = ParsingResult {
                                parsed_string_start: rs,
                                parsed_string_end: re,
                                sub_results: kids,
                                selected_choice: None,
                                rule_result: value,
                            };
                            proof {
                                assert(results_view(node.sub_results@) =~= seq![resv]);
                                assert(node@ =~= SpecResult {
                                    start: resv.start,
                                    end: resv.end,
                                    children: seq![resv],
                                    choice: None,
                                    has_value: rules@[idx as int]@.has_callback,
                                });
                            }
                            tok.update_state();
                            MatchStep::Found(node)
                        },
                        MatchStep::NoMatch => {
                            tok.pop_state();
                            MatchStep::NoMatch
                        },
                        MatchStep::Aborted => {
                            tok.pop_state();
                            MatchStep::Aborted
                        },
                    }
                },
            }
        },
        Expression::Sequence(cs) => {
            let ghost csv = exprs_view(cs@);
            let mut kids: Vec<ParsingResult<T>> = Vec::new();
            let mut i: usize = 0;
            proof {
                assert(csv.skip(0) =~= csv);
                assert(results_view(kids@) =~= Seq::<SpecResult>::empty());
            }
            while i < cs.len()
                invariant
                    tok.wf(),
                    tok.text() == text,
                    tok.stack().len() == old(tok).stack().len() + 1,
                    tok.stack().drop_last() == old(tok).stack(),
                    0 <= pos0 <= tok.pos() <= text.len(),
                    0 <= i <= cs@.len(),
                    fuel >= 1,
                    rv == rules_view(rules@),
                    fnat == fuel as nat,
                    csv == exprs_view(cs@),
                    spec_match_children(rv, csv, text, pos0, fnat) == (match spec_match_children(
                        rv,
                        csv.skip(i as int),
                        text,
                        tok.pos(),
                        fnat,
                    ) {
                        SpecChildrenStep::Matched(k2, e2) => SpecChildrenStep::Matched(
                            results_view(kids@) + k2,
                            e2,
                        ),
                        o => o,
                    }),
                decreases cs@.len() - i,
            {
                let cur = tok.get_state();
                proof {
                    assert(csv.skip(i as int)[0] == cs@[i as int]@);
                    assert(csv.skip(i as int).drop_first() =~= csv.skip(i as int + 1));
                }
                let step = match_expr(rules, &cs[i], tok, fuel - 1);
                proof {
                    lemma_match_spans(rv, cs@[i as int]@, text, cur as int, (fuel - 1) as nat);
                }
                match step {
                    MatchStep::Found(r) => {
                        proof {
                            let sub = spec_match_children(
                                rv,
                                csv.skip(i as int + 1),
                                text,
                                r@.end,
                                fnat,
                            );
                            match sub {
                                SpecChildrenStep::Matched(k2, e2) => {
                                    lemma_results_view_push(kids@, r);
                                    assert(results_view(kids@) + (seq![r@] + k2) =~= results_view(
                                        kids@,
                                    ).push(r@) + k2);
                                },
                                _ => {},
                            }
                        }
                        kids.push(r);
                        i = i + 1;
                    },
                    MatchStep::NoMatch => {
                        tok.pop_state();
                        return MatchStep::NoMatch;
                    },
                    MatchStep::Aborted => {
                        tok.pop_state();
                        return MatchStep::Aborted;
                    },
                }
            }
            proof {
                assert(csv.skip(cs@.len() as int).len() == 0);
                assert(results_view(kids@) + Seq::<SpecResult>::empty() =~= results_view(kids@));
            }
            let end = tok.get_state();
            let node = ParsingResult {
                parsed_string_start: start,
                parsed_string_end: end,
                sub_results: kids,
                selected_choice: None,
                rule_result: None,
            };
            tok.update_state();
            MatchStep::Found(node)
        },
        Expression::Choice(cs) => {
            let ghost csv = exprs_view(cs@);
            let mut i: usize = 0;
            proof {
                assert(csv.skip(0) =~= csv);
            }
            while i < cs.len()
                invariant
                    tok.wf(),
                    tok.text() == text,
                    tok.stack().len() == old(tok).stack().len() + 1,
                    tok.stack().drop_last() == old(tok).stack(),
                    tok.pos() == pos0,
                    0 <= pos0 <= text.len(),
                    0 <= i <= cs@.len(),
                    fuel >= 1,
                    rv == rules_view(rules@),
                    fnat == fuel as nat,
                    csv == exprs_view(cs@),
                    spec_match_alternatives(rv, csv, text, pos0, fnat) == (match
                    spec_match_alternatives(rv, csv.skip(i as int), text, pos0, fnat) {
                        SpecAltStep::Matched(r2, k) => SpecAltStep::Matched(r2, k + i),
                        o => o,
                    }),
                decreases cs@.len() - i,
            {
                proof {
                    assert(csv.skip(i as int)[0] == cs@[i as int]@);
                    assert(csv.skip(i as int).drop_first() =~= csv.skip(i as int + 1));
                }
                match match_expr(rules, &cs[i], tok, fuel - 1) {
                    MatchStep::Found(r) => {
                        let ghost rvv = r@;
                        let end = r.parsed_string_end;
                        let mut kids: Vec<ParsingResult<T>> = Vec::new();
                        kids.push(r);
                        let node = ParsingResult {
                            parsed_string_start: start,
                            parsed_string_end: end,
                            sub_results: kids,
                            selected_choice: Some(i),
                            rule_result: None,
                        };
                        proof {
                            assert(results_view(node.sub_results@) =~= seq![rvv]);
                            assert(node@ =~= SpecResult {
                                start: pos0,
                                end: rvv.end,
                                children: seq![rvv],
                                choice: Some(i as int),
                                has_value: false,
                            });
                        }
                        tok.update_state();
                        return MatchStep::Found(node);
                    },
                    MatchStep::NoMatch => {
                        proof {
                            let sub = spec_match_alternatives(
                                rv,
                                csv.skip(i as int + 1),
                                text,
                                pos0,
                                fnat,
                            );
                            match sub {
                                SpecAltStep::Matched(r2, k) => {},
                                _ => {},
                            }
                        }
                        i = i + 1;
                    },
                    MatchStep::Aborted => {
                        tok.pop_state();
                        return MatchStep::Aborted;
                    },
                }
            }
            proof {
                assert(csv.skip(cs@.len() as int).len() == 0);
            }
            tok.pop_state();
            MatchStep::NoMatch
        },
        Expression::ZeroOrMore(c) => {
            match match_repeat(rules, &**c, tok, fuel) {
                Some(kids) => {
                    let end = tok.get_state();
                    let node = ParsingResult {
                        parsed_string_start: start,
                        parsed_string_end: end,
                        sub_results: kids,
                        selected_choice: None,
                        rule_result: None,
                    };
                    tok.update_state();
                    MatchStep::Found(node)
                },
                None => {
                    tok.pop_state();
                    MatchStep::Aborted
                },
            }
        },
        Expression::OneOrMore(c) => {
            match match_expr(rules, &**c, tok, fuel - 1) {
                MatchStep::Found(r0) => {
                    proof {
                        lemma_match_spans(rv, (**c)@, text, pos0, (fuel - 1) as nat);
                    }
                    if r0.parsed_string_end > start {
                        let ghost r0v = r0@;
                        match match_repeat(rules, &**c, tok, fuel) {
                            Some(kids) => {
                                let end = tok.get_state();
                                let ghost kidsv = results_view(kids@);
                                let mut all: Vec<ParsingResult<T>> = Vec::new();
                                all.push(r0);
                                let mut kids = kids;
                                all.append(&mut kids);
                                proof {
                                    assert(results_view(all@) =~= seq![r0v] + kidsv);
                                }
                                let node = ParsingResult {
                                    parsed_string_start: start,
                                    parsed_string_end: end,
                                    sub_results: all,
                                    selected_choice: None,
                                    rule_result: None,
                                };
                                tok.update_state();
                                MatchStep::Found(node)
                            },
                            None => {
                                tok.pop_state();
                                MatchStep::Aborted
                            },
                        }
                    } else {
                        let ghost r0v = r0@;
                        let end = r0.parsed_string_end;
                        let mut kids: Vec<ParsingResult<T>> = Vec::new();
                        kids.push(r0);
                        let node = ParsingResult {
                            parsed_string_start: start,
                            parsed_string_end: end,
                            sub_results: kids,
                            selected_choice: None,
                            rule_result: None,
                        };
                        proof {
                            assert(results_view(node.sub_results@) =~= seq![r0v]);
                        }
                        tok.update_state();
                        MatchStep::Found(node)
                    }
                },
                MatchStep::NoMatch => {
                    tok.pop_state();
                    MatchStep::NoMatch
                },
                MatchStep::Aborted => {
                    tok.pop_state();
                    MatchStep::Aborted
                },
            }
        },
        Expression::Optional(c) => {
            match match_expr(rules, &**c, tok, fuel - 1) {
                MatchStep::Found(r) => {
                    tok.update_state();
                    MatchStep::Found(r)
                },
                MatchStep::NoMatch => {
                    let z = leaf_result::<T>(start, start);
                    tok.update_state();
                    MatchStep::Found(z)
                },
                MatchStep::Aborted => {
                    tok.pop_state();
                    MatchStep::Aborted
                },
            }
        },
        Expression::AndPredicate(c) => {
            tok.push_state();
            match match_expr(rules, &**c, tok, fuel - 1) {
                MatchStep::Found(_) => {
                    tok.pop_state();
                    let z = leaf_result::<T>(start, start);
                    tok.update_state();
                    MatchStep::Found(z)
                },
                MatchStep::NoMatch => {
                    tok.pop_state();
                    tok.pop_state();
                    MatchStep::NoMatch
                },
                MatchStep::Aborted => {
                    tok.pop_state();
                    tok.pop_state();
                    MatchStep::Aborted
                },
            }
        },
        Expression::NotPredicate(c) => {
            tok.push_state();
            match match_expr(rules, &**c, tok, fuel - 1) {
                MatchStep::Found(_) => {
                    tok.pop_state();
                    tok.pop_state();
                    MatchStep::NoMatch
                },
                MatchStep::NoMatch => {
                    tok.pop_state();
                    let z = leaf_result::<T>(start, start);
                    tok.update_state();
                    MatchStep::Found(z)
                },
                MatchStep::Aborted => {
                    tok.pop_state();
                    tok.pop_state();
                    MatchStep::Aborted
                },
            }
        },
    }
}

/// A registration error: the rule body is malformed, a regex class does not
/// compile, or the rule name is already taken.
#[derive(Clone, Copy, Debug, PartialEq, Eq, Structural)]
pub enum GrammarError {
    /// An alternative or a whole body with no expression in it.
    EmptyExpression,
    /// A postfix `?`, `+` or `*` with no atom before it.
    QuantifierWithoutAtom,
    /// A prefix `&` or `!` with no atom after it.
    PredicateWithoutAtom,
    /// A `(` without its `)`, or the other way round.
    UnmatchedGroup,
    /// A literal or regex class that never closes.
    UnterminatedTerminal,
    /// A regex class the regex engine rejects.
    InvalidRegex,
    /// The rule name is already registered.
    DuplicateRule,
}

/// A list of expressions reduced to one: a single element stands alone, more
/// become a sequence, none is an error.
pub open spec fn spec_reduce(s: Seq<SpecExpr>) -> Option<SpecExpr> {
    if s.len() == 0 {
        None
    } else if s.len() == 1 {
        Some(s[0])
    } else {
        Some(SpecExpr::Sequence(s))
    }
}

/// What the compiler returns at the end of a body or at a `)`: the pending
/// sequence reduced, and wrapped in a choice when alternatives accumulated.
pub open spec fn spec_finish(seqacc: Seq<SpecExpr>, alts: Seq<SpecExpr>) -> Result<
    SpecExpr,
    GrammarError,
> {
    match spec_reduce(seqacc) {
        None => Err(GrammarError::EmptyExpression),
        Some(red) => if alts.len() > 0 {
            Ok(SpecExpr::Choice(alts.push(red)))
        } else {
            Ok(red)
        },
    }
}

/// A predicate node around an atom.
pub open spec fn wrap_predicate(negated: bool, e: SpecExpr) -> SpecExpr {
    if negated {
        SpecExpr::NotPredicate(Box::new(e))
    } else {
        SpecExpr::AndPredicate(Box::new(e))
    }
}

/// The grammar compiler: consume tokens from `i` with the pending sequence
/// `seqacc` and the collected alternatives `alts`, until the end of the
/// tokens or — inside a group — the closing `)`. Returns the compiled
/// expression and the index after it.
pub open spec fn spec_compile_run(
    toks: Seq<SpecToken>,
    i: int,
    seqacc: Seq<SpecExpr>,
    alts: Seq<SpecExpr>,
    in_group: bool,
) -> Result<(SpecExpr, int), GrammarError>
    decreases toks.len() - i, 0int,
{
    if i < 0 || i >= toks.len() {
        if in_group {
            Err(GrammarError::UnmatchedGroup)
        } else {
            match spec_finish(seqacc, alts) {
                Ok(e) => Ok((e, toks.len() as int)),
                Err(er) => Err(er),
            }
        }
    } else {
        match toks[i] {
            SpecToken::Expression(name) => spec_compile_run(
                toks,
                i + 1,
                seqacc.push(SpecExpr::NonTerminal(name)),
                alts,
                in_group,
            ),
            SpecToken::TerminalExpression(s) => spec_compile_run(
                toks,
                i + 1,
                seqacc.push(SpecExpr::TerminalLiteral(s)),
                alts,
                in_group,
            ),
            SpecToken::TerminalRegexExpression(s) => spec_compile_run(
                toks,
                i + 1,
                seqacc.push(SpecExpr::TerminalRegex(s)),
                alts,
                in_group,
            ),
            SpecToken::GroupBegin => match spec_compile_run(
                toks,
                i + 1,
                Seq::empty(),
                Seq::empty(),
                true,
            ) {
                Ok((sub, j)) => if i < j <= toks.len() {
                    spec_compile_run(toks, j, seqacc.push(sub), alts, in_group)
                } else {
                    Err(GrammarError::UnmatchedGroup)
                },
                Err(e) => Err(e),
            },
            SpecToken::GroupEnd => if !in_group {
                Err(GrammarError::UnmatchedGroup)
            } else {
                match spec_finish(seqacc, alts) {
                    Ok(e) => Ok((e, i + 1)),
                    Err(er) => Err(er),
                }
            },
            SpecToken::ZeroOrMore => if seqacc.len() == 0 {
                Err(GrammarError::QuantifierWithoutAtom)
            } else {
                spec_compile_run(
                    toks,
                    i + 1,
                    seqacc.drop_last().push(SpecExpr::ZeroOrMore(Box::new(seqacc.last()))),
                    alts,
                    in_group,
                )
            },
            SpecToken::OneOrMore => if seqacc.len() == 0 {
                Err(GrammarError::QuantifierWithoutAtom)
            } else {
                spec_compile_run(
                    toks,
                    i + 1,
                    seqacc.drop_last().push(SpecExpr::OneOrMore(Box::new(seqacc.last()))),
                    alts,
                    in_group,
                )
            },
            SpecToken::Optional => if seqacc.len() == 0 {
                Err(GrammarError::QuantifierWithoutAtom)
            } else {
                spec_compile_run(
                    toks,
                    i + 1,
                    seqacc.drop_last().push(SpecExpr::Optional(Box::new(seqacc.last()))),
                    alts,
                    in_group,
                )
            },
            SpecToken::Choice => match spec_reduce(seqacc) {
                None => Err(GrammarError::EmptyExpression),
                Some(red) => spec_compile_run(toks, i + 1, Seq::empty(), alts.push(red), in_group),
            },
            SpecToken::AndPredicate | SpecToken::NotPredicate => {
                let neg = toks[i] is NotPredicate;
                if i + 1 >= toks.len() {
                    Err(GrammarError::PredicateWithoutAtom)
                } else {
                    match toks[i + 1] {
                        SpecToken::Expression(name) => spec_compile_run(
                            toks,
                            i + 2,
                            seqacc.push(wrap_predicate(neg, SpecExpr::NonTerminal(name))),
                            alts,
                            in_group,
                        ),
                        SpecToken::TerminalExpression(s) => spec_compile_run(
                            toks,
                            i + 2,
                            seqacc.push(wrap_predicate(neg, SpecExpr::TerminalLiteral(s))),
                            alts,
                            in_group,
                        ),
                        SpecToken::TerminalRegexExpression(s) => spec_compile_run(
                            toks,
                            i + 2,
                            seqacc.push(wrap_predicate(neg, SpecExpr::TerminalRegex(s))),
                            alts,
                            in_group,
                        ),
                        SpecToken::GroupBegin => match spec_compile_run(
                            toks,
                            i + 2,
                            Seq::empty(),
                            Seq::empty(),
                            true,
                        ) {
                            Ok((sub, j)) => if i + 1 < j <= toks.len() {
                                spec_compile_run(
                                    toks,
                                    j,
                                    seqacc.push(wrap_predicate(neg, sub)),
                                    alts,
                                    in_group,
                                )
                            } else {
                                Err(GrammarError::UnmatchedGroup)
                            },
                            Err(e) => Err(e),
                        },
                        _ => Err(GrammarError::PredicateWithoutAtom),
                    }
                }
            },
        }
    }
}

/// A rule body compiled from its text: lexed, then compiled; an unterminated
/// literal or class is rejected first.
pub open spec fn spec_compile_body(body: Seq<char>) -> Result<SpecExpr, GrammarError> {
    if !spec_lex_complete(body) {
        Err(GrammarError::UnterminatedTerminal)
    } else {
        match spec_compile_run(spec_lex(body), 0, Seq::empty(), Seq::empty(), false) {
            Ok((e, _)) => Ok(e),
            Err(er) => Err(er),
        }
    }
}

proof fn lemma_exprs_view_push(s: Seq<Expression>, x: Expression)
    ensures
        exprs_view(s.push(x)) == exprs_view(s).push(x@),
{
    assert(exprs_view(s.push(x)) =~= exprs_view(s).push(x@));
}

proof fn lemma_exprs_view_drop_last(s: Seq<Expression>)
    requires
        s.len() > 0,
    ensures
        exprs_view(s.drop_last()) == exprs_view(s).drop_last(),
        exprs_view(s).last() == s.last()@,
{
    assert(exprs_view(s.drop_last()) =~= exprs_view(s).drop_last());
}

/// A list of expressions reduced to one; see `spec_reduce`.
fn vec_to_expression(mut vec: Vec<Expression>) -> (r: Option<Expression>)
    ensures
        match r {
            Some(e) => spec_reduce(exprs_view(vec@)) == Some(e@),
            None => spec_reduce(exprs_view(vec@)) is None,
        },
{
    let ghost v0 = vec@;
    if vec.len() == 0 {
        None
    } else if vec.len() == 1 {
        let e = vec.pop();
        match e {
            Some(e) => {
                proof {
                    assert(exprs_view(v0)[0] == v0[0]@);
                }
                Some(e)
            },
            None => None,
        }
    } else {
        let e = Expression::Sequence(vec);
        Some(e)
    }
}

/// The pending sequence and the collected alternatives, finished off; see
/// `spec_finish`.
fn finish_expression(sequence: Vec<Expression>, choices: Vec<Expression>) -> (r: Result<
    Expression,
    GrammarError,
>)
    ensures
        match r {
            Ok(e) => spec_finish(exprs_view(sequence@), exprs_view(choices@)) == Ok::<
                SpecExpr,
                GrammarError,
            >(e@),
            Err(er) => spec_finish(exprs_view(sequence@), exprs_view(choices@)) == Err::<
                SpecExpr,
                GrammarError,
            >(er),
        },
{
    let mut choices = choices;
    match vec_to_expression(sequence) {
        None => Err(GrammarError::EmptyExpression),
        Some(red) => {
            if choices.len() > 0 {
                proof {
                    lemma_exprs_view_push(choices@, red);
                }
                choices.push(red);
                Ok(Expression::Choice(choices))
            } else {
                Ok(red)
            }
        },
    }
}

/// Whether every regex-class pattern in the tree compiles; checked when a
/// rule is registered, so that a bad pattern does not surface only at match
/// time as a terminal that never matches.
pub open spec fn spec_regexes_ok(e: SpecExpr) -> bool
    decreases e,
{
    match e {
        SpecExpr::TerminalLiteral(_) => true,
        SpecExpr::TerminalRegex(p) => regex_compiles(p),
        SpecExpr::NonTerminal(_) => true,
        SpecExpr::Sequence(cs) => spec_regexes_ok_list(cs),
        SpecExpr::Choice(cs) => spec_regexes_ok_list(cs),
        SpecExpr::ZeroOrMore(c) => spec_regexes_ok(*c),
        SpecExpr::OneOrMore(c) => spec_regexes_ok(*c),
        SpecExpr::Optional(c) => spec_regexes_ok(*c),
        SpecExpr::AndPredicate(c) => spec_regexes_ok(*c),
        SpecExpr::NotPredicate(c) => spec_regexes_ok(*c),
    }
}

/// Whether every regex-class pattern in each expression of the list compiles.
pub open spec fn spec_regexes_ok_list(cs: Seq<SpecExpr>) -> bool
    decreases cs,
{
    cs.len() == 0 || (spec_regexes_ok(cs[0]) && spec_regexes_ok_list(cs.drop_first()))
}

/// Walk the tree and try to compile every regex-class pattern in it.
fn expression_regexes_ok(e: &Expression) -> (r: bool)
    ensures
        r == spec_regexes_ok(e@),
    decreases e,
{
    match e {
        Expression::TerminalLiteral(_) => true,
        Expression::TerminalRegex(p) => regex_is_valid(p.as_str()),
        Expression::NonTerminal(_) => true,
        Expression::Sequence(cs) => expressions_regexes_ok(cs),
        Expression::Choice(cs) => expressions_regexes_ok(cs),
        Expression::ZeroOrMore(c) => expression_regexes_ok(&**c),
        Expression::OneOrMore(c) => expression_regexes_ok(&**c),
        Expression::Optional(c) => expression_regexes_ok(&**c),
        Expression::AndPredicate(c) => expression_regexes_ok(&**c),
        Expression::NotPredicate(c) => expression_regexes_ok(&**c),
    }
}

fn expressions_regexes_ok(cs: &Vec<Expression>) -> (r: bool)
    ensures
        r == spec_regexes_ok_list(exprs_view(cs@)),
    decreases cs,
{
    let ghost csv = exprs_view(cs@);
    proof {
        assert(csv.skip(0) =~= csv);
    }
    let mut i: usize = 0;
    while i < cs.len()
        invariant
            0 <= i <= cs@.len(),
            csv == exprs_view(cs@),
            spec_regexes_ok_list(csv) == spec_regexes_ok_list(csv.skip(i as int)),
        decreases cs@.len() - i,
    {
        proof {
            assert(csv.skip(i as int)[0] == cs@[i as int]@);
            assert(csv.skip(i as int).drop_first() =~= csv.skip(i as int + 1));
        }
        if !expression_regexes_ok(&cs[i]) {
            return false;
        }
        i = i + 1;
    }
    proof {
        assert(csv.skip(cs@.len() as int).len() == 0);
    }
    true
}

/// A failed `parse` call: no match, trailing input after the match, no
/// callback on the start rule, or an aborted match (an unregistered rule was
/// reached, or the recursion budget ran out).
#[derive(Clone, Copy, Debug, PartialEq, Eq, Structural)]
pub enum ParseError {
    NoResult,
    TrailingInput,
    NoCallback,
    Aborted,
}

/// The recursion budget `validate` and `parse` give the matcher.
pub open spec fn default_budget() -> nat {
    u64::MAX as nat
}

/// What `validate` returns: the start rule, looked up and matched from the
/// beginning of the input, succeeds and consumes the whole input.
pub open spec fn spec_validate(rules: Seq<SpecRule>, start: Seq<char>, code: Seq<char>) -> bool {
    match spec_match_expr(rules, SpecExpr::NonTerminal(start), code, 0, default_budget()) {
        SpecStep::Found(r) => r.end == code.len(),
        _ => false,
    }
}

/// Why `parse` fails, or `None` when it succeeds. A missing callback is
/// reported before trailing input is considered.
pub open spec fn spec_parse_status(
    rules: Seq<SpecRule>,
    start: Seq<char>,
    code: Seq<char>,
) -> Option<ParseError> {
    match spec_match_expr(rules, SpecExpr::NonTerminal(start), code, 0, default_budget()) {
        SpecStep::Found(r) => if !r.has_value {
            Some(ParseError::NoCallback)
        } else if r.end != code.len() {
            Some(ParseError::TrailingInput)
        } else {
            None
        },
        SpecStep::NoMatch => Some(ParseError::NoResult),
        SpecStep::Aborted => Some(ParseError::Aborted),
    }
}

/// What registering a compiled rule does: compile errors are reported first,
/// then a duplicate name, then a regex class that does not compile; otherwise
/// the rule is appended.
pub open spec fn spec_add_rule(
    rules: Seq<SpecRule>,
    name: Seq<char>,
    expr: SpecExpr,
    has_callback: bool,
) -> Result<Seq<SpecRule>, GrammarError> {
    if spec_lookup(rules, name) is Some {
        Err(GrammarError::DuplicateRule)
    } else if !spec_regexes_ok(expr) {
        Err(GrammarError::InvalidRegex)
    } else {
        Ok(rules.push(SpecRule { name, expr, has_callback }))
    }
}

/// What registering a rule from its body text does.
pub open spec fn spec_add_rule_str(
    rules: Seq<SpecRule>,
    name: Seq<char>,
    body: Seq<char>,
    has_callback: bool,
) -> Result<Seq<SpecRule>, GrammarError> {
    match spec_compile_body(body) {
        Err(e) => Err(e),
        Ok(expr) => spec_add_rule(rules, name, expr, has_callback),
    }
}

/// Each registered rule as `name -> body`, one per line.
pub open spec fn spec_dump_rules(rules: Seq<SpecRule>) -> Seq<char>
    decreases rules,
{
    if rules.len() == 0 {
        Seq::empty()
    } else if rules.len() == 1 {
        spec_dump_rule(rules[0])
    } else {
        spec_dump_rule(rules[0]) + seq!['\n'] + spec_dump_rules(rules.drop_first())
    }
}

/// One rule as `name -> body`, the body in the expression's canonical form.
pub open spec fn spec_dump_rule(r: SpecRule) -> Seq<char> {
    r.name + seq![' ', '-', '>', ' '] + spec_dump(r.expr)
}

proof fn lemma_dump_rules_push(rules: Seq<SpecRule>, x: SpecRule)
    ensures
        spec_dump_rules(rules.push(x)) == if rules.len() == 0 {
            spec_dump_rule(x)
        } else {
            spec_dump_rules(rules) + seq!['\n'] + spec_dump_rule(x)
        },
    decreases rules.len(),
{
    if rules.len() == 0 {
        assert(rules.push(x) =~= seq![x]);
    } else {
        lemma_dump_rules_push(rules.drop_first(), x);
        assert(rules.push(x).drop_first() =~= rules.drop_first().push(x));
        if rules.len() == 1 {
            assert(rules.drop_first().len() == 0);
        } else {
            assert(spec_dump_rules(rules) + seq!['\n'] + spec_dump_rule(x) =~= spec_dump_rule(
                rules[0],
            ) + seq!['\n'] + (spec_dump_rules(rules.drop_first()) + seq!['\n'] + spec_dump_rule(
                x,
            )));
        }
    }
}

proof fn lemma_rules_view_push<A>(s: Seq<Rule<A>>, x: Rule<A>)
    ensures
        rules_view(s.push(x)) == rules_view(s).push(x@),
{
    assert(rules_view(s.push(x)) =~= rules_view(s).push(x@));
}

proof fn lemma_lookup_none(rules: Seq<SpecRule>, name: Seq<char>)
    ensures
        spec_lookup(rules, name) is None <==> (forall|i: int|
            0 <= i < rules.len() ==> #[trigger] rules[i].name != name),
    decreases rules.len(),
{
    if rules.len() > 0 {
        lemma_lookup_none(rules.drop_first(), name);
        assert(forall|i: int|
            1 <= i < rules.len() ==> #[trigger] rules[i].name == rules.drop_first()[i - 1].name);
    }
}

/// The rule registry and the `validate` / `parse` entry points. `T` is the
/// type the semantic actions compute; `A` the host's action type.
pub struct Parser<T, A> {
    rules: Vec<Rule<A>>,
    marker: PhantomData<T>,
}

impl<T, A> View for Parser<T, A> {
    type V = Seq<SpecRule>;

    closed spec fn view(&self) -> Seq<SpecRule> {
        rules_view(self.rules@)
    }
}

impl<T, A: SemanticAction<T>> Parser<T, A> {
    /// Registered rule names are unique.
    pub open spec fn wf(&self) -> bool {
        forall|i: int, j: int|
            0 <= i < j < self@.len() ==> #[trigger] self@[i].name != #[trigger] self@[j].name
    }

    pub fn new() -> (r: Parser<T, A>)
        ensures
            r@ == Seq::<SpecRule>::empty(),
            r.wf(),
    {
        let r = Parser { rules: Vec::new(), marker: PhantomData };
        proof {
            assert(r@ =~= Seq::<SpecRule>::empty());
        }
        r
    }

    /// Register a rule under a fresh name. Rejected with `DuplicateRule` when
    /// the name is taken, and with `InvalidRegex` when a regex class in the
    /// expression does not compile; the registry is unchanged on an error.
    pub fn add_rule(
        &mut self,
        left_side: &str,
        right_side: Expression,
        callback: Option<A>,
    ) -> (r: Result<(), GrammarError>)
        requires
            old(self).wf(),
        ensures
            final(self).wf(),
            match spec_add_rule(old(self)@, left_side@, right_side@, callback is Some) {
                Ok(rules) => r is Ok && final(self)@ == rules,
                Err(e) => r == Err::<(), GrammarError>(e) && final(self)@ == old(self)@,
            },
    {
        let name = String::from_str(left_side);
        if find_rule(&self.rules, &name).is_some() {
            return Err(GrammarError::DuplicateRule);
        }
        if !expression_regexes_ok(&right_side) {
            return Err(GrammarError::InvalidRegex);
        }
        let ghost old_rules = self@;
        let rule = Rule { name, expression: right_side, callback };
        proof {
            lemma_rules_view_push(self.rules@, rule);
            lemma_lookup_none(old_rules, left_side@);
        }
        self.rules.push(rule);
        proof {
            assert forall|i: int, j: int| 0 <= i < j < self@.len() implies #[trigger] self@[i].name
                != #[trigger] self@[j].name by {
                if j < self@.len() - 1 {
                    assert(old_rules[i].name != old_rules[j].name);
                }
            }
        }
        Ok(())
    }

    /// Lex and compile `right_side`, then register it; see `add_rule` for the
    /// registration errors, which follow any compilation error.
    pub fn add_rule_str(
        &mut self,
        left_side: &str,
        right_side: &str,
        callback: Option<A>,
    ) -> (r: Result<(), GrammarError>)
        requires
            old(self).wf(),
        ensures
            final(self).wf(),
            match spec_add_rule_str(old(self)@, left_side@, right_side@, callback is Some) {
                Ok(rules) => r is Ok && final(self)@ == rules,
                Err(e) => r == Err::<(), GrammarError>(e) && final(self)@ == old(self)@,
            },
    {
        let mut tokenizer = ExpressionTokenizer::new(right_side);
        if !tokenizer.is_complete() {
            return Err(GrammarError::UnterminatedTerminal);
        }
        match Self::parse_rule(&mut tokenizer, false) {
            Err(e) => Err(e),
            Ok(expression) => self.add_rule(left_side, expression, callback),
        }
    }

    /// Build a cursor over `code` and match the start rule; true iff the
    /// match succeeds and consumes the whole input. The speculative stack is
    /// fully unwound when the match returns: that is proved, not asserted.
    pub fn validate(&self, start_non_terminal: &str, code: &str) -> (r: bool)
        ensures
            r == spec_validate(self@, start_non_terminal@, code@),
    {
        let mut tokenizer = CodeTokenizer::new(code);
        let expression = Expression::NonTerminal(String::from_str(start_non_terminal));
        let step = match_expr(&self.rules, &expression, &mut tokenizer, u64::MAX);
        proof {
            assert(tokenizer.stack().len() == 1);
        }
        match step {
            MatchStep::Found(_) => tokenizer.is_empty(),
            MatchStep::NoMatch => false,
            MatchStep::Aborted => false,
        }
    }

    /// As `validate`, but return the start rule's callback value. Fails with
    /// `NoResult` when nothing matched, `NoCallback` when the start rule has
    /// no callback, `TrailingInput` when input remains after the match, and
    /// `Aborted` when the match aborted.
    pub fn parse(&self, start_non_terminal: &str, code: &str) -> (r: Result<T, ParseError>)
        ensures
            r is Ok <==> spec_parse_status(self@, start_non_terminal@, code@) is None,
            r matches Err(e) ==> Some(e) == spec_parse_status(self@, start_non_terminal@, code@),
    {
        let mut tokenizer = CodeTokenizer::new(code);
        let expression = Expression::NonTerminal(String::from_str(start_non_terminal));
        let step = match_expr(&self.rules, &expression, &mut tokenizer, u64::MAX);
        proof {
            assert(tokenizer.stack().len() == 1);
        }
        match step {
            MatchStep::NoMatch => Err(ParseError::NoResult),
            MatchStep::Aborted => Err(ParseError::Aborted),
            MatchStep::Found(res) => match res.rule_result {
                None => Err(ParseError::NoCallback),
                Some(value) => {
                    if !tokenizer.is_empty() {
                        Err(ParseError::TrailingInput)
                    } else {
                        Ok(value)
                    }
                },
            },
        }
    }

    /// Match `expression` against a cursor the caller owns, spending at most
    /// `budget` units of recursion. The cursor's stack comes back at its
    /// entry depth with everything below the top untouched; on `Found` the
    /// cursor stands at the result's span end, otherwise where it started.
    pub fn matches(
        &self,
        expression: &Expression,
        tokenizer: &mut CodeTokenizer,
        budget: u64,
    ) -> (r: MatchStep<T>)
        requires
            old(tokenizer).wf(),
        ensures
            final(tokenizer).wf(),
            final(tokenizer).text() == old(tokenizer).text(),
            final(tokenizer).stack().len() == old(tokenizer).stack().len(),
            final(tokenizer).stack().drop_last() == old(tokenizer).stack().drop_last(),
            r@ == spec_match_expr(
                self@,
                expression@,
                old(tokenizer).text(),
                old(tokenizer).pos(),
                budget as nat,
            ),
            r matches MatchStep::Found(res) ==> res@.start == old(tokenizer).pos()
                && final(tokenizer).pos() == res@.end
                && old(tokenizer).pos() <= res@.end <= old(tokenizer).text().len(),
            !(r matches MatchStep::Found(..)) ==> final(tokenizer).stack() == old(tokenizer).stack(),
    {
        proof {
            lemma_match_spans(
                self@,
                expression@,
                old(tokenizer).text(),
                old(tokenizer).pos(),
                budget as nat,
            );
        }
        match_expr(&self.rules, expression, tokenizer, budget)
    }

    /// Render every registered rule as `name -> body`, one rule per line, the
    /// body in the expression's canonical dump form.
    pub fn dump(&self) -> (r: String)
        ensures
            r@ == spec_dump_rules(self@),
    {
        let mut r = String::new();
        let mut i: usize = 0;
        proof {
            assert(self@.take(0) =~= Seq::<SpecRule>::empty());
        }
        while i < self.rules.len()
            invariant
                0 <= i <= self.rules@.len(),
                self@ == rules_view(self.rules@),
                self@.len() == self.rules@.len(),
                r@ == spec_dump_rules(self@.take(i as int)),
            decreases self.rules@.len() - i,
        {
            if i > 0 {
                r.push('\n');
            }
            let rule = &self.rules[i];
            r.append(rule.name.as_str());
            r.append(" -> ");
            let d = rule.expression.dump();
            r.append(d.as_str());
            proof {
                reveal_strlit(" -> ");
                assert(" -> "@ =~= seq![' ', '-', '>', ' ']);
                assert(self@[i as int] == self.rules@[i as int]@);
                assert(self@.take(i as int).push(self@[i as int]) =~= self@.take(i as int + 1));
                lemma_dump_rules_push(self@.take(i as int), self@[i as int]);
                assert(r@ == spec_dump_rules(self@.take(i as int + 1)));
            }
            i = i + 1;
        }
        proof {
            assert(self@.take(self@.len() as int) =~= self@);
        }
        r
    }

    /// The recursive-descent grammar compiler over the token stream; see
    /// `spec_compile_run`. `in_group` says whether a `)` is expected.
    #[verifier::loop_isolation(false)]
    fn parse_rule(tokenizer: &mut ExpressionTokenizer, in_group: bool) -> (r: Result<
        Expression,
        GrammarError,
    >)
        requires
            0 <= old(tokenizer).spec_current() <= old(tokenizer).spec_tokens().len(),
        ensures
            final(tokenizer).spec_tokens() == old(tokenizer).spec_tokens(),
            final(tokenizer).spec_complete() == old(tokenizer).spec_complete(),
            old(tokenizer).spec_current() <= final(tokenizer).spec_current()
                <= final(tokenizer).spec_tokens().len(),
            match r {
                Ok(e) => spec_compile_run(
                    old(tokenizer).spec_tokens(),
                    old(tokenizer).spec_current(),
                    Seq::empty(),
                    Seq::empty(),
                    in_group,
                ) == Ok::<(SpecExpr, int), GrammarError>((e@, final(tokenizer).spec_current())),
                Err(er) => spec_compile_run(
                    old(tokenizer).spec_tokens(),
                    old(tokenizer).spec_current(),
                    Seq::empty(),
                    Seq::empty(),
                    in_group,
                ) == Err::<(SpecExpr, int), GrammarError>(er),
            },
        decreases old(tokenizer).spec_tokens().len() - old(tokenizer).spec_current(),
    {
        let ghost toks = old(tokenizer).spec_tokens();
        let ghost cur0 = old(tokenizer).spec_current();
        let mut sequence: Vec<Expression> = Vec::new();
        let mut choices: Vec<Expression> = Vec::new();
        proof {
            assert(exprs_view(sequence@) =~= Seq::<SpecExpr>::empty());
            assert(exprs_view(choices@) =~= Seq::<SpecExpr>::empty());
        }
        let mut done = false;
        while !done
            invariant
                tokenizer.spec_tokens() == toks,
                tokenizer.spec_complete() == old(tokenizer).spec_complete(),
                cur0 <= tokenizer.spec_current() <= toks.len(),
                done ==> tokenizer.spec_current() == toks.len(),
                spec_compile_run(toks, cur0, Seq::empty(), Seq::empty(), in_group)
                    == spec_compile_run(
                    toks,
                    tokenizer.spec_current(),
                    exprs_view(sequence@),
                    exprs_view(choices@),
                    in_group,
                ),
            decreases toks.len() - tokenizer.spec_current() + (if done {
                0int
            } else {
                1int
            }),
        {
            let ghost cur = tokenizer.spec_current();
            match tokenizer.next_token() {
                None => {
                    done = true;
                },
                Some(token) => {
                    match token {
                        ExpressionToken::Expression(name) => {
                            let ne = Expression::NonTerminal(name);
                            proof {
                                lemma_exprs_view_push(sequence@, ne);
                                assert(spec_compile_run(
                                    toks,
                                    cur,
                                    exprs_view(sequence@),
                                    exprs_view(choices@),
                                    in_group,
                                ) == spec_compile_run(
                                    toks,
                                    cur + 1,
                                    exprs_view(sequence@).push(ne@),
                                    exprs_view(choices@),
                                    in_group,
                                ));
                            }
                            sequence.push(ne);
                        },
                        ExpressionToken::TerminalExpression(s) => {
                            proof {
                                lemma_exprs_view_push(sequence@, Expression::TerminalLiteral(s));
                            }
                            sequence.push(Expression::TerminalLiteral(s));
                        },
                        ExpressionToken::TerminalRegexExpression(s) => {
                            proof {
                                lemma_exprs_view_push(sequence@, Expression::TerminalRegex(s));
                            }
                            sequence.push(Expression::TerminalRegex(s));
                        },
                        ExpressionToken::GroupBegin => {
                            match Self::parse_rule(tokenizer, true) {
                                Err(e) => {
                                    return Err(e);
                                },
                                Ok(sub) => {
                                    proof {
                                        lemma_exprs_view_push(sequence@, sub);
                                        assert(cur < tokenizer.spec_current() <= toks.len());
                                        assert(spec_compile_run(
                                            toks,
                                            cur,
                                            exprs_view(sequence@),
                                            exprs_view(choices@),
                                            in_group,
                                        ) == spec_compile_run(
                                            toks,
                                            tokenizer.spec_current(),
                                            exprs_view(sequence@).push(sub@),
                                            exprs_view(choices@),
                                            in_group,
                                        ));
                                    }
                                    sequence.push(sub);
                                },
                            }
                        },
                        ExpressionToken::GroupEnd => {
                            if !in_group {
                                return Err(GrammarError::UnmatchedGroup);
                            }
                            return match finish_expression(sequence, choices) {
                                Ok(e) => Ok(e),
                                Err(er) => Err(er),
                            };
                        },
                        ExpressionToken::ZeroOrMore => {
                            let ghost seqv_old = exprs_view(sequence@);
                            proof {
                                if sequence@.len() > 0 {
                                    lemma_exprs_view_drop_last(sequence@);
                                }
                            }
                            match sequence.pop() {
                                None => {
                                    return Err(GrammarError::QuantifierWithoutAtom);
                                },
                                Some(child) => {
                                    let wrapped = Expression::ZeroOrMore(Box::new(child));
                                    proof {
                                        lemma_exprs_view_push(sequence@, wrapped);
                                        assert(exprs_view(sequence@).push(wrapped@) == seqv_old
                                            .drop_last().push(
                                            SpecExpr::ZeroOrMore(Box::new(seqv_old.last())),
                                        ));
                                        assert(spec_compile_run(
                                            toks,
                                            cur,
                                            seqv_old,
                                            exprs_view(choices@),
                                            in_group,
                                        ) == spec_compile_run(
                                            toks,
                                            cur + 1,
                                            exprs_view(sequence@).push(wrapped@),
                                            exprs_view(choices@),
                                            in_group,
                                        ));
                                    }
                                    sequence.push(wrapped);
                                },
                            }
                        },
                        ExpressionToken::OneOrMore => {
                            let ghost seqv_old = exprs_view(sequence@);
                            proof {
                                if sequence@.len() > 0 {
                                    lemma_exprs_view_drop_last(sequence@);
                                }
                            }
                            match sequence.pop() {
                                None => {
                                    return Err(GrammarError::QuantifierWithoutAtom);
                                },
                                Some(child) => {
                                    let wrapped = Expression::OneOrMore(Box::new(child));
                                    proof {
                                        lemma_exprs_view_push(sequence@, wrapped);
                                        assert(exprs_view(sequence@).push(wrapped@) == seqv_old
                                            .drop_last().push(
                                            SpecExpr::OneOrMore(Box::new(seqv_old.last())),
                                        ));
                                        assert(spec_compile_run(
                                            toks,
                                            cur,
                                            seqv_old,
                                            exprs_view(choices@),
                                            in_group,
                                        ) == spec_compile_run(
                                            toks,
                                            cur + 1,
                                            exprs_view(sequence@).push(wrapped@),
                                            exprs_view(choices@),
                                            in_group,
                                        ));
                                    }
                                    sequence.push(wrapped);
                                },
                            }
                        },
                        ExpressionToken::Optional => {
                            let ghost seqv_old = exprs_view(sequence@);
                            proof {
                                if sequence@.len() > 0 {
                                    lemma_exprs_view_drop_last(sequence@);
                                }
                            }
                            match sequence.pop() {
                                None => {
                                    return Err(GrammarError::QuantifierWithoutAtom);
                                },
                                Some(child) => {
                                    let wrapped = Expression::Optional(Box::new(child));
                                    proof {
                                        lemma_exprs_view_push(sequence@, wrapped);
                                        assert(exprs_view(sequence@).push(wrapped@) == seqv_old
                                            .drop_last().push(
                                            SpecExpr::Optional(Box::new(seqv_old.last())),
                                        ));
                                        assert(spec_compile_run(
                                            toks,
                                            cur,
                                            seqv_old,
                                            exprs_view(choices@),
                                            in_group,
                                        ) == spec_compile_run(
                                            toks,
                                            cur + 1,
                                            exprs_view(sequence@).push(wrapped@),
                                            exprs_view(choices@),
                                            in_group,
                                        ));
                                    }
                                    sequence.push(wrapped);
                                },
                            }
                        },
                        ExpressionToken::Choice => {
                            let ghost seqv_old = exprs_view(sequence@);
                            let ghost altsv_old = exprs_view(choices@);
                            let finished = sequence;
                            sequence = Vec::new();
                            proof {
                                assert(exprs_view(sequence@) =~= Seq::<SpecExpr>::empty());
                            }
                            match vec_to_expression(finished) {
                                None => {
                                    return Err(GrammarError::EmptyExpression);
                                },
                                Some(red) => {
                                    proof {
                                        lemma_exprs_view_push(choices@, red);
                                        assert(spec_compile_run(
                                            toks,
                                            cur,
                                            seqv_old,
                                            altsv_old,
                                            in_group,
                                        ) == spec_compile_run(
                                            toks,
                                            cur + 1,
                                            Seq::empty(),
                                            altsv_old.push(red@),
                                            in_group,
                                        ));
                                    }
                                    choices.push(red);
                                },
                            }
                        },
                        ExpressionToken::AndPredicate | ExpressionToken::NotPredicate => {
                            let negated = matches!(token, ExpressionToken::NotPredicate);
                            let atom: Expression = match tokenizer.next_token() {
                                None => {
                                    return Err(GrammarError::PredicateWithoutAtom);
                                },
                                Some(t2) => match t2 {
                                    ExpressionToken::Expression(name) => Expression::NonTerminal(
                                        name,
                                    ),
                                    ExpressionToken::TerminalExpression(s) => {
                                        Expression::TerminalLiteral(s)
                                    },
                                    ExpressionToken::TerminalRegexExpression(s) => {
                                        Expression::TerminalRegex(s)
                                    },
                                    ExpressionToken::GroupBegin => {
                                        match Self::parse_rule(tokenizer, true) {
                                            Err(e) => {
                                                return Err(e);
                                            },
                                            Ok(sub) => sub,
                                        }
                                    },
                                    _ => {
                                        return Err(GrammarError::PredicateWithoutAtom);
                                    },
                                },
                            };
                            let wrapped = if negated {
                                Expression::NotPredicate(Box::new(atom))
                            } else {
                                Expression::AndPredicate(Box::new(atom))
                            };
                            proof {
                                lemma_exprs_view_push(sequence@, wrapped);
                                assert(wrapped@ == wrap_predicate(negated, atom@));
                                assert(spec_compile_run(
                                    toks,
                                    cur,
                                    exprs_view(sequence@),
                                    exprs_view(choices@),
                                    in_group,
                                ) == spec_compile_run(
                                    toks,
                                    tokenizer.spec_current(),
                                    exprs_view(sequence@).push(wrapped@),
                                    exprs_view(choices@),
                                    in_group,
                                ));
                            }
                            sequence.push(wrapped);
                        },
                    }
                },
            }
        }
        if in_group {
            return Err(GrammarError::UnmatchedGroup);
        }
        match finish_expression(sequence, choices) {
            Ok(e) => Ok(e),
            Err(er) => Err(er),
        }
    }
}

/// Law: matching is a function of the registered grammar, the start rule and
/// the input alone. Two parsers whose registered grammars are equal — one
/// built programmatically, one from rule strings, say — validate every input
/// identically; this is meaningful because `validate` returns exactly
/// `spec_validate` of the parser's registry.
pub proof fn lemma_validate_same_grammar(
    rules1: Seq<SpecRule>,
    rules2: Seq<SpecRule>,
    start: Seq<char>,
    code: Seq<char>,
)
    requires
        rules1 == rules2,
    ensures
        spec_validate(rules1, start, code) == spec_validate(rules2, start, code),
{
}

} // verus!
