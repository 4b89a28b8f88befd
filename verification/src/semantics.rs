//! The spec-level semantics of matching: what the matcher computes, as pure
//! functions over character sequences.
//!
//! Matching consumes a recursion budget (`fuel`): every descent into a child
//! or a named rule costs one unit, and a repetition stops when its child
//! matches without consuming input. A grammar whose recursion never consumes
//! input (left recursion, for instance) exhausts the budget and the whole
//! match is reported as `Aborted`, as is a reference to an unregistered rule.

use vstd::prelude::*;
use crate::code_tokenizer::{
    spec_match_literal,
    spec_match_regex,
    lemma_match_literal_bounds,
    lemma_match_regex_bounds,
};
use crate::expression::SpecExpr;

verus! {

/// The spec-level form of a match result: the matched span, the results of
/// the sub-expressions, the index of the alternative taken by a choice, and
/// whether a rule callback produced a value.
#[verifier::ext_equal]
pub struct SpecResult {
    pub start: int,
    pub end: int,
    pub children: Seq<SpecResult>,
    pub choice: Option<int>,
    pub has_value: bool,
}

/// A registered rule as the matcher sees it.
#[verifier::ext_equal]
pub struct SpecRule {
    pub name: Seq<char>,
    pub expr: SpecExpr,
    pub has_callback: bool,
}

/// The outcome of matching one expression.
pub enum SpecStep {
    Found(SpecResult),
    NoMatch,
    Aborted,
}

/// The outcome of matching the children of a sequence in order.
pub enum SpecChildrenStep {
    Matched(Seq<SpecResult>, int),
    Failed,
    Aborted,
}

/// The outcome of trying the alternatives of a choice in order.
pub enum SpecAltStep {
    Matched(SpecResult, int),
    Failed,
    Aborted,
}

/// The outcome of repeating a child greedily.
pub enum SpecStarStep {
    Matched(Seq<SpecResult>, int),
    Aborted,
}

/// The first registered rule of the given name.
pub open spec fn spec_lookup(rules: Seq<SpecRule>, name: Seq<char>) -> Option<SpecRule>
    decreases rules,
{
    if rules.len() == 0 {
        None
    } else if rules[0].name == name {
        Some(rules[0])
    } else {
        spec_lookup(rules.drop_first(), name)
    }
}

/// A successful match that consumed nothing.
pub open spec fn zero_width(pos: int) -> SpecResult {
    SpecResult { start: pos, end: pos, children: Seq::empty(), choice: None, has_value: false }
}

/// The input remaining after `pos`, clamped at zero; a termination measure.
pub open spec fn rem(text: Seq<char>, pos: int) -> int {
    if pos <= text.len() {
        text.len() - pos
    } else {
        0
    }
}

/// Match `e` at `pos`. On `Found(r)`, `r.start == pos` and the cursor stands
/// at `r.end`; on `NoMatch` the cursor stands where it was.
pub open spec fn spec_match_expr(
    rules: Seq<SpecRule>,
    e: SpecExpr,
    text: Seq<char>,
    pos: int,
    fuel: nat,
) -> SpecStep
    decreases fuel, rem(text, pos), 2int, 0int,
{
    if fuel == 0 {
        SpecStep::Aborted
    } else {
        let f = (fuel - 1) as nat;
        match e {
            SpecExpr::TerminalLiteral(s) => match spec_match_literal(text, pos, s) {
                Some(p) => SpecStep::Found(
                    SpecResult {
                        start: pos,
                        end: p,
                        children: Seq::empty(),
                        choice: None,
                        has_value: false,
                    },
                ),
                None => SpecStep::NoMatch,
            },
            SpecExpr::TerminalRegex(p) => match spec_match_regex(text, pos, p) {
                Some(q) => SpecStep::Found(
                    SpecResult {
                        start: pos,
                        end: q,
                        children: Seq::empty(),
                        choice: None,
                        has_value: false,
                    },
                ),
                None => SpecStep::NoMatch,
            },
            SpecExpr::NonTerminal(name) => match spec_lookup(rules, name) {
                None => SpecStep::Aborted,
                Some(rule) => match spec_match_expr(rules, rule.expr, text, pos, f) {
                    SpecStep::Found(r) => SpecStep::Found(
                        SpecResult {
                            start: r.start,
                            end: r.end,
                            children: seq![r],
                            choice: None,
                            has_value: rule.has_callback,
                        },
                    ),
                    o => o,
                },
            },
            SpecExpr::Sequence(cs) => match spec_match_children(rules, cs, text, pos, fuel) {
                SpecChildrenStep::Matched(kids, end) => SpecStep::Found(
                    SpecResult { start: pos, end, children: kids, choice: None, has_value: false },
                ),
                SpecChildrenStep::Failed => SpecStep::NoMatch,
                SpecChildrenStep::Aborted => SpecStep::Aborted,
            },
            SpecExpr::Choice(cs) => match spec_match_alternatives(rules, cs, text, pos, fuel) {
                SpecAltStep::Matched(r, i) => SpecStep::Found(
                    SpecResult {
                        start: pos,
                        end: r.end,
                        children: seq![r],
                        choice: Some(i),
                        has_value: false,
                    },
                ),
                SpecAltStep::Failed => SpecStep::NoMatch,
                SpecAltStep::Aborted => SpecStep::Aborted,
            },
            SpecExpr::ZeroOrMore(c) => match spec_match_repeat(rules, *c, text, pos, fuel) {
                SpecStarStep::Matched(kids, end) => SpecStep::Found(
                    SpecResult { start: pos, end, children: kids, choice: None, has_value: false },
                ),
                SpecStarStep::Aborted => SpecStep::Aborted,
            },
            SpecExpr::OneOrMore(c) => match spec_match_expr(rules, *c, text, pos, f) {
                SpecStep::Found(r0) => if pos < r0.end && r0.end <= text.len() {
                    match spec_match_repeat(rules, *c, text, r0.end, fuel) {
                        SpecStarStep::Matched(kids, end) => SpecStep::Found(
                            SpecResult {
                                start: pos,
                                end,
                                children: seq![r0] + kids,
                                choice: None,
                                has_value: false,
                            },
                        ),
                        SpecStarStep::Aborted => SpecStep::Aborted,
                    }
                } else {
                    SpecStep::Found(
                        SpecResult {
                            start: pos,
                            end: r0.end,
                            children: seq![r0],
                            choice: None,
                            has_value: false,
                        },
                    )
                },
                o => o,
            },
            SpecExpr::Optional(c) => match spec_match_expr(rules, *c, text, pos, f) {
                SpecStep::Found(r) => SpecStep::Found(r),
                SpecStep::NoMatch => SpecStep::Found(zero_width(pos)),
                SpecStep::Aborted => SpecStep::Aborted,
            },
            SpecExpr::AndPredicate(c) => match spec_match_expr(rules, *c, text, pos, f) {
                SpecStep::Found(_) => SpecStep::Found(zero_width(pos)),
                SpecStep::NoMatch => SpecStep::NoMatch,
                SpecStep::Aborted => SpecStep::Aborted,
            },
            SpecExpr::NotPredicate(c) => match spec_match_expr(rules, *c, text, pos, f) {
                SpecStep::Found(_) => SpecStep::NoMatch,
                SpecStep::NoMatch => SpecStep::Found(zero_width(pos)),
                SpecStep::Aborted => SpecStep::Aborted,
            },
        }
    }
}

/// Match the children of a sequence in order, each starting where the
/// previous one ended.
pub open spec fn spec_match_children(
    rules: Seq<SpecRule>,
    cs: Seq<SpecExpr>,
    text: Seq<char>,
    pos: int,
    fuel: nat,
) -> SpecChildrenStep
    decreases fuel, rem(text, pos), 1int, cs.len(),
{
    if fuel == 0 {
        SpecChildrenStep::Aborted
    } else if cs.len() == 0 {
        SpecChildrenStep::Matched(Seq::empty(), pos)
    } else {
        match spec_match_expr(rules, cs[0], text, pos, (fuel - 1) as nat) {
            SpecStep::Found(r) => if pos <= r.end <= text.len() {
                match spec_match_children(rules, cs.drop_first(), text, r.end, fuel) {
                    SpecChildrenStep::Matched(kids, end) => SpecChildrenStep::Matched(
                        seq![r] + kids,
                        end,
                    ),
                    o => o,
                }
            } else {
                SpecChildrenStep::Aborted
            },
            SpecStep::NoMatch => SpecChildrenStep::Failed,
            SpecStep::Aborted => SpecChildrenStep::Aborted,
        }
    }
}

/// Try the alternatives of a choice in order; the first success wins and its
/// index is recorded.
pub open spec fn spec_match_alternatives(
    rules: Seq<SpecRule>,
    cs: Seq<SpecExpr>,
    text: Seq<char>,
    pos: int,
    fuel: nat,
) -> SpecAltStep
    decreases fuel, rem(text, pos), 1int, cs.len(),
{
    if fuel == 0 {
        SpecAltStep::Aborted
    } else if cs.len() == 0 {
        SpecAltStep::Failed
    } else {
        match spec_match_expr(rules, cs[0], text, pos, (fuel - 1) as nat) {
            SpecStep::Found(r) => SpecAltStep::Matched(r, 0),
            SpecStep::NoMatch => match spec_match_alternatives(
                rules,
                cs.drop_first(),
                text,
                pos,
                fuel,
            ) {
                SpecAltStep::Matched(r, i) => SpecAltStep::Matched(r, i + 1),
                o => o,
            },
            SpecStep::Aborted => SpecAltStep::Aborted,
        }
    }
}

/// Repeat a child greedily, collecting one result per iteration. The loop
/// ends at the first failure, or when the child matches without consuming
/// input (which would otherwise repeat forever).
pub open spec fn spec_match_repeat(
    rules: Seq<SpecRule>,
    c: SpecExpr,
    text: Seq<char>,
    pos: int,
    fuel: nat,
) -> SpecStarStep
    decreases fuel, rem(text, pos), 1int, 0int,
{
    if fuel == 0 {
        SpecStarStep::Aborted
    } else {
        match spec_match_expr(rules, c, text, pos, (fuel - 1) as nat) {
            SpecStep::Found(r) => if pos < r.end && r.end <= text.len() {
                match spec_match_repeat(rules, c, text, r.end, fuel) {
                    SpecStarStep::Matched(kids, end) => SpecStarStep::Matched(seq![r] + kids, end),
                    SpecStarStep::Aborted => SpecStarStep::Aborted,
                }
            } else {
                SpecStarStep::Matched(Seq::empty(), pos)
            },
            SpecStep::NoMatch => SpecStarStep::Matched(Seq::empty(), pos),
            SpecStep::Aborted => SpecStarStep::Aborted,
        }
    }
}

/// Law: a successful match starts exactly at the position it was attempted
/// at and ends no earlier than it started and no later than the end of the
/// input.
pub proof fn lemma_match_spans(
    rules: Seq<SpecRule>,
    e: SpecExpr,
    text: Seq<char>,
    pos: int,
    fuel: nat,
)
    requires
        0 <= pos <= text.len(),
    ensures
        spec_match_expr(rules, e, text, pos, fuel) matches SpecStep::Found(r) ==> r.start == pos
            && pos <= r.end <= text.len(),
    decreases fuel, rem(text, pos), 2int, 0int,
{
    if fuel > 0 {
        let f = (fuel - 1) as nat;
        match e {
            SpecExpr::TerminalLiteral(s) => {
                lemma_match_literal_bounds(text, pos, s);
            },
            SpecExpr::TerminalRegex(p) => {
                lemma_match_regex_bounds(text, pos, p);
            },
            SpecExpr::NonTerminal(name) => {
                match spec_lookup(rules, name) {
                    Some(rule) => {
                        lemma_match_spans(rules, rule.expr, text, pos, f);
                    },
                    None => {},
                }
            },
            SpecExpr::Sequence(cs) => {
                lemma_children_spans(rules, cs, text, pos, fuel);
            },
            SpecExpr::Choice(cs) => {
                lemma_alternatives_spans(rules, cs, text, pos, fuel);
            },
            SpecExpr::ZeroOrMore(c) => {
                lemma_repeat_spans(rules, *c, text, pos, fuel);
            },
            SpecExpr::OneOrMore(c) => {
                lemma_match_spans(rules, *c, text, pos, f);
                match spec_match_expr(rules, *c, text, pos, f) {
                    SpecStep::Found(r0) => {
                        if pos < r0.end && r0.end <= text.len() {
                            lemma_repeat_spans(rules, *c, text, r0.end, fuel);
                        }
                    },
                    _ => {},
                }
            },
            SpecExpr::Optional(c) => {
                lemma_match_spans(rules, *c, text, pos, f);
            },
            SpecExpr::AndPredicate(_) => {},
            SpecExpr::NotPredicate(_) => {},
        }
    }
}

proof fn lemma_children_spans(
    rules: Seq<SpecRule>,
    cs: Seq<SpecExpr>,
    text: Seq<char>,
    pos: int,
    fuel: nat,
)
    requires
        0 <= pos <= text.len(),
    ensures
        spec_match_children(rules, cs, text, pos, fuel) matches SpecChildrenStep::Matched(
            kids,
            end,
        ) ==> pos <= end <= text.len(),
    decreases fuel, rem(text, pos), 1int, cs.len(),
{
    if fuel > 0 && cs.len() > 0 {
        match spec_match_expr(rules, cs[0], text, pos, (fuel - 1) as nat) {
            SpecStep::Found(r) => {
                if pos <= r.end <= text.len() {
                    lemma_children_spans(rules, cs.drop_first(), text, r.end, fuel);
                }
            },
            _ => {},
        }
    }
}

proof fn lemma_alternatives_spans(
    rules: Seq<SpecRule>,
    cs: Seq<SpecExpr>,
    text: Seq<char>,
    pos: int,
    fuel: nat,
)
    requires
        0 <= pos <= text.len(),
    ensures
        spec_match_alternatives(rules, cs, text, pos, fuel) matches SpecAltStep::Matched(r, i)
            ==> r.start == pos && pos <= r.end <= text.len() && 0 <= i < cs.len(),
    decreases fuel, rem(text, pos), 1int, cs.len(),
{
    if fuel > 0 && cs.len() > 0 {
        lemma_match_spans(rules, cs[0], text, pos, (fuel - 1) as nat);
        match spec_match_expr(rules, cs[0], text, pos, (fuel - 1) as nat) {
            SpecStep::NoMatch => {
                lemma_alternatives_spans(rules, cs.drop_first(), text, pos, fuel);
            },
            _ => {},
        }
    }
}

proof fn lemma_repeat_spans(
    rules: Seq<SpecRule>,
    c: SpecExpr,
    text: Seq<char>,
    pos: int,
    fuel: nat,
)
    requires
        0 <= pos <= text.len(),
    ensures
        spec_match_repeat(rules, c, text, pos, fuel) matches SpecStarStep::Matched(kids, end)
            ==> pos <= end <= text.len(),
    decreases fuel, rem(text, pos), 1int, 0int,
{
    if fuel > 0 {
        match spec_match_expr(rules, c, text, pos, (fuel - 1) as nat) {
            SpecStep::Found(r) => {
                if pos < r.end && r.end <= text.len() {
                    lemma_repeat_spans(rules, c, text, r.end, fuel);
                }
            },
            _ => {},
        }
    }
}

/// Law: the `choice` index of a choice's result names the alternative that
/// matched, and re-running that alternative alone from the same position,
/// with the same budget the choice handed it, reproduces exactly the
/// recorded sub-result — in particular the same span end.
pub proof fn lemma_choice_rerun(
    rules: Seq<SpecRule>,
    alts: Seq<SpecExpr>,
    text: Seq<char>,
    pos: int,
    fuel: nat,
    r: SpecResult,
)
    requires
        0 <= pos <= text.len(),
        spec_match_expr(rules, SpecExpr::Choice(alts), text, pos, fuel) == SpecStep::Found(r),
    ensures
        r.choice is Some,
        0 <= r.choice->0 < alts.len(),
        r.children.len() == 1,
        spec_match_expr(rules, alts[r.choice->0], text, pos, (fuel - 1) as nat) == SpecStep::Found(
            r.children[0],
        ),
        r.children[0].start == pos,
        r.children[0].end == r.end,
{
    match spec_match_alternatives(rules, alts, text, pos, fuel) {
        SpecAltStep::Matched(r0, i) => {
            lemma_alternatives_rerun(rules, alts, text, pos, fuel, r0, i);
            lemma_alternatives_spans(rules, alts, text, pos, fuel);
        },
        _ => {},
    }
}

proof fn lemma_alternatives_rerun(
    rules: Seq<SpecRule>,
    cs: Seq<SpecExpr>,
    text: Seq<char>,
    pos: int,
    fuel: nat,
    r0: SpecResult,
    i: int,
)
    requires
        fuel > 0,
        spec_match_alternatives(rules, cs, text, pos, fuel) == SpecAltStep::Matched(r0, i),
    ensures
        0 <= i < cs.len(),
        spec_match_expr(rules, cs[i], text, pos, (fuel - 1) as nat) == SpecStep::Found(r0),
    decreases cs.len(),
{
    if cs.len() > 0 {
        match spec_match_expr(rules, cs[0], text, pos, (fuel - 1) as nat) {
            SpecStep::Found(_) => {},
            SpecStep::NoMatch => {
                lemma_alternatives_rerun(rules, cs.drop_first(), text, pos, fuel, r0, i - 1);
                assert(cs.drop_first()[i - 1] == cs[i]);
            },
            SpecStep::Aborted => {},
        }
    }
}

/// Law: the children of a repetition tile its span: the first child starts
/// at the repetition's start, each later child starts exactly where the
/// previous one ended, the last child ends at the repetition's end, and
/// every recorded child consumed input.
pub proof fn lemma_repeat_children(
    rules: Seq<SpecRule>,
    c: SpecExpr,
    text: Seq<char>,
    pos: int,
    fuel: nat,
    kids: Seq<SpecResult>,
    end: int,
)
    requires
        0 <= pos <= text.len(),
        spec_match_repeat(rules, c, text, pos, fuel) == SpecStarStep::Matched(kids, end),
    ensures
        kids.len() == 0 ==> end == pos,
        kids.len() > 0 ==> kids[0].start == pos,
        kids.len() > 0 ==> kids[kids.len() - 1].end == end,
        forall|k: int| 0 <= k < kids.len() - 1 ==> kids[k + 1].start == #[trigger] kids[k].end,
        forall|k: int| 0 <= k < kids.len() ==> #[trigger] kids[k].start < kids[k].end,
    decreases fuel, rem(text, pos), 1int, 0int,
{
    if fuel > 0 {
        match spec_match_expr(rules, c, text, pos, (fuel - 1) as nat) {
            SpecStep::Found(r) => {
                lemma_match_spans(rules, c, text, pos, (fuel - 1) as nat);
                if pos < r.end && r.end <= text.len() {
                    match spec_match_repeat(rules, c, text, r.end, fuel) {
                        SpecStarStep::Matched(rest, e2) => {
                            lemma_repeat_children(rules, c, text, r.end, fuel, rest, e2);
                            assert(kids == seq![r] + rest);
                            assert(kids[0] == r);
                            assert(forall|k: int|
                                1 <= k < kids.len() ==> #[trigger] kids[k] == rest[k - 1]);
                        },
                        _ => {},
                    }
                }
            },
            _ => {},
        }
    }
}

} // verus!
