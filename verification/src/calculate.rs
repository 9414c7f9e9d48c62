//! Evaluation: a flat group is reduced tier by tier, and a sequence with parentheses is
//! resolved group by group, innermost first, on a stack.

use vstd::prelude::*;
use crate::error::{CalcError, CalcErrorView};
use crate::number::{computes, computes_all};
use crate::op::{Op, TIERS};
use crate::search::{
    first_index, last_index, lemma_first_index, lemma_last_index, lemma_no_index,
};
use crate::token::{CalcToken, ComplexToken};

verus! {

/// The value of a result: the number as it is, or the value of the error.
pub open spec fn outcome_view<N>(r: Result<N, CalcError<N>>) -> Result<N, CalcErrorView<N>> {
    match r {
        Ok(value) => Ok(value),
        Err(e) => Err(e@),
    }
}

/// `s` with the operator at `i` and its two operands replaced by `value`.
pub open spec fn collapse<N>(s: Seq<CalcToken<N>>, i: int, value: N) -> Seq<CalcToken<N>> {
    s.take(i - 1).push(CalcToken::Num(value)) + s.skip(i + 2)
}

/// One pass over `s` for the operators of `tier`, from index `i` on, left to right, with `f`
/// as the arithmetic: the sequence that is left, or the first failure. An operator of the
/// tier at either end is dangling; one with an operator beside it, the right side looked at
/// first, has an invalid operand; any other is applied to its neighbours, and the pass goes
/// on at the same index.
pub open spec fn reduce_tier<N>(
    s: Seq<CalcToken<N>>,
    tier: nat,
    i: int,
    f: spec_fn(Op, N, N) -> N,
) -> Result<Seq<CalcToken<N>>, CalcErrorView<N>>
    decreases s.len() - i,
{
    if i < 0 || i >= s.len() {
        Ok(s)
    } else {
        match s[i] {
            CalcToken::Num(_) => reduce_tier(s, tier, i + 1, f),
            CalcToken::Op(op) => if op.spec_tier() != tier {
                reduce_tier(s, tier, i + 1, f)
            } else if i == 0 || i == s.len() - 1 {
                Err(CalcErrorView::DanglingOperator { pos: i, tokens: s })
            } else {
                match (s[i - 1], s[i + 1]) {
                    (_, CalcToken::Op(_)) => Err(
                        CalcErrorView::InvalidOperand { pos: i + 1, operator: i, tokens: s },
                    ),
                    (CalcToken::Op(_), _) => Err(
                        CalcErrorView::InvalidOperand { pos: i - 1, operator: i, tokens: s },
                    ),
                    (CalcToken::Num(a), CalcToken::Num(b)) => reduce_tier(
                        collapse(s, i, f(op, a, b)),
                        tier,
                        i,
                        f,
                    ),
                }
            },
        }
    }
}

/// The passes for `tier` and every tier after it, in order.
pub open spec fn reduce_tiers<N>(
    s: Seq<CalcToken<N>>,
    tier: nat,
    f: spec_fn(Op, N, N) -> N,
) -> Result<Seq<CalcToken<N>>, CalcErrorView<N>>
    decreases TIERS - tier,
{
    if tier >= TIERS {
        Ok(s)
    } else {
        match reduce_tier(s, tier, 0, f) {
            Err(e) => Err(e),
            Ok(rest) => reduce_tiers(rest, tier + 1, f),
        }
    }
}

/// The value of a flat group: nothing to evaluate is a failure; else every tier is reduced,
/// and what is left must be a single number.
pub open spec fn evaluate<N>(s: Seq<CalcToken<N>>, f: spec_fn(Op, N, N) -> N) -> Result<
    N,
    CalcErrorView<N>,
> {
    if s.len() == 0 {
        Err(CalcErrorView::EmptyExpression)
    } else {
        match reduce_tiers(s, 0, f) {
            Err(e) => Err(e),
            Ok(rest) => match rest.first() {
                CalcToken::Num(value) if rest.len() == 1 => Ok(value),
                _ => Err(CalcErrorView::UnresolvedExpression { tokens: rest }),
            },
        }
    }
}

/// What evaluating a flat group leaves of it: the single number on success, and on failure
/// the tokens as they stood when it was found.
pub open spec fn left_behind<N>(s: Seq<CalcToken<N>>, f: spec_fn(Op, N, N) -> N) -> Seq<
    CalcToken<N>,
> {
    if s.len() == 0 {
        s
    } else {
        match reduce_tiers(s, 0, f) {
            Ok(rest) => rest,
            Err(CalcErrorView::DanglingOperator { tokens, .. }) => tokens,
            Err(CalcErrorView::InvalidOperand { tokens, .. }) => tokens,
            Err(_) => s,
        }
    }
}

/// A copy of a vector of plain values.
pub fn copied<T: Copy>(v: &Vec<T>) -> (r: Vec<T>)
    ensures
        r@ == v@,
{
    let mut r: Vec<T> = Vec::new();
    let mut i: usize = 0;
    while i < v.len()
        invariant
            i <= v.len(),
            r@ == v@.take(i as int),
        decreases v.len() - i,
    {
        r.push(v[i]);
        assert(v@.take(i as int).push(v@[i as int]) =~= v@.take(i + 1));
        i += 1;
    }
    assert(v@.take(i as int) =~= v@);
    r
}

/// One pass over `tokens` for the operators of `tier`.
fn reduce_tier_in_place<N: Copy, F: Fn(Op, N, N) -> N>(
    tokens: &mut Vec<CalcToken<N>>,
    tier: u8,
    apply: &F,
) -> (r: Result<(), CalcError<N>>)
    requires
        computes_all(apply),
    ensures
        forall|f: spec_fn(Op, N, N) -> N| #[trigger]
            computes(apply, f) ==> match reduce_tier(old(tokens)@, tier as nat, 0, f) {
                Ok(rest) => r is Ok && final(tokens)@ == rest,
                Err(e) => r matches Err(x) && x@ == e,
            },
        r matches Err(x) ==> match x@ {
            CalcErrorView::DanglingOperator { tokens: t, .. } => final(tokens)@ == t,
            CalcErrorView::InvalidOperand { tokens: t, .. } => final(tokens)@ == t,
            _ => false,
        },
{
    let ghost start = tokens@;
    let mut i: usize = 0;
    while i < tokens.len()
        invariant
            computes_all(apply),
            start == old(tokens)@,
            i <= tokens.len(),
            forall|f: spec_fn(Op, N, N) -> N| #[trigger]
                computes(apply, f) ==> reduce_tier(tokens@, tier as nat, i as int, f)
                    == reduce_tier(start, tier as nat, 0, f),
        decreases tokens.len() - i,
    {
        let ghost before = tokens@;
        match tokens[i] {
            CalcToken::Num(_) => {
                i += 1;
            },
            CalcToken::Op(op) => {
                if op.tier() != tier {
                    i += 1;
                } else if i == 0 || i == tokens.len() - 1 {
                    return Err(CalcError::DanglingOperator { pos: i, tokens: copied(tokens) });
                } else {
                    let b = match tokens[i + 1] {
                        CalcToken::Num(b) => b,
                        CalcToken::Op(_) => {
                            return Err(
                                CalcError::InvalidOperand {
                                    pos: i + 1,
                                    operator: i,
                                    tokens: copied(tokens),
                                },
                            );
                        },
                    };
                    let a = match tokens[i - 1] {
                        CalcToken::Num(a) => a,
                        CalcToken::Op(_) => {
                            return Err(
                                CalcError::InvalidOperand {
                                    pos: i - 1,
                                    operator: i,
                                    tokens: copied(tokens),
                                },
                            );
                        },
                    };
                    let value = apply(op, a, b);
                    tokens.remove(i + 1);
                    tokens.remove(i);
                    tokens[i - 1] = CalcToken::Num(value);
                    assert forall|f: spec_fn(Op, N, N) -> N| #[trigger]
                        computes(apply, f) implies tokens@ == collapse(
                        before,
                        i as int,
                        f(op, a, b),
                    ) by {
                        assert(tokens@ =~= collapse(before, i as int, value));
                    }
                }
            },
        }
    }
    Ok(())
}

/// Indicates that a sequence of tokens can be calculated to a number.
pub trait Calculate<N> {
    /// What `calc` returns where `f` is the arithmetic.
    spec fn outcome(&self, f: spec_fn(Op, N, N) -> N) -> Result<N, CalcErrorView<N>>;

    /// Evaluates the tokens, with `apply` as the arithmetic.
    fn calc<F: Fn(Op, N, N) -> N>(&mut self, apply: &F) -> (r: Result<N, CalcError<N>>)
        requires
            computes_all(apply),
        ensures
            forall|f: spec_fn(Op, N, N) -> N| #[trigger]
                computes(apply, f) ==> outcome_view(r) == old(self).outcome(f),
    ;
}

impl<N: Copy> Calculate<N> for Vec<CalcToken<N>> {
    open spec fn outcome(&self, f: spec_fn(Op, N, N) -> N) -> Result<N, CalcErrorView<N>> {
        evaluate(self@, f)
    }

    /// Evaluates a flat group in place. The tokens are used up: afterwards the vector holds
    /// the single number that came out, or, after a failure, the partly reduced tokens in
    /// which the failure was found.
    fn calc<F: Fn(Op, N, N) -> N>(&mut self, apply: &F) -> (r: Result<N, CalcError<N>>)
        ensures
            forall|f: spec_fn(Op, N, N) -> N| #[trigger]
                computes(apply, f) ==> final(self)@ == left_behind(old(self)@, f),
            r matches Ok(value) ==> final(self)@ == seq![CalcToken::Num(value)],
    {
        if self.len() == 0 {
            return Err(CalcError::EmptyExpression);
        }
        let ghost start = self@;
        let mut tier: u8 = 0;
        while tier < TIERS
            invariant
                computes_all(apply),
                start == old(self)@,
                start.len() > 0,
                tier <= TIERS,
                forall|f: spec_fn(Op, N, N) -> N| #[trigger]
                    computes(apply, f) ==> reduce_tiers(self@, tier as nat, f) == reduce_tiers(
                        start,
                        0,
                        f,
                    ),
            decreases TIERS - tier,
        {
            match reduce_tier_in_place(self, tier, apply) {
                Ok(()) => {},
                Err(e) => {
                    return Err(e);
                },
            }
            tier += 1;
        }
        if self.len() == 1 {
            if let CalcToken::Num(value) = self[0] {
                assert(self@ =~= seq![CalcToken::Num(value)]);
                return Ok(value);
            }
        }
        Err(CalcError::UnresolvedExpression { tokens: copied(self) })
    }
}

/// The predicate "is a left parenthesis".
pub open spec fn left_paren<N>() -> spec_fn(ComplexToken<N>) -> bool {
    |token: ComplexToken<N>| token is LParen
}

/// The predicate "is a parenthesis", that is, no arithmetic token.
pub open spec fn paren<N>() -> spec_fn(ComplexToken<N>) -> bool {
    |token: ComplexToken<N>| !(token is Calc)
}

/// The arithmetic tokens that a sequence without parentheses wraps.
pub open spec fn narrowed<N>(s: Seq<ComplexToken<N>>) -> Seq<CalcToken<N>> {
    Seq::new(s.len(), |i: int| s[i]->Calc_0)
}

/// The value of a sequence that should hold no parenthesis: the first parenthesis in it is
/// a failure; without one, it is evaluated as a flat group.
pub open spec fn flat_value<N>(s: Seq<ComplexToken<N>>, f: spec_fn(Op, N, N) -> N) -> Result<
    N,
    CalcErrorView<N>,
> {
    match first_index(s, paren()) {
        Some(pos) => Err(CalcErrorView::InvalidTokenInGroup { pos, tokens: s }),
        None => evaluate(narrowed(s), f),
    }
}

/// The stack after the tokens of `input` from index `i` on have been taken in, starting
/// with `stack`, or the first failure. A right parenthesis closes the nearest left
/// parenthesis on the stack: what stands above that one is evaluated as a flat group, and
/// its value takes the place of the group and its parentheses. Any other token is pushed.
pub open spec fn resolve_groups<N>(
    input: Seq<ComplexToken<N>>,
    i: int,
    stack: Seq<ComplexToken<N>>,
    f: spec_fn(Op, N, N) -> N,
) -> Result<Seq<ComplexToken<N>>, CalcErrorView<N>>
    decreases input.len() - i,
{
    if i < 0 || i >= input.len() {
        Ok(stack)
    } else if input[i] is RParen {
        match last_index(stack, left_paren()) {
            None => Err(CalcErrorView::UnmatchedRightParen { pos: i, tokens: stack }),
            Some(open) => match flat_value(stack.skip(open + 1), f) {
                Err(e) => Err(e),
                Ok(value) => resolve_groups(
                    input,
                    i + 1,
                    stack.take(open).push(ComplexToken::Calc(CalcToken::Num(value))),
                    f,
                ),
            },
        }
    } else {
        resolve_groups(input, i + 1, stack.push(input[i]), f)
    }
}

/// The value of a sequence with parentheses: the groups are resolved, and what is left on
/// the stack is evaluated as a flat group.
pub open spec fn evaluate_full<N>(input: Seq<ComplexToken<N>>, f: spec_fn(Op, N, N) -> N) -> Result<
    N,
    CalcErrorView<N>,
> {
    match resolve_groups(input, 0, Seq::empty(), f) {
        Err(e) => Err(e),
        Ok(stack) => flat_value(stack, f),
    }
}

/// Narrows a sequence to its arithmetic tokens, or fails at the first parenthesis in it.
pub fn into_flat<N: Copy>(tokens: Vec<ComplexToken<N>>) -> (r: Result<
    Vec<CalcToken<N>>,
    CalcError<N>,
>)
    ensures
        match first_index(tokens@, paren()) {
            Some(pos) => r matches Err(e) && e@ == (CalcErrorView::InvalidTokenInGroup {
                pos,
                tokens: tokens@,
            }),
            None => r matches Ok(flat) && flat@ == narrowed(tokens@),
        },
{
    let mut flat: Vec<CalcToken<N>> = Vec::new();
    let mut i: usize = 0;
    while i < tokens.len()
        invariant
            i <= tokens.len(),
            flat@ == narrowed(tokens@.take(i as int)),
            forall|j: int| 0 <= j < i ==> !paren()(#[trigger] tokens@[j]),
        decreases tokens.len() - i,
    {
        match tokens[i] {
            ComplexToken::Calc(token) => {
                flat.push(token);
                assert(flat@ =~= narrowed(tokens@.take(i + 1)));
            },
            _ => {
                proof {
                    lemma_first_index(tokens@, paren(), i as int);
                }
                return Err(CalcError::InvalidTokenInGroup { pos: i, tokens });
            },
        }
        i += 1;
    }
    proof {
        lemma_no_index(tokens@, paren());
        assert(tokens@.take(i as int) =~= tokens@);
    }
    Ok(flat)
}

/// The index of the left parenthesis nearest to the top of the stack.
pub fn nearest_left_paren<N: Copy>(stack: &Vec<ComplexToken<N>>) -> (r: Option<usize>)
    ensures
        match last_index(stack@, left_paren()) {
            Some(open) => r == Some(open as usize) && 0 <= open < stack.len(),
            None => r is None,
        },
{
    let mut i: usize = stack.len();
    while i > 0
        invariant
            i <= stack.len(),
            forall|j: int| i <= j < stack.len() ==> !left_paren()(#[trigger] stack@[j]),
        decreases i,
    {
        i -= 1;
        if let ComplexToken::LParen = stack[i] {
            proof {
                lemma_last_index(stack@, left_paren(), i as int);
            }
            return Some(i);
        }
    }
    proof {
        lemma_no_index(stack@, left_paren());
    }
    None
}

/// Evaluates a sequence that should hold no parenthesis.
fn calc_flat<N: Copy, F: Fn(Op, N, N) -> N>(tokens: Vec<ComplexToken<N>>, apply: &F) -> (r: Result<
    N,
    CalcError<N>,
>)
    requires
        computes_all(apply),
    ensures
        forall|f: spec_fn(Op, N, N) -> N| #[trigger]
            computes(apply, f) ==> outcome_view(r) == flat_value(tokens@, f),
{
    match into_flat(tokens) {
        Err(e) => Err(e),
        Ok(mut flat) => flat.calc(apply),
    }
}

impl<N: Copy> Calculate<N> for Vec<ComplexToken<N>> {
    open spec fn outcome(&self, f: spec_fn(Op, N, N) -> N) -> Result<N, CalcErrorView<N>> {
        evaluate_full(self@, f)
    }

    /// Evaluates the expression, taking parentheses and precedence into account. The tokens
    /// themselves are left as they are.
    fn calc<F: Fn(Op, N, N) -> N>(&mut self, apply: &F) -> (r: Result<N, CalcError<N>>)
        ensures
            final(self)@ == old(self)@,
    {
        let mut stack: Vec<ComplexToken<N>> = Vec::new();
        let mut i: usize = 0;
        while i < self.len()
            invariant
                computes_all(apply),
                self@ == old(self)@,
                i <= self.len(),
                forall|f: spec_fn(Op, N, N) -> N| #[trigger]
                    computes(apply, f) ==> resolve_groups(self@, i as int, stack@, f)
                        == resolve_groups(self@, 0, Seq::empty(), f),
            decreases self.len() - i,
        {
            let ghost before = stack@;
            match self[i] {
                ComplexToken::RParen => {
                    let open = match nearest_left_paren(&stack) {
                        Some(open) => open,
                        None => {
                            return Err(CalcError::UnmatchedRightParen { pos: i, tokens: stack });
                        },
                    };
                    let enclosure = stack.split_off(open + 1);
                    stack.pop();
                    assert(enclosure@ =~= before.skip(open + 1));
                    assert(stack@ =~= before.take(open as int));
                    let value = match calc_flat(enclosure, apply) {
                        Ok(value) => value,
                        Err(e) => {
                            return Err(e);
                        },
                    };
                    stack.push(ComplexToken::Calc(CalcToken::Num(value)));
                },
                token => {
                    stack.push(token);
                },
            }
            i += 1;
        }
        calc_flat(stack, apply)
    }
}

} // verus!
