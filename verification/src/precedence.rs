//! What the tiers mean for two operators side by side.

use vstd::prelude::*;
use crate::calculate::{collapse, evaluate, reduce_tier, reduce_tiers};
use crate::error::CalcErrorView;
use crate::op::Op;
use crate::token::CalcToken;

verus! {

/// The flat group `a first b second c`.
pub open spec fn two_operators<N>(a: N, first: Op, b: N, second: Op, c: N) -> Seq<CalcToken<N>> {
    seq![
        CalcToken::Num(a),
        CalcToken::Op(first),
        CalcToken::Num(b),
        CalcToken::Op(second),
        CalcToken::Num(c),
    ]
}

/// One operator between two numbers is applied to them.
pub proof fn lemma_one_operator<N>(a: N, op: Op, b: N, f: spec_fn(Op, N, N) -> N)
    ensures
        evaluate(seq![CalcToken::Num(a), CalcToken::Op(op), CalcToken::Num(b)], f) == Ok::<
            N,
            CalcErrorView<N>,
        >(f(op, a, b)),
{
    let s = seq![CalcToken::Num(a), CalcToken::Op(op), CalcToken::Num(b)];
    let t = seq![CalcToken::Num(f(op, a, b))];
    reveal_with_fuel(reduce_tier, 4);
    reveal_with_fuel(reduce_tiers, 4);
    assert(collapse(s, 1, f(op, a, b)) =~= t);
    assert forall|tier: nat| tier < 3 implies #[trigger] reduce_tier(s, tier, 0, f) == Ok::<
        _,
        CalcErrorView<N>,
    >(if op.spec_tier() == tier { t } else { s }) by {}
    assert forall|tier: nat| tier < 3 implies #[trigger] reduce_tier(t, tier, 0, f) == Ok::<
        _,
        CalcErrorView<N>,
    >(t) by {}
}

/// Within a tier, and where the first operator binds tighter, evaluation goes left to
/// right: `a first b second c` is `(a first b) second c`. So `2 ^ 3 ^ 2` is `(2 ^ 3) ^ 2`.
pub proof fn lemma_left_to_right<N>(a: N, first: Op, b: N, second: Op, c: N, f: spec_fn(Op, N, N) -> N)
    requires
        first.spec_tier() <= second.spec_tier(),
    ensures
        evaluate(two_operators(a, first, b, second, c), f) == Ok::<N, CalcErrorView<N>>(
            f(second, f(first, a, b), c),
        ),
{
    let s = two_operators(a, first, b, second, c);
    let left = f(first, a, b);
    let s1 = seq![CalcToken::Num(left), CalcToken::Op(second), CalcToken::Num(c)];
    let s2 = seq![CalcToken::Num(f(second, left, c))];
    reveal_with_fuel(reduce_tier, 6);
    reveal_with_fuel(reduce_tiers, 4);
    assert(collapse(s, 1, left) =~= s1);
    assert(collapse(s1, 1, f(second, left, c)) =~= s2);
    let after = |k: int|
        if first.spec_tier() > k {
            s
        } else if second.spec_tier() > k {
            s1
        } else {
            s2
        };
    assert(reduce_tier(s, 0, 0, f) == Ok::<_, CalcErrorView<N>>(after(0)));
    assert(reduce_tier(after(0), 1, 0, f) == Ok::<_, CalcErrorView<N>>(after(1)));
    assert(reduce_tier(after(1), 2, 0, f) == Ok::<_, CalcErrorView<N>>(s2));
}

/// Where the second operator binds tighter than the first, it is applied first:
/// `a first b second c` is `a first (b second c)`. So `1 + 2 * 3` is `1 + (2 * 3)`.
pub proof fn lemma_tighter_first<N>(a: N, first: Op, b: N, second: Op, c: N, f: spec_fn(Op, N, N) -> N)
    requires
        second.spec_tier() < first.spec_tier(),
    ensures
        evaluate(two_operators(a, first, b, second, c), f) == Ok::<N, CalcErrorView<N>>(
            f(first, a, f(second, b, c)),
        ),
{
    let s = two_operators(a, first, b, second, c);
    let right = f(second, b, c);
    let s1 = seq![CalcToken::Num(a), CalcToken::Op(first), CalcToken::Num(right)];
    let s2 = seq![CalcToken::Num(f(first, a, right))];
    reveal_with_fuel(reduce_tier, 6);
    reveal_with_fuel(reduce_tiers, 4);
    assert(collapse(s, 3, right) =~= s1);
    assert(collapse(s1, 1, f(first, a, right)) =~= s2);
    let after = |k: int|
        if second.spec_tier() > k {
            s
        } else if first.spec_tier() > k {
            s1
        } else {
            s2
        };
    assert(reduce_tier(s, 0, 0, f) == Ok::<_, CalcErrorView<N>>(after(0)));
    assert(reduce_tier(after(0), 1, 0, f) == Ok::<_, CalcErrorView<N>>(after(1)));
    assert(reduce_tier(after(1), 2, 0, f) == Ok::<_, CalcErrorView<N>>(s2));
}

} // verus!
