//! Evaluation uses its tokens up. What it leaves behind is no longer the input, but
//! evaluating it once more comes to the same end.

use vstd::prelude::*;
use crate::calculate::{collapse, evaluate, left_behind, reduce_tier, reduce_tiers};
use crate::error::CalcErrorView;
use crate::op::Op;
use crate::token::CalcToken;

verus! {

/// No operator of `tier` stands among the first `upto` tokens of `s`.
pub open spec fn no_operator_before<N>(s: Seq<CalcToken<N>>, tier: nat, upto: int) -> bool {
    forall|j: int|
        0 <= j < upto && j < s.len() ==> !(#[trigger] s[j] matches CalcToken::Op(op)
            && op.spec_tier() == tier)
}

/// No operator of `tier` stands in `s`.
pub open spec fn tier_done<N>(s: Seq<CalcToken<N>>, tier: nat) -> bool {
    no_operator_before(s, tier, s.len() as int)
}

/// The tokens in which a pass has failed.
pub open spec fn failed_in<N>(e: CalcErrorView<N>) -> Seq<CalcToken<N>> {
    match e {
        CalcErrorView::DanglingOperator { tokens, .. } => tokens,
        CalcErrorView::InvalidOperand { tokens, .. } => tokens,
        _ => Seq::empty(),
    }
}

/// A pass skips what holds no operator of its tier.
proof fn lemma_skip<N>(s: Seq<CalcToken<N>>, tier: nat, from: int, to: int, f: spec_fn(Op, N, N) -> N)
    requires
        0 <= from <= to <= s.len(),
        no_operator_before(s, tier, to),
    ensures
        reduce_tier(s, tier, from, f) == reduce_tier(s, tier, to, f),
    decreases to - from,
{
    if from < to {
        assert(!(s[from] matches CalcToken::Op(op) && op.spec_tier() == tier));
        lemma_skip(s, tier, from + 1, to, f);
    }
}

/// A pass that succeeds leaves no operator of its tier; one that fails, fails again in the
/// same way on the tokens in which it failed. Neither brings in an operator of another
/// tier, and neither leaves nothing.
proof fn lemma_pass<N>(s: Seq<CalcToken<N>>, tier: nat, i: int, f: spec_fn(Op, N, N) -> N)
    requires
        0 <= i <= s.len(),
        s.len() > 0,
        no_operator_before(s, tier, i),
    ensures
        match reduce_tier(s, tier, i, f) {
            Ok(rest) => {
                &&& rest.len() > 0
                &&& tier_done(rest, tier)
                &&& forall|other: nat| tier_done(s, other) ==> tier_done(rest, other)
            },
            Err(e) => {
                &&& failed_in(e).len() > 0
                &&& reduce_tier(failed_in(e), tier, 0, f) == Err::<Seq<CalcToken<N>>, _>(e)
                &&& forall|other: nat| tier_done(s, other) ==> tier_done(failed_in(e), other)
            },
        },
    decreases s.len() - i,
{
    if i < s.len() {
        match s[i] {
            CalcToken::Num(_) => {
                lemma_pass(s, tier, i + 1, f);
            },
            CalcToken::Op(op) => {
                if op.spec_tier() != tier {
                    lemma_pass(s, tier, i + 1, f);
                } else if i == 0 || i == s.len() - 1 {
                    lemma_skip(s, tier, 0, i, f);
                } else {
                    match (s[i - 1], s[i + 1]) {
                        (CalcToken::Num(a), CalcToken::Num(b)) => {
                            let next = collapse(s, i, f(op, a, b));
                            assert forall|j: int| 0 <= j < next.len() implies #[trigger] next[j]
                                is Num || next[j] == s[j] || next[j] == s[j + 2] by {}
                            assert(no_operator_before(next, tier, i)) by {
                                assert forall|j: int| 0 <= j < i && j < next.len() implies !(
                                #[trigger] next[j] matches CalcToken::Op(o) && o.spec_tier()
                                    == tier) by {
                                    if j < i - 1 {
                                        assert(next[j] == s[j]);
                                    }
                                }
                            }
                            assert forall|other: nat| tier_done(s, other) implies tier_done(
                                next,
                                other,
                            ) by {
                                assert forall|j: int| 0 <= j < next.len() implies !(
                                #[trigger] next[j] matches CalcToken::Op(o) && o.spec_tier()
                                    == other) by {
                                    if j < i - 1 {
                                        assert(next[j] == s[j]);
                                    } else if j >= i {
                                        assert(next[j] == s[j + 2]);
                                    }
                                }
                            }
                            lemma_pass(next, tier, i, f);
                        },
                        _ => {
                            lemma_skip(s, tier, 0, i, f);
                        },
                    }
                }
            },
        }
    }
}

/// A pass over tokens without an operator of its tier changes nothing.
proof fn lemma_pass_over_done<N>(s: Seq<CalcToken<N>>, tier: nat, f: spec_fn(Op, N, N) -> N)
    requires
        tier_done(s, tier),
    ensures
        reduce_tier(s, tier, 0, f) == Ok::<_, CalcErrorView<N>>(s),
{
    lemma_skip(s, tier, 0, s.len() as int, f);
}

/// A single number evaluates to itself, so what a successful evaluation leaves behind
/// evaluates to the same value again.
pub proof fn lemma_number_is_its_value<N>(value: N, f: spec_fn(Op, N, N) -> N)
    ensures
        evaluate(seq![CalcToken::Num(value)], f) == Ok::<N, CalcErrorView<N>>(value),
{
    let s = seq![CalcToken::Num(value)];
    reveal_with_fuel(reduce_tier, 2);
    reveal_with_fuel(reduce_tiers, 4);
    assert(reduce_tier(s, 0, 0, f) == Ok::<_, CalcErrorView<N>>(s));
    assert(reduce_tier(s, 1, 0, f) == Ok::<_, CalcErrorView<N>>(s));
    assert(reduce_tier(s, 2, 0, f) == Ok::<_, CalcErrorView<N>>(s));
}

/// Evaluating what an evaluation has left behind comes to the same end: the same number
/// after a success, the same failure, in the same tokens, after a failure.
pub proof fn lemma_evaluating_again<N>(s: Seq<CalcToken<N>>, f: spec_fn(Op, N, N) -> N)
    ensures
        evaluate(left_behind(s, f), f) == evaluate(s, f),
        left_behind(left_behind(s, f), f) == left_behind(s, f),
{
    if s.len() > 0 {
        reveal_with_fuel(reduce_tiers, 4);
        lemma_pass(s, 0, 0, f);
        match reduce_tier(s, 0, 0, f) {
            Err(e) => {},
            Ok(first) => {
                lemma_pass(first, 1, 0, f);
                match reduce_tier(first, 1, 0, f) {
                    Err(e) => {
                        lemma_pass_over_done(failed_in(e), 0, f);
                    },
                    Ok(second) => {
                        lemma_pass(second, 2, 0, f);
                        match reduce_tier(second, 2, 0, f) {
                            Err(e) => {
                                lemma_pass_over_done(failed_in(e), 0, f);
                                lemma_pass_over_done(failed_in(e), 1, f);
                            },
                            Ok(third) => {
                                lemma_pass_over_done(third, 0, f);
                                lemma_pass_over_done(third, 1, f);
                                lemma_pass_over_done(third, 2, f);
                            },
                        }
                    },
                }
            },
        }
    }
}

} // verus!
