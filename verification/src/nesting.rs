//! Groups resolve innermost first: a parenthesised flat group counts as its value,
//! whatever stands around it.

use vstd::prelude::*;
use crate::calculate::{
    collapse, evaluate, evaluate_full, flat_value, left_paren, narrowed, paren, reduce_tier,
    reduce_tiers, resolve_groups,
};
use crate::error::CalcErrorView;
use crate::op::{Op, TIERS};
use crate::search::{is_last, last_index, lemma_last_index, lemma_no_index};
use crate::token::{CalcToken, ComplexToken};

verus! {

/// The arithmetic tokens of a flat group as expression tokens.
pub open spec fn widened<N>(group: Seq<CalcToken<N>>) -> Seq<ComplexToken<N>> {
    Seq::new(group.len(), |i: int| ComplexToken::Calc(group[i]))
}

/// `group` between parentheses, with `before` in front of it and `after` behind.
pub open spec fn with_group<N>(
    before: Seq<ComplexToken<N>>,
    group: Seq<CalcToken<N>>,
    after: Seq<ComplexToken<N>>,
) -> Seq<ComplexToken<N>> {
    before.push(ComplexToken::LParen) + widened(group) + seq![ComplexToken::RParen] + after
}

/// `value` as a single number, with `before` in front of it and `after` behind.
pub open spec fn with_value<N>(
    before: Seq<ComplexToken<N>>,
    value: N,
    after: Seq<ComplexToken<N>>,
) -> Seq<ComplexToken<N>> {
    before.push(ComplexToken::Calc(CalcToken::Num(value))) + after
}

/// A failure with its place in the input moved by `by`, where it has one at or behind `from`.
/// Only an unmatched right parenthesis is placed in the input.
pub open spec fn moved<N>(e: CalcErrorView<N>, from: int, by: int) -> CalcErrorView<N> {
    match e {
        CalcErrorView::UnmatchedRightParen { pos, tokens } if pos >= from => {
            CalcErrorView::UnmatchedRightParen { pos: pos + by, tokens }
        },
        _ => e,
    }
}

/// A result with its failure, if it is one, moved.
pub open spec fn moved_result<T, N>(r: Result<T, CalcErrorView<N>>, from: int, by: int) -> Result<
    T,
    CalcErrorView<N>,
> {
    match r {
        Ok(x) => Ok(x),
        Err(e) => Err(moved(e, from, by)),
    }
}

/// Behind the group, both inputs hold the same tokens, so from equal stacks they come to
/// the same end.
proof fn lemma_behind<N>(
    a: Seq<ComplexToken<N>>,
    b: Seq<ComplexToken<N>>,
    i: int,
    shift: int,
    from: int,
    stack: Seq<ComplexToken<N>>,
    f: spec_fn(Op, N, N) -> N,
)
    requires
        0 <= from <= i <= b.len(),
        0 <= shift,
        a.len() == b.len() + shift,
        forall|k: int| i <= k < b.len() ==> a[k + shift] == b[k],
    ensures
        resolve_groups(a, i + shift, stack, f) == moved_result(
            resolve_groups(b, i, stack, f),
            from,
            shift,
        ),
    decreases b.len() - i,
{
    if i < b.len() {
        assert(a[i + shift] == b[i]);
        if b[i] is RParen {
            match last_index(stack, left_paren()) {
                None => {},
                Some(open) => match flat_value(stack.skip(open + 1), f) {
                    Err(e) => {
                        lemma_flat_failures_have_no_place(stack.skip(open + 1), f);
                    },
                    Ok(value) => {
                        lemma_behind(
                            a,
                            b,
                            i + 1,
                            shift,
                            from,
                            stack.take(open).push(ComplexToken::Calc(CalcToken::Num(value))),
                            f,
                        );
                    },
                },
            }
        } else {
            lemma_behind(a, b, i + 1, shift, from, stack.push(b[i]), f);
        }
    }
}

/// The tokens of the group are pushed one after the other.
proof fn lemma_pushes<N>(
    a: Seq<ComplexToken<N>>,
    start: int,
    group: Seq<CalcToken<N>>,
    j: int,
    stack: Seq<ComplexToken<N>>,
    f: spec_fn(Op, N, N) -> N,
)
    requires
        0 <= start,
        0 <= j <= group.len(),
        start + group.len() <= a.len(),
        forall|k: int| 0 <= k < group.len() ==> a[start + k] == ComplexToken::Calc(group[k]),
    ensures
        resolve_groups(a, start + j, stack + widened(group).take(j), f) == resolve_groups(
            a,
            start + group.len(),
            stack + widened(group),
            f,
        ),
    decreases group.len() - j,
{
    if j < group.len() {
        assert(a[start + j] == ComplexToken::Calc(group[j]));
        assert((stack + widened(group).take(j)).push(a[start + j]) =~= stack + widened(group).take(
            j + 1,
        ));
        lemma_pushes(a, start, group, j + 1, stack, f);
    } else {
        assert(widened(group).take(j) =~= widened(group));
    }
}

/// From equal stacks, the group between its parentheses and its value alone come to the
/// same end.
proof fn lemma_at_group<N>(
    before: Seq<ComplexToken<N>>,
    group: Seq<CalcToken<N>>,
    after: Seq<ComplexToken<N>>,
    value: N,
    stack: Seq<ComplexToken<N>>,
    f: spec_fn(Op, N, N) -> N,
)
    requires
        evaluate(group, f) == Ok::<N, CalcErrorView<N>>(value),
    ensures
        resolve_groups(with_group(before, group, after), before.len() as int, stack, f)
            == moved_result(
            resolve_groups(with_value(before, value, after), before.len() as int, stack, f),
            before.len() as int + 1,
            group.len() as int + 1,
        ),
{
    let a = with_group(before, group, after);
    let b = with_value(before, value, after);
    let p = before.len() as int;
    let n = group.len() as int;
    let number = ComplexToken::Calc(CalcToken::Num(value));
    assert(a[p] == ComplexToken::<N>::LParen);
    assert(b[p] == number);
    assert forall|k: int| 0 <= k < n implies a[p + 1 + k] == ComplexToken::Calc(group[k]) by {
        assert(a[p + 1 + k] == widened(group)[k]);
    }
    let opened = stack.push(ComplexToken::LParen);
    assert(opened + widened(group).take(0) =~= opened);
    lemma_pushes(a, p + 1, group, 0, opened, f);
    let full = opened + widened(group);
    assert(a[p + 1 + n] == ComplexToken::<N>::RParen);
    assert(is_last(full, left_paren(), stack.len() as int)) by {
        assert(full[stack.len() as int] == ComplexToken::<N>::LParen);
        assert forall|j: int| stack.len() < j < full.len() implies !left_paren()(
            #[trigger] full[j],
        ) by {
            assert(full[j] == widened(group)[j - stack.len() - 1]);
        }
    }
    lemma_last_index(full, left_paren(), stack.len() as int);
    assert(full.skip(stack.len() as int + 1) =~= widened(group));
    assert(full.take(stack.len() as int) =~= stack);
    assert forall|j: int| 0 <= j < widened(group).len() implies !paren()(
        #[trigger] widened(group)[j],
    ) by {}
    lemma_no_index(widened(group), paren());
    assert(narrowed(widened(group)) =~= group);
    assert(flat_value(widened(group), f) == Ok::<N, CalcErrorView<N>>(value));
    assert(resolve_groups(a, p + 1 + n, full, f) == resolve_groups(
        a,
        p + n + 2,
        stack.push(number),
        f,
    ));
    assert(resolve_groups(a, p, stack, f) == resolve_groups(a, p + n + 2, stack.push(number), f));
    assert(resolve_groups(b, p, stack, f) == resolve_groups(b, p + 1, stack.push(number), f));
    assert forall|k: int| p + 1 <= k < b.len() implies a[k + (n + 1)] == b[k] by {
        assert(b[k] == after[k - p - 1]);
        assert(a[k + n + 1] == after[k - p - 1]);
    }
    lemma_behind(a, b, p + 1, n + 1, p + 1, stack.push(number), f);
}

/// In front of the group, both inputs hold the same tokens.
proof fn lemma_in_front<N>(
    before: Seq<ComplexToken<N>>,
    group: Seq<CalcToken<N>>,
    after: Seq<ComplexToken<N>>,
    value: N,
    i: int,
    stack: Seq<ComplexToken<N>>,
    f: spec_fn(Op, N, N) -> N,
)
    requires
        0 <= i <= before.len(),
        evaluate(group, f) == Ok::<N, CalcErrorView<N>>(value),
    ensures
        resolve_groups(with_group(before, group, after), i, stack, f) == moved_result(
            resolve_groups(with_value(before, value, after), i, stack, f),
            before.len() as int + 1,
            group.len() as int + 1,
        ),
    decreases before.len() - i,
{
    let a = with_group(before, group, after);
    let b = with_value(before, value, after);
    if i == before.len() {
        lemma_at_group(before, group, after, value, stack, f);
    } else {
        assert(a[i] == before[i]);
        assert(b[i] == before[i]);
        if before[i] is RParen {
            match last_index(stack, left_paren()) {
                None => {},
                Some(open) => match flat_value(stack.skip(open + 1), f) {
                    Err(e) => {
                        lemma_flat_failures_have_no_place(stack.skip(open + 1), f);
                    },
                    Ok(inner) => {
                        lemma_in_front(
                            before,
                            group,
                            after,
                            value,
                            i + 1,
                            stack.take(open).push(ComplexToken::Calc(CalcToken::Num(inner))),
                            f,
                        );
                    },
                },
            }
        } else {
            lemma_in_front(before, group, after, value, i + 1, stack.push(before[i]), f);
        }
    }
}

/// Groups resolve innermost first. Where a flat group has the value `value`, an input that
/// holds the group between parentheses evaluates as the input that holds `value` in its
/// place, whatever tokens stand before and after: to the same number, or to the same
/// failure. Only the place of an unmatched right parenthesis behind the group differs, by
/// the tokens that the group took up.
pub proof fn lemma_group_counts_as_its_value<N>(
    before: Seq<ComplexToken<N>>,
    group: Seq<CalcToken<N>>,
    after: Seq<ComplexToken<N>>,
    value: N,
    f: spec_fn(Op, N, N) -> N,
)
    requires
        evaluate(group, f) == Ok::<N, CalcErrorView<N>>(value),
    ensures
        evaluate_full(with_group(before, group, after), f) == moved_result(
            evaluate_full(with_value(before, value, after), f),
            before.len() as int + 1,
            group.len() as int + 1,
        ),
        evaluate_full(with_value(before, value, after), f) is Ok ==> evaluate_full(
            with_group(before, group, after),
            f,
        ) == evaluate_full(with_value(before, value, after), f),
{
    lemma_in_front(before, group, after, value, 0, Seq::empty(), f);
    let b = with_value(before, value, after);
    match resolve_groups(b, 0, Seq::empty(), f) {
        Ok(stack) => {
            lemma_flat_failures_have_no_place(stack, f);
        },
        Err(e) => {},
    }
}

/// A failure of a sequence that is evaluated as a flat group is never an unmatched right
/// parenthesis, so it has no place in the input.
proof fn lemma_flat_failures_have_no_place<N>(s: Seq<ComplexToken<N>>, f: spec_fn(Op, N, N) -> N)
    ensures
        !(flat_value(s, f) matches Err(CalcErrorView::UnmatchedRightParen { .. })),
{
    if narrowed(s).len() > 0 {
        lemma_tiers_failures(narrowed(s), 0, f);
    }
}

/// No pass over the tiers fails with an unmatched right parenthesis.
proof fn lemma_tiers_failures<N>(s: Seq<CalcToken<N>>, tier: nat, f: spec_fn(Op, N, N) -> N)
    ensures
        !(reduce_tiers(s, tier, f) matches Err(
            CalcErrorView::UnmatchedRightParen { .. },
        )),
    decreases TIERS - tier,
{
    if tier < TIERS {
        lemma_tier_failures(s, tier, 0, f);
        match reduce_tier(s, tier, 0, f) {
            Ok(rest) => lemma_tiers_failures(rest, tier + 1, f),
            Err(e) => {},
        }
    }
}

/// No pass over one tier fails with an unmatched right parenthesis.
proof fn lemma_tier_failures<N>(s: Seq<CalcToken<N>>, tier: nat, i: int, f: spec_fn(Op, N, N) -> N)
    ensures
        !(reduce_tier(s, tier, i, f) matches Err(
            CalcErrorView::UnmatchedRightParen { .. },
        )),
    decreases s.len() - i,
{
    if 0 <= i < s.len() {
        match s[i] {
            CalcToken::Num(_) => lemma_tier_failures(s, tier, i + 1, f),
            CalcToken::Op(op) => {
                if op.spec_tier() != tier {
                    lemma_tier_failures(s, tier, i + 1, f);
                } else if i == 0 || i == s.len() - 1 {
                } else {
                    match (s[i - 1], s[i + 1]) {
                        (CalcToken::Num(a), CalcToken::Num(b)) => {
                            lemma_tier_failures(
                                collapse(s, i, f(op, a, b)),
                                tier,
                                i,
                                f,
                            );
                        },
                        _ => {},
                    }
                }
            },
        }
    }
}

} // verus!
